//! Verified text utilities: character classes, trimming, searching, and
//! font-name normalization.

use vstd::prelude::*;
use vstd::string::*;

verus! {

/// The Unicode `White_Space` characters, the set that trimming removes.
pub open spec fn is_space_char(c: char) -> bool {
    let u = c as u32;
    (9 <= u && u <= 13) || u == 0x20 || u == 0x85 || u == 0xA0 || u == 0x1680 || (0x2000 <= u
        && u <= 0x200A) || u == 0x2028 || u == 0x2029 || u == 0x202F || u == 0x205F || u == 0x3000
}

pub fn is_space(c: char) -> (b: bool)
    ensures
        b == is_space_char(c),
{
    let u = c as u32;
    (9 <= u && u <= 13) || u == 0x20 || u == 0x85 || u == 0xA0 || u == 0x1680 || (0x2000 <= u
        && u <= 0x200A) || u == 0x2028 || u == 0x2029 || u == 0x202F || u == 0x205F || u == 0x3000
}

pub open spec fn is_null_char(c: char) -> bool {
    c == '\u{0}'
}

/// First index at or after `i` whose character is not white space.
pub open spec fn skip_spaces(s: Seq<char>, i: int) -> int
    decreases s.len() - i,
{
    if 0 <= i < s.len() && is_space_char(s[i]) {
        skip_spaces(s, i + 1)
    } else {
        i
    }
}

/// Last bound at or before `i` such that the character just before it is not
/// white space.
pub open spec fn rskip_spaces(s: Seq<char>, i: int) -> int
    decreases i,
{
    if 0 < i <= s.len() && is_space_char(s[i - 1]) {
        rskip_spaces(s, i - 1)
    } else {
        i
    }
}

pub open spec fn skip_nulls(s: Seq<char>, i: int) -> int
    decreases s.len() - i,
{
    if 0 <= i < s.len() && is_null_char(s[i]) {
        skip_nulls(s, i + 1)
    } else {
        i
    }
}

pub open spec fn rskip_nulls(s: Seq<char>, i: int) -> int
    decreases i,
{
    if 0 < i <= s.len() && is_null_char(s[i - 1]) {
        rskip_nulls(s, i - 1)
    } else {
        i
    }
}

pub open spec fn trim_spaces_spec(s: Seq<char>) -> Seq<char> {
    let lo = skip_spaces(s, 0);
    let hi = rskip_spaces(s, s.len() as int);
    if lo <= hi {
        s.subrange(lo, hi)
    } else {
        Seq::empty()
    }
}

pub open spec fn trim_nulls_spec(s: Seq<char>) -> Seq<char> {
    let lo = skip_nulls(s, 0);
    let hi = rskip_nulls(s, s.len() as int);
    if lo <= hi {
        s.subrange(lo, hi)
    } else {
        Seq::empty()
    }
}

pub proof fn lemma_skip_spaces_bounds(s: Seq<char>, i: int)
    requires
        0 <= i <= s.len(),
    ensures
        i <= skip_spaces(s, i) <= s.len(),
    decreases s.len() - i,
{
    if 0 <= i < s.len() && is_space_char(s[i]) {
        lemma_skip_spaces_bounds(s, i + 1);
    }
}

pub proof fn lemma_rskip_spaces_bounds(s: Seq<char>, i: int)
    requires
        0 <= i <= s.len(),
    ensures
        0 <= rskip_spaces(s, i) <= i,
    decreases i,
{
    if 0 < i <= s.len() && is_space_char(s[i - 1]) {
        lemma_rskip_spaces_bounds(s, i - 1);
    }
}

pub proof fn lemma_skip_nulls_bounds(s: Seq<char>, i: int)
    requires
        0 <= i <= s.len(),
    ensures
        i <= skip_nulls(s, i) <= s.len(),
    decreases s.len() - i,
{
    if 0 <= i < s.len() && is_null_char(s[i]) {
        lemma_skip_nulls_bounds(s, i + 1);
    }
}

pub proof fn lemma_rskip_nulls_bounds(s: Seq<char>, i: int)
    requires
        0 <= i <= s.len(),
    ensures
        0 <= rskip_nulls(s, i) <= i,
    decreases i,
{
    if 0 < i <= s.len() && is_null_char(s[i - 1]) {
        lemma_rskip_nulls_bounds(s, i - 1);
    }
}

/// Remove leading and trailing white space.
pub fn trim_spaces(s: &str) -> (r: String)
    ensures
        r@ == trim_spaces_spec(s@),
{
    let n = s.unicode_len();
    let mut lo: usize = 0;
    while lo < n && is_space(s.get_char(lo))
        invariant
            n == s@.len(),
            0 <= lo <= n,
            skip_spaces(s@, 0) == skip_spaces(s@, lo as int),
        decreases n - lo,
    {
        lo += 1;
    }
    assert(skip_spaces(s@, 0) == lo as int);
    let mut hi: usize = n;
    while hi > lo && is_space(s.get_char(hi - 1))
        invariant
            n == s@.len(),
            lo <= hi <= n,
            rskip_spaces(s@, n as int) == rskip_spaces(s@, hi as int),
        decreases hi,
    {
        hi -= 1;
    }
    let sub = s.substring_char(lo, hi);
    let out = sub.to_owned();
    proof {
        let fhi = rskip_spaces(s@, s@.len() as int);
        if hi > lo {
            // The backward scan stopped at a non-space character.
            assert(fhi == hi as int);
        } else {
            // hi == lo: the spec bound can only be at or below lo.
            lemma_rskip_spaces_bounds(s@, hi as int);
            assert(out@ =~= trim_spaces_spec(s@));
        }
        assert(out@ =~= trim_spaces_spec(s@));
    }
    out
}

/// Remove leading and trailing null characters.
pub fn trim_nulls(s: &str) -> (r: String)
    ensures
        r@ == trim_nulls_spec(s@),
{
    let n = s.unicode_len();
    let mut lo: usize = 0;
    while lo < n && s.get_char(lo) == '\u{0}'
        invariant
            n == s@.len(),
            0 <= lo <= n,
            skip_nulls(s@, 0) == skip_nulls(s@, lo as int),
        decreases n - lo,
    {
        lo += 1;
    }
    assert(skip_nulls(s@, 0) == lo as int);
    let mut hi: usize = n;
    while hi > lo && s.get_char(hi - 1) == '\u{0}'
        invariant
            n == s@.len(),
            lo <= hi <= n,
            rskip_nulls(s@, n as int) == rskip_nulls(s@, hi as int),
        decreases hi,
    {
        hi -= 1;
    }
    let sub = s.substring_char(lo, hi);
    let out = sub.to_owned();
    proof {
        let fhi = rskip_nulls(s@, s@.len() as int);
        if hi > lo {
            assert(fhi == hi as int);
        } else {
            lemma_rskip_nulls_bounds(s@, hi as int);
            assert(out@ =~= trim_nulls_spec(s@));
        }
        assert(out@ =~= trim_nulls_spec(s@));
    }
    out
}

/// Normalizing a raw font name: trim white space, then trim nulls, then drop
/// one leading vertical-layout marker `@`; an empty remainder is no name.
pub open spec fn norm_spec(s: Seq<char>) -> Option<Seq<char>> {
    let t = trim_nulls_spec(trim_spaces_spec(s));
    let u = if t.len() > 0 && t[0] == '@' {
        t.drop_first()
    } else {
        t
    };
    if u.len() == 0 {
        Option::None
    } else {
        Option::Some(u)
    }
}

/// Derive the index key / display form of a raw font name, or reject it.
pub fn normalize_font_name(name: &str) -> (r: Option<String>)
    ensures
        r.deep_view() == norm_spec(name@),
{
    let t1 = trim_spaces(name);
    let t2 = trim_nulls(t1.as_str());
    let n = t2.as_str().unicode_len();
    let stripped: String = if n > 0 && t2.as_str().get_char(0) == '@' {
        let sub = t2.as_str().substring_char(1, n);
        proof {
            assert(t2@.drop_first() =~= t2@.subrange(1, t2@.len() as int));
        }
        sub.to_owned()
    } else {
        t2
    };
    if stripped.as_str().unicode_len() == 0 {
        None
    } else {
        Some(stripped)
    }
}

/// ASCII lowercasing of one character; keyword and extension matching is
/// insensitive only to ASCII case.
pub open spec fn ascii_lower_char(c: char) -> char {
    match c {
        'A' => 'a',
        'B' => 'b',
        'C' => 'c',
        'D' => 'd',
        'E' => 'e',
        'F' => 'f',
        'G' => 'g',
        'H' => 'h',
        'I' => 'i',
        'J' => 'j',
        'K' => 'k',
        'L' => 'l',
        'M' => 'm',
        'N' => 'n',
        'O' => 'o',
        'P' => 'p',
        'Q' => 'q',
        'R' => 'r',
        'S' => 's',
        'T' => 't',
        'U' => 'u',
        'V' => 'v',
        'W' => 'w',
        'X' => 'x',
        'Y' => 'y',
        'Z' => 'z',
        _ => c,
    }
}

pub fn ascii_lower_char_exec(c: char) -> (r: char)
    ensures
        r == ascii_lower_char(c),
{
    match c {
        'A' => 'a',
        'B' => 'b',
        'C' => 'c',
        'D' => 'd',
        'E' => 'e',
        'F' => 'f',
        'G' => 'g',
        'H' => 'h',
        'I' => 'i',
        'J' => 'j',
        'K' => 'k',
        'L' => 'l',
        'M' => 'm',
        'N' => 'n',
        'O' => 'o',
        'P' => 'p',
        'Q' => 'q',
        'R' => 'r',
        'S' => 's',
        'T' => 't',
        'U' => 'u',
        'V' => 'v',
        'W' => 'w',
        'X' => 'x',
        'Y' => 'y',
        'Z' => 'z',
        _ => c,
    }
}

pub open spec fn ascii_lower_spec(s: Seq<char>) -> Seq<char> {
    s.map_values(|c: char| ascii_lower_char(c))
}

/// ASCII lowercasing of a whole string.
pub fn ascii_lower(s: &str) -> (r: String)
    ensures
        r@ == ascii_lower_spec(s@),
{
    let n = s.unicode_len();
    let mut out = String::new();
    let mut i: usize = 0;
    while i < n
        invariant
            n == s@.len(),
            0 <= i <= n,
            out@ == ascii_lower_spec(s@.take(i as int)),
        decreases n - i,
    {
        let c = ascii_lower_char_exec(s.get_char(i));
        crate::ext::push_char(&mut out, c);
        proof {
            assert(s@.take(i + 1).map_values(|c: char| ascii_lower_char(c)) =~= s@.take(
                i as int,
            ).map_values(|c: char| ascii_lower_char(c)).push(ascii_lower_char(s@[i as int])));
        }
        i += 1;
    }
    proof {
        assert(s@.take(n as int) =~= s@);
    }
    out
}

/// Character-wise equality of two string slices.
pub fn eq_str(a: &str, b: &str) -> (r: bool)
    ensures
        r == (a@ == b@),
{
    let na = a.unicode_len();
    let nb = b.unicode_len();
    if na != nb {
        return false;
    }
    let mut i: usize = 0;
    while i < na
        invariant
            na == a@.len(),
            na == b@.len(),
            0 <= i <= na,
            forall|j: int| 0 <= j < i ==> a@[j] == b@[j],
        decreases na - i,
    {
        if a.get_char(i) != b.get_char(i) {
            return false;
        }
        i += 1;
    }
    proof {
        assert(a@ =~= b@);
    }
    true
}

pub open spec fn is_prefix(p: Seq<char>, s: Seq<char>) -> bool {
    p.len() <= s.len() && s.subrange(0, p.len() as int) == p
}

/// `n` occurs in `h` starting at position `i`.
pub open spec fn match_at(h: Seq<char>, n: Seq<char>, i: int) -> bool {
    0 <= i && i + n.len() <= h.len() && h.subrange(i, i + n.len() as int) == n
}

pub open spec fn seq_contains(h: Seq<char>, n: Seq<char>) -> bool {
    exists|i: int| match_at(h, n, i)
}

/// First position of `c` in `s` at or after `from`.
pub open spec fn find_char_spec(s: Seq<char>, c: char, from: int) -> Option<int>
    decreases s.len() - from,
{
    if 0 <= from && from < s.len() {
        if s[from] == c {
            Option::Some(from)
        } else {
            find_char_spec(s, c, from + 1)
        }
    } else {
        Option::None
    }
}

pub proof fn lemma_find_char_bounds(s: Seq<char>, c: char, from: int)
    requires
        0 <= from,
    ensures
        match find_char_spec(s, c, from) {
            Option::Some(i) => from <= i < s.len() && s[i] == c,
            Option::None => true,
        },
    decreases s.len() - from,
{
    if 0 <= from && from < s.len() && s[from] != c {
        lemma_find_char_bounds(s, c, from + 1);
    }
}

pub fn find_char(s: &str, c: char, from: usize) -> (r: Option<usize>)
    ensures
        match r {
            Some(i) => find_char_spec(s@, c, from as int) == Option::Some(i as int),
            None => find_char_spec(s@, c, from as int) is None,
        },
{
    let n = s.unicode_len();
    let mut i: usize = from;
    while i < n
        invariant
            n == s@.len(),
            from <= i,
            find_char_spec(s@, c, from as int) == find_char_spec(s@, c, i as int),
        decreases n - i,
    {
        if s.get_char(i) == c {
            return Some(i);
        }
        i += 1;
    }
    None
}


/// Append `x` unless it is already present.
pub open spec fn insert_unique(acc: Seq<Seq<char>>, x: Seq<char>) -> Seq<Seq<char>> {
    if acc.contains(x) {
        acc
    } else {
        acc.push(x)
    }
}

/// Fold the strings of `xs` from index `i` on into `acc`, in order, dropping
/// duplicates.
pub open spec fn merge_unique(acc: Seq<Seq<char>>, xs: Seq<Seq<char>>, i: int) -> Seq<Seq<char>>
    decreases xs.len() - i,
{
    if 0 <= i < xs.len() {
        merge_unique(insert_unique(acc, xs[i]), xs, i + 1)
    } else {
        acc
    }
}

/// Append `x` to `acc` unless an equal string is already there.
#[verifier::loop_isolation(false)]
pub(crate) fn push_unique(acc: &mut Vec<String>, x: String)
    ensures
        final(acc).deep_view() == insert_unique(old(acc).deep_view(), x@),
{
    let n = acc.len();
    let mut k: usize = 0;
    while k < n
        invariant
            n == acc@.len(),
            0 <= k <= n,
            acc == old(acc),
            forall|j: int| 0 <= j < k ==> acc@[j]@ != x@,
        decreases n - k,
    {
        if crate::text::eq_str(acc[k].as_str(), x.as_str()) {
            proof {
                assert(old(acc).deep_view()[k as int] == x@);
                assert(old(acc).deep_view().contains(x@));
            }
            return ;
        }
        k += 1;
    }
    proof {
        assert(forall|j: int|
            0 <= j < old(acc).deep_view().len() ==> old(acc).deep_view()[j] != x@);
    }
    acc.push(x);
    proof {
        assert(!old(acc).deep_view().contains(x@));
        assert(acc.deep_view() =~= old(acc).deep_view().push(x@));
    }
}

/// First position of `n` as a substring of `h` at or after `from`.
pub open spec fn find_sub_spec(h: Seq<char>, n: Seq<char>, from: int) -> Option<int>
    decreases h.len() + 1 - from,
{
    if !(0 <= from) {
        Option::None
    } else if from + n.len() > h.len() {
        Option::None
    } else if h.subrange(from, from + n.len() as int) == n {
        Option::Some(from)
    } else {
        find_sub_spec(h, n, from + 1)
    }
}

pub proof fn lemma_find_sub_bounds(h: Seq<char>, n: Seq<char>, from: int)
    requires
        0 <= from,
    ensures
        match find_sub_spec(h, n, from) {
            Option::Some(p) => from <= p && p + n.len() <= h.len() && match_at(h, n, p),
            Option::None => true,
        },
    decreases h.len() + 1 - from,
{
    if 0 <= from && from + n.len() <= h.len() && h.subrange(from, from + n.len() as int) != n {
        lemma_find_sub_bounds(h, n, from + 1);
    }
}


/// Does `s` start with the characters `p`?
#[verifier::loop_isolation(false)]
pub fn starts_with_chars(s: &str, p: &Vec<char>) -> (r: bool)
    ensures
        r == is_prefix(p@, s@),
{
    let ns = s.unicode_len();
    let np = p.len();
    if np > ns {
        return false;
    }
    let mut i: usize = 0;
    while i < np
        invariant
            ns == s@.len(),
            np == p@.len(),
            np <= ns,
            0 <= i <= np,
            forall|j: int| 0 <= j < i ==> s@[j] == p@[j],
        decreases np - i,
    {
        if s.get_char(i) != p[i] {
            proof {
                assert(s@.subrange(0, p@.len() as int)[i as int] == s@[i as int]);
            }
            return false;
        }
        i += 1;
    }
    proof {
        assert(s@.subrange(0, p@.len() as int) =~= p@);
    }
    true
}

/// Are `s` and the characters `p` equal?
#[verifier::loop_isolation(false)]
pub fn eq_chars(s: &str, p: &Vec<char>) -> (r: bool)
    ensures
        r == (s@ == p@),
{
    let ns = s.unicode_len();
    let np = p.len();
    if np != ns {
        return false;
    }
    let mut i: usize = 0;
    while i < np
        invariant
            ns == s@.len(),
            np == p@.len(),
            np == ns,
            0 <= i <= np,
            forall|j: int| 0 <= j < i ==> s@[j] == p@[j],
        decreases np - i,
    {
        if s.get_char(i) != p[i] {
            return false;
        }
        i += 1;
    }
    proof {
        assert(s@ =~= p@);
    }
    true
}

#[verifier::loop_isolation(false)]
pub(crate) fn match_at_chars(h: &str, n: &Vec<char>, i: usize) -> (r: bool)
    requires
        i + n@.len() <= h@.len(),
    ensures
        r == match_at(h@, n@, i as int),
{
    let nh = h.unicode_len();
    let nn = n.len();
    let mut j: usize = 0;
    while j < nn
        invariant
            nn == n@.len(),
            nh == h@.len(),
            i + nn <= nh,
            0 <= j <= nn,
            forall|k: int| 0 <= k < j ==> h@[i + k] == n@[k],
        decreases nn - j,
    {
        if h.get_char(i + j) != n[j] {
            proof {
                assert(h@.subrange(i as int, i + n@.len() as int)[j as int] == h@[i + j]);
            }
            return false;
        }
        j += 1;
    }
    proof {
        assert(h@.subrange(i as int, i + n@.len() as int) =~= n@);
    }
    true
}

/// Do the characters `n` occur anywhere in `h`?
#[verifier::loop_isolation(false)]
pub fn contains_chars(h: &str, n: &Vec<char>) -> (r: bool)
    ensures
        r == seq_contains(h@, n@),
{
    let nh = h.unicode_len();
    let nn = n.len();
    if nn > nh {
        proof {
            assert(forall|i: int| !match_at(h@, n@, i));
        }
        return false;
    }
    if nn == 0 {
        proof {
            assert(h@.subrange(0, 0) =~= n@);
            assert(match_at(h@, n@, 0));
        }
        return true;
    }
    let mut i: usize = 0;
    while i <= nh - nn
        invariant
            nh == h@.len(),
            nn == n@.len(),
            1 <= nn <= nh,
            0 <= i <= nh - nn + 1,
            forall|k: int| 0 <= k < i ==> !match_at(h@, n@, k),
        decreases nh - i,
    {
        if match_at_chars(h, n, i) {
            return true;
        }
        i += 1;
    }
    proof {
        assert(forall|k: int| match_at(h@, n@, k) ==> 0 <= k <= nh - nn);
    }
    false
}

/// Find the first occurrence of the characters `n` in `h` at or after `from`.
#[verifier::loop_isolation(false)]
pub fn find_sub_chars(h: &str, n: &Vec<char>, from: usize) -> (r: Option<usize>)
    ensures
        match r {
            Some(p) => find_sub_spec(h@, n@, from as int) == Option::Some(p as int),
            None => find_sub_spec(h@, n@, from as int) is None,
        },
{
    let nh = h.unicode_len();
    let nn = n.len();
    if nn == 0 {
        if from <= nh {
            proof {
                assert(h@.subrange(from as int, from as int) =~= n@);
            }
            return Some(from);
        }
        return None;
    }
    let mut i: usize = from;
    loop
        invariant
            nh == h@.len(),
            nn == n@.len(),
            1 <= nn,
            from <= i,
            find_sub_spec(h@, n@, from as int) == find_sub_spec(h@, n@, i as int),
        decreases nh + 1 - i,
    {
        if i > nh || nn > nh - i {
            return None;
        }
        if match_at_chars(h, n, i) {
            return Some(i);
        }
        proof {
            assert(h@.subrange(i as int, i + n@.len() as int) != n@);
        }
        i += 1;
    }
}

} // verus!
