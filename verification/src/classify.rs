//! Verified extension-based classification of discovered paths into subtitle
//! candidates, font candidates, and the rest.

use vstd::prelude::*;
use vstd::string::*;
use crate::text::{ascii_lower_spec, ascii_lower, eq_chars};

verus! {

pub open spec fn is_sep_char(c: char) -> bool {
    c == '/' || c == '\\'
}

/// Index of the last path separator strictly before `i`, or -1.
pub open spec fn last_sep(p: Seq<char>, i: int) -> int
    decreases i,
{
    if 0 < i <= p.len() {
        if is_sep_char(p[i - 1]) {
            i - 1
        } else {
            last_sep(p, i - 1)
        }
    } else {
        -1
    }
}

/// Index of the last dot of the file name part strictly before `i`, or -1;
/// the scan stops at path separators.
pub open spec fn last_dot(p: Seq<char>, i: int) -> int
    decreases i,
{
    if 0 < i <= p.len() {
        if p[i - 1] == '.' {
            i - 1
        } else if is_sep_char(p[i - 1]) {
            -1
        } else {
            last_dot(p, i - 1)
        }
    } else {
        -1
    }
}

/// The extension of a path: the part of its file name after the final dot;
/// none when there is no dot, or only a leading one.
pub open spec fn ext_spec(p: Seq<char>) -> Option<Seq<char>> {
    let d = last_dot(p, p.len() as int);
    let s = last_sep(p, p.len() as int);
    if d >= 0 && d > s + 1 {
        Option::Some(p.subrange(d + 1, p.len() as int))
    } else {
        Option::None
    }
}

proof fn lemma_last_sep_bounds(p: Seq<char>, i: int)
    requires
        0 <= i <= p.len(),
    ensures
        -1 <= last_sep(p, i) < i,
    decreases i,
{
    if 0 < i <= p.len() && !is_sep_char(p[i - 1]) {
        lemma_last_sep_bounds(p, i - 1);
    }
}

proof fn lemma_last_dot_bounds(p: Seq<char>, i: int)
    requires
        0 <= i <= p.len(),
    ensures
        -1 <= last_dot(p, i) < i,
    decreases i,
{
    if 0 < i <= p.len() && p[i - 1] != '.' && !is_sep_char(p[i - 1]) {
        lemma_last_dot_bounds(p, i - 1);
    }
}

/// Extract the extension of a path, if it has one.
#[verifier::loop_isolation(false)]
pub fn extension_of(path: &str) -> (r: Option<String>)
    ensures
        r.deep_view() == ext_spec(path@),
{
    let n = path.unicode_len();
    // scan backwards for the last dot, stopping at a separator
    let mut i: usize = n;
    let d: Option<usize>;
    loop
        invariant
            n == path@.len(),
            0 <= i <= n,
            last_dot(path@, n as int) == last_dot(path@, i as int),
        decreases i,
    {
        if i == 0 {
            d = None;
            break ;
        }
        let c = path.get_char(i - 1);
        if c == '.' {
            proof {
                assert(last_dot(path@, i as int) == i - 1);
            }
            d = Some(i - 1);
            break ;
        }
        if c == '/' || c == '\\' {
            d = None;
            break ;
        }
        i -= 1;
    }
    proof {
        match d {
            Option::Some(x) => assert(x as int == last_dot(path@, n as int)),
            Option::None => assert(last_dot(path@, n as int) == -1),
        }
    }
    // scan backwards for the last separator
    let mut j: usize = n;
    let s: Option<usize>;
    loop
        invariant
            n == path@.len(),
            0 <= j <= n,
            last_sep(path@, n as int) == last_sep(path@, j as int),
        decreases j,
    {
        if j == 0 {
            s = None;
            break ;
        }
        let c = path.get_char(j - 1);
        if c == '/' || c == '\\' {
            proof {
                assert(last_sep(path@, j as int) == j - 1);
            }
            s = Some(j - 1);
            break ;
        }
        j -= 1;
    }
    proof {
        match s {
            Option::Some(x) => assert(x as int == last_sep(path@, n as int)),
            Option::None => assert(last_sep(path@, n as int) == -1),
        }
        lemma_last_dot_bounds(path@, n as int);
        lemma_last_sep_bounds(path@, n as int);
    }
    let keep: bool = match (d, s) {
        (Some(dv), Some(sv)) => dv > sv + 1,
        (Some(dv), None) => dv > 0,
        _ => false,
    };
    if keep {
        let dv = match d {
            Some(x) => x,
            None => 0,
        };
        Some(path.substring_char(dv + 1, n).to_owned())
    } else {
        None
    }
}

/// The lowercased extension equals one of the subtitle-candidate extensions.
pub open spec fn is_sub_spec(p: Seq<char>) -> bool {
    match ext_spec(p) {
        Option::Some(e) => {
            let l = ascii_lower_spec(e);
            l == seq!['a', 's', 's'] || l == seq!['s', 's', 'a'] || l == seq!['s', 'r', 't'] || l
                == seq!['v', 't', 't'] || l == seq!['s', 'u', 'b'] || l == seq!['i', 'd', 'x'] || l
                == seq!['s', 'u', 'p']
        },
        Option::None => false,
    }
}

/// The lowercased extension marks a file eligible for font-reference
/// extraction.
pub open spec fn is_ass_spec(p: Seq<char>) -> bool {
    match ext_spec(p) {
        Option::Some(e) => {
            let l = ascii_lower_spec(e);
            l == seq!['a', 's', 's'] || l == seq!['s', 's', 'a']
        },
        Option::None => false,
    }
}

/// The lowercased extension marks a font candidate.
pub open spec fn is_font_spec(p: Seq<char>) -> bool {
    match ext_spec(p) {
        Option::Some(e) => {
            let l = ascii_lower_spec(e);
            l == seq!['t', 't', 'f'] || l == seq!['o', 't', 'f'] || l == seq!['t', 't', 'c']
        },
        Option::None => false,
    }
}

/// Is this a subtitle-candidate path?
pub fn is_sub_file(path: &str) -> (b: bool)
    ensures
        b == is_sub_spec(path@),
{
    match extension_of(path) {
        Some(e) => {
            let l = ascii_lower(e.as_str());
            let k1: Vec<char> = vec!['a', 's', 's'];
            let k2: Vec<char> = vec!['s', 's', 'a'];
            let k3: Vec<char> = vec!['s', 'r', 't'];
            let k4: Vec<char> = vec!['v', 't', 't'];
            let k5: Vec<char> = vec!['s', 'u', 'b'];
            let k6: Vec<char> = vec!['i', 'd', 'x'];
            let k7: Vec<char> = vec!['s', 'u', 'p'];
            proof {
                assert(k1@ =~= seq!['a', 's', 's']);
                assert(k2@ =~= seq!['s', 's', 'a']);
                assert(k3@ =~= seq!['s', 'r', 't']);
                assert(k4@ =~= seq!['v', 't', 't']);
                assert(k5@ =~= seq!['s', 'u', 'b']);
                assert(k6@ =~= seq!['i', 'd', 'x']);
                assert(k7@ =~= seq!['s', 'u', 'p']);
            }
            eq_chars(l.as_str(), &k1) || eq_chars(l.as_str(), &k2) || eq_chars(l.as_str(), &k3)
                || eq_chars(l.as_str(), &k4) || eq_chars(l.as_str(), &k5) || eq_chars(
                l.as_str(),
                &k6,
            ) || eq_chars(l.as_str(), &k7)
        },
        None => false,
    }
}

/// Is this a subtitle whose font references can be extracted?
pub fn is_ass_file(path: &str) -> (b: bool)
    ensures
        b == is_ass_spec(path@),
{
    match extension_of(path) {
        Some(e) => {
            let l = ascii_lower(e.as_str());
            let k1: Vec<char> = vec!['a', 's', 's'];
            let k2: Vec<char> = vec!['s', 's', 'a'];
            proof {
                assert(k1@ =~= seq!['a', 's', 's']);
                assert(k2@ =~= seq!['s', 's', 'a']);
            }
            eq_chars(l.as_str(), &k1) || eq_chars(l.as_str(), &k2)
        },
        None => false,
    }
}

/// Is this a font-candidate path?
pub fn is_font_file(path: &str) -> (b: bool)
    ensures
        b == is_font_spec(path@),
{
    match extension_of(path) {
        Some(e) => {
            let l = ascii_lower(e.as_str());
            let k1: Vec<char> = vec!['t', 't', 'f'];
            let k2: Vec<char> = vec!['o', 't', 'f'];
            let k3: Vec<char> = vec!['t', 't', 'c'];
            proof {
                assert(k1@ =~= seq!['t', 't', 'f']);
                assert(k2@ =~= seq!['o', 't', 'f']);
                assert(k3@ =~= seq!['t', 't', 'c']);
            }
            eq_chars(l.as_str(), &k1) || eq_chars(l.as_str(), &k2) || eq_chars(l.as_str(), &k3)
        },
        None => false,
    }
}

} // verus!
