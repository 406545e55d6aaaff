//! Verified extraction of required font names from ASS/SSA subtitle text:
//! line splitting, the section state machine, style tables with a runtime
//! column order, and inline font-override tags.

use vstd::prelude::*;
use vstd::string::*;
use crate::text::{
    trim_spaces_spec, trim_spaces, ascii_lower_spec, ascii_lower, norm_spec, normalize_font_name,
    is_prefix, seq_contains, find_char_spec, find_char, lemma_find_char_bounds, find_sub_spec,
    find_sub_chars, lemma_find_sub_bounds, skip_spaces, lemma_skip_spaces_bounds, is_space,
    insert_unique, merge_unique, push_unique, starts_with_chars, contains_chars, eq_chars,
};

verus! {

// The keywords of the format, matched after ASCII lowercasing.
pub open spec fn format_kw() -> Seq<char> {
    seq!['f', 'o', 'r', 'm', 'a', 't', ':']
}

pub open spec fn style_kw() -> Seq<char> {
    seq!['s', 't', 'y', 'l', 'e', ':']
}

pub open spec fn dialogue_kw() -> Seq<char> {
    seq!['d', 'i', 'a', 'l', 'o', 'g', 'u', 'e', ':']
}

pub open spec fn comment_kw() -> Seq<char> {
    seq!['c', 'o', 'm', 'm', 'e', 'n', 't', ':']
}

pub open spec fn styles_kw() -> Seq<char> {
    seq!['s', 't', 'y', 'l', 'e', 's']
}

pub open spec fn events_kw() -> Seq<char> {
    seq!['e', 'v', 'e', 'n', 't', 's']
}

pub open spec fn fontname_kw() -> Seq<char> {
    seq!['f', 'o', 'n', 't', 'n', 'a', 'm', 'e']
}

pub open spec fn text_kw() -> Seq<char> {
    seq!['t', 'e', 'x', 't']
}

pub open spec fn fn_tag_kw() -> Seq<char> {
    seq!['\\', 'f', 'n']
}

pub open spec fn opt_int(o: Option<usize>) -> Option<int> {
    match o {
        Option::Some(x) => Option::Some(x as int),
        Option::None => Option::None,
    }
}

/// The comma-separated fields of `s` from position `i` on; an empty string is
/// one empty field.
pub open spec fn split_commas_spec(s: Seq<char>, i: int) -> Seq<Seq<char>>
    decreases s.len() + 1 - i,
    via split_commas_spec_dec
{
    match find_char_spec(s, ',', i) {
        Option::Some(p) => seq![s.subrange(i, p)] + split_commas_spec(s, p + 1),
        Option::None => seq![s.subrange(i, s.len() as int)],
    }
}

#[via_fn]
proof fn split_commas_spec_dec(s: Seq<char>, i: int) {
    match find_char_spec(s, ',', i) {
        Option::Some(p) => {
            if i >= 0 {
                lemma_find_char_bounds(s, ',', i);
            }
        },
        Option::None => {},
    }
}

/// Split a line into its comma-separated fields.
#[verifier::loop_isolation(false)]
pub fn split_commas(s: &str) -> (r: Vec<String>)
    ensures
        r.deep_view() == split_commas_spec(s@, 0),
{
    let n = s.unicode_len();
    let mut out: Vec<String> = Vec::new();
    let mut i: usize = 0;
    loop
        invariant
            n == s@.len(),
            0 <= i <= n,
            split_commas_spec(s@, 0) == out.deep_view() + split_commas_spec(s@, i as int),
        decreases n - i,
    {
        let ghost before = out.deep_view();
        match find_char(s, ',', i) {
            Some(p) => {
                proof {
                    lemma_find_char_bounds(s@, ',', i as int);
                }
                out.push(s.substring_char(i, p).to_owned());
                proof {
                    assert(out.deep_view() =~= before.push(s@.subrange(i as int, p as int)));
                    assert(split_commas_spec(s@, i as int) == seq![
                        s@.subrange(i as int, p as int),
                    ] + split_commas_spec(s@, p + 1));
                    assert(out.deep_view() + split_commas_spec(s@, p + 1) =~= before
                        + split_commas_spec(s@, i as int));
                }
                i = p + 1;
            },
            None => {
                out.push(s.substring_char(i, n).to_owned());
                proof {
                    assert(out.deep_view() =~= before.push(
                        s@.subrange(i as int, s@.len() as int),
                    ));
                    assert(split_commas_spec(s@, i as int) == seq![
                        s@.subrange(i as int, s@.len() as int),
                    ]);
                    assert(out.deep_view() =~= before + split_commas_spec(s@, i as int));
                }
                return out;
            },
        }
    }
}

/// The position of `label` among `fields` from `i` on.
pub open spec fn position_of(fields: Seq<Seq<char>>, label: Seq<char>, i: int) -> Option<int>
    decreases fields.len() - i,
{
    if 0 <= i < fields.len() {
        if fields[i] == label {
            Option::Some(i)
        } else {
            position_of(fields, label, i + 1)
        }
    } else {
        Option::None
    }
}

/// Find the position of a column label among parsed format fields.
#[verifier::loop_isolation(false)]
fn find_position(fields: &Vec<String>, label: &Vec<char>) -> (r: Option<usize>)
    ensures
        opt_int(r) == position_of(fields.deep_view(), label@, 0),
{
    let n = fields.len();
    let mut i: usize = 0;
    while i < n
        invariant
            n == fields@.len(),
            0 <= i <= n,
            position_of(fields.deep_view(), label@, 0) == position_of(
                fields.deep_view(),
                label@,
                i as int,
            ),
        decreases n - i,
    {
        if eq_chars(fields[i].as_str(), label) {
            return Some(i);
        }
        i += 1;
    }
    None
}

/// The column labels a "Format:" line declares: its remainder is split on
/// commas and each field is trimmed and ASCII-lowercased.
pub open spec fn parse_format_spec(l: Seq<char>, start: int) -> Seq<Seq<char>> {
    split_commas_spec(trim_spaces_spec(l.subrange(start, l.len() as int)), 0).map_values(
        |f: Seq<char>| ascii_lower_spec(trim_spaces_spec(f)),
    )
}

/// Read the column labels of a "Format:" line, skipping the keyword prefix of
/// length `start`.
#[verifier::loop_isolation(false)]
pub fn parse_format(line: &str, start: usize) -> (r: Vec<String>)
    requires
        start <= line@.len(),
    ensures
        r.deep_view() == parse_format_spec(line@, start as int),
{
    let n = line.unicode_len();
    let content = trim_spaces(line.substring_char(start, n));
    let fields = split_commas(content.as_str());
    let mut out: Vec<String> = Vec::new();
    let m = fields.len();
    let mut k: usize = 0;
    while k < m
        invariant
            m == fields@.len(),
            0 <= k <= m,
            out.deep_view().len() == k,
            forall|j: int|
                0 <= j < k ==> out.deep_view()[j] == ascii_lower_spec(
                    trim_spaces_spec(fields.deep_view()[j]),
                ),
        decreases m - k,
    {
        let f = trim_spaces(fields[k].as_str());
        let lf = ascii_lower(f.as_str());
        let ghost before = out.deep_view();
        out.push(lf);
        proof {
            assert(fields.deep_view()[k as int] == fields@[k as int]@);
            assert(out.deep_view() =~= before.push(ascii_lower_spec(trim_spaces_spec(
                fields.deep_view()[k as int],
            ))));
        }
        k += 1;
    }
    proof {
        assert(out.deep_view() =~= parse_format_spec(line@, start as int));
    }
    out
}

/// The font name a "Style:" line carries: the field at the active column
/// (default 1), normalized.
pub open spec fn style_font_spec(l: Seq<char>, idx: Option<int>) -> Option<Seq<char>> {
    let content = trim_spaces_spec(l.subrange(6, l.len() as int));
    let parts = split_commas_spec(content, 0);
    let k = match idx {
        Option::Some(i) => i,
        Option::None => 1,
    };
    if 0 <= k < parts.len() {
        norm_spec(parts[k])
    } else {
        Option::None
    }
}

/// Read the font name of a "Style:" line, using the column the last Format
/// line chose.
pub fn parse_style_font(line: &str, idx: Option<usize>) -> (r: Option<String>)
    requires
        line@.len() >= 6,
    ensures
        r.deep_view() == style_font_spec(line@, opt_int(idx)),
{
    let n = line.unicode_len();
    let content = trim_spaces(line.substring_char(6, n));
    let parts = split_commas(content.as_str());
    let k: usize = match idx {
        Some(i) => i,
        None => 1,
    };
    if k < parts.len() {
        normalize_font_name(parts[k].as_str())
    } else {
        None
    }
}

/// What remains of `s` after skipping `k` comma-separated fields; fewer
/// commas than `k` leave nothing.
pub open spec fn after_commas(s: Seq<char>, k: int, i: int) -> Seq<char>
    decreases k,
{
    if k <= 0 {
        s.subrange(i, s.len() as int)
    } else {
        match find_char_spec(s, ',', i) {
            Option::Some(p) => after_commas(s, k - 1, p + 1),
            Option::None => Seq::empty(),
        }
    }
}

/// The text payload of an event line: everything after the comma that closes
/// the column before the text column, commas in the payload preserved.
pub open spec fn event_text_spec(l: Seq<char>, idx: Option<int>) -> Seq<char> {
    let content = trim_spaces_spec(l.subrange(9, l.len() as int));
    let k = match idx {
        Option::Some(i) => i,
        Option::None => 9,
    };
    after_commas(content, k, 0)
}

/// Extract the text payload of a "Dialogue:" or "Comment:" line.
#[verifier::loop_isolation(false)]
pub fn extract_event_text(line: &str, idx: Option<usize>) -> (r: Option<String>)
    requires
        line@.len() >= 9,
    ensures
        r matches Some(t) && t@ == event_text_spec(line@, opt_int(idx)),
{
    let n = line.unicode_len();
    let content = trim_spaces(line.substring_char(9, n));
    let cn = content.as_str().unicode_len();
    let k0: usize = match idx {
        Some(i) => i,
        None => 9,
    };
    let mut i: usize = 0;
    let mut k = k0;
    while k > 0
        invariant
            cn == content@.len(),
            0 <= i <= cn,
            0 <= k <= k0,
            after_commas(content@, k0 as int, 0) == after_commas(content@, k as int, i as int),
        decreases k,
    {
        match find_char(content.as_str(), ',', i) {
            Some(p) => {
                proof {
                    lemma_find_char_bounds(content@, ',', i as int);
                }
                i = p + 1;
                k -= 1;
            },
            None => {
                let empty = String::new();
                proof {
                    assert(after_commas(content@, k as int, i as int) =~= Seq::<char>::empty());
                }
                return Some(empty);
            },
        }
    }
    Some(content.as_str().substring_char(i, cn).to_owned())
}

/// First position at or after `i` where an override tag ends: a backslash or
/// a closing brace, else the end of the text.
pub open spec fn find_stop(t: Seq<char>, i: int) -> int
    decreases t.len() - i,
{
    if 0 <= i < t.len() {
        if t[i] == '\\' || t[i] == '}' {
            i
        } else {
            find_stop(t, i + 1)
        }
    } else {
        t.len() as int
    }
}

pub proof fn lemma_find_stop_bounds(t: Seq<char>, i: int)
    requires
        0 <= i <= t.len(),
    ensures
        i <= find_stop(t, i) <= t.len(),
    decreases t.len() - i,
{
    if 0 <= i < t.len() && !(t[i] == '\\' || t[i] == '}') {
        lemma_find_stop_bounds(t, i + 1);
    }
}

pub open spec fn opt_name(o: Option<Seq<char>>) -> Seq<Seq<char>> {
    match o {
        Option::Some(nm) => seq![nm],
        Option::None => Seq::empty(),
    }
}

/// The font names the inline override tags of a payload reference, in order,
/// duplicates kept. A parenthesized name runs to the closing parenthesis and
/// may hold commas; otherwise the name ends at the next backslash or closing
/// brace, or at the end of the text.
pub open spec fn fn_tags_spec(t: Seq<char>, from: int) -> Seq<Seq<char>>
    decreases t.len() + 1 - from,
    via fn_tags_spec_dec
{
    match find_sub_spec(t, fn_tag_kw(), from) {
        Option::None => Seq::empty(),
        Option::Some(pos) => {
            let idx = pos + 3;
            let w = skip_spaces(t, idx);
            if w < t.len() && t[w] == '(' {
                match find_char_spec(t, ')', w + 1) {
                    Option::Some(e) => opt_name(norm_spec(t.subrange(w + 1, e))) + fn_tags_spec(
                        t,
                        e + 1,
                    ),
                    Option::None => opt_name(norm_spec(t.subrange(w, find_stop(t, w))))
                        + fn_tags_spec(t, find_stop(t, w)),
                }
            } else {
                opt_name(norm_spec(t.subrange(w, find_stop(t, w)))) + fn_tags_spec(
                    t,
                    find_stop(t, w),
                )
            }
        },
    }
}

#[via_fn]
proof fn fn_tags_spec_dec(t: Seq<char>, from: int) {
    match find_sub_spec(t, fn_tag_kw(), from) {
        Option::None => {},
        Option::Some(pos) => {
            lemma_find_sub_bounds(t, fn_tag_kw(), from);
            let idx = pos + 3;
            lemma_skip_spaces_bounds(t, idx);
            let w = skip_spaces(t, idx);
            lemma_find_stop_bounds(t, w);
            if w < t.len() && t[w] == '(' {
                match find_char_spec(t, ')', w + 1) {
                    Option::Some(e) => {
                        lemma_find_char_bounds(t, ')', w + 1);
                    },
                    Option::None => {},
                }
            }
        },
    }
}

/// Scan a payload for inline `\fn` override tags and collect the names.
#[verifier::loop_isolation(false)]
pub fn parse_fn_tags(text: &str) -> (r: Vec<String>)
    ensures
        r.deep_view() == fn_tags_spec(text@, 0),
{
    let n = text.unicode_len();
    let tag: Vec<char> = vec!['\\', 'f', 'n'];
    proof {
        assert(tag@ =~= fn_tag_kw());
    }
    let mut out: Vec<String> = Vec::new();
    let mut from: usize = 0;
    loop
        invariant
            n == text@.len(),
            tag@ == fn_tag_kw(),
            0 <= from,
            fn_tags_spec(text@, 0) == out.deep_view() + fn_tags_spec(text@, from as int),
        decreases n + 1 - from,
    {
        let ghost before = out.deep_view();
        match find_sub_chars(text, &tag, from) {
            None => {
                proof {
                    assert(fn_tags_spec(text@, from as int) =~= Seq::<Seq<char>>::empty());
                    assert(out.deep_view() =~= fn_tags_spec(text@, 0));
                }
                return out;
            },
            Some(pos) => {
                proof {
                    lemma_find_sub_bounds(text@, fn_tag_kw(), from as int);
                }
                let idx = pos + 3;
                let mut w = idx;
                while w < n && is_space(text.get_char(w))
                    invariant
                        idx <= w <= n,
                        skip_spaces(text@, idx as int) == skip_spaces(text@, w as int),
                    decreases n - w,
                {
                    w += 1;
                }
                assert(skip_spaces(text@, idx as int) == w as int);
                let next_from: usize;
                if w < n && text.get_char(w) == '(' {
                    match find_char(text, ')', w + 1) {
                        Some(e) => {
                            proof {
                                lemma_find_char_bounds(text@, ')', w + 1);
                            }
                            match normalize_font_name(text.substring_char(w + 1, e)) {
                                Some(nm) => {
                                    out.push(nm);
                                },
                                None => {},
                            }
                            next_from = e + 1;
                        },
                        None => {
                            let mut e: usize = w;
                            while e < n && !(text.get_char(e) == '\\' || text.get_char(e) == '}')
                                invariant
                                    w <= e <= n,
                                    find_stop(text@, w as int) == find_stop(text@, e as int),
                                decreases n - e,
                            {
                                e += 1;
                            }
                            assert(find_stop(text@, w as int) == e as int);
                            match normalize_font_name(text.substring_char(w, e)) {
                                Some(nm) => {
                                    out.push(nm);
                                },
                                None => {},
                            }
                            next_from = e;
                        },
                    }
                } else {
                    let mut e: usize = w;
                    while e < n && !(text.get_char(e) == '\\' || text.get_char(e) == '}')
                        invariant
                            w <= e <= n,
                            find_stop(text@, w as int) == find_stop(text@, e as int),
                        decreases n - e,
                    {
                        e += 1;
                    }
                    assert(find_stop(text@, w as int) == e as int);
                    match normalize_font_name(text.substring_char(w, e)) {
                        Some(nm) => {
                            out.push(nm);
                        },
                        None => {},
                    }
                    next_from = e;
                }
                proof {
                    assert(out.deep_view() + fn_tags_spec(text@, next_from as int) =~= before
                        + fn_tags_spec(text@, from as int));
                }
                from = next_from;
            },
        }
    }
}

/// A line ending in a carriage return came from a CRLF ending; drop it.
pub open spec fn strip_cr(l: Seq<char>) -> Seq<char> {
    if l.len() > 0 && l[l.len() - 1] == '\r' {
        l.take(l.len() - 1)
    } else {
        l
    }
}

/// The lines of `s` from position `i` on, split at newlines, a CRLF ending
/// stripped, the final line ending optional.
pub open spec fn lines_of(s: Seq<char>, i: int) -> Seq<Seq<char>>
    decreases s.len() + 1 - i,
    via lines_of_dec
{
    if !(0 <= i < s.len()) {
        Seq::empty()
    } else {
        match find_char_spec(s, '\n', i) {
            Option::Some(p) => seq![strip_cr(s.subrange(i, p))] + lines_of(s, p + 1),
            Option::None => seq![s.subrange(i, s.len() as int)],
        }
    }
}

#[via_fn]
proof fn lines_of_dec(s: Seq<char>, i: int) {
    if 0 <= i < s.len() {
        match find_char_spec(s, '\n', i) {
            Option::Some(p) => {
                lemma_find_char_bounds(s, '\n', i);
            },
            Option::None => {},
        }
    }
}

/// Split text into lines as the subtitle parser sees them.
#[verifier::loop_isolation(false)]
pub fn split_lines(text: &str) -> (r: Vec<String>)
    ensures
        r.deep_view() == lines_of(text@, 0),
{
    let n = text.unicode_len();
    let mut out: Vec<String> = Vec::new();
    let mut i: usize = 0;
    loop
        invariant
            n == text@.len(),
            0 <= i <= n,
            lines_of(text@, 0) == out.deep_view() + lines_of(text@, i as int),
        decreases n + 1 - i,
    {
        if i >= n {
            proof {
                assert(lines_of(text@, i as int) =~= Seq::<Seq<char>>::empty());
                assert(out.deep_view() =~= lines_of(text@, 0));
            }
            return out;
        }
        let ghost before = out.deep_view();
        match find_char(text, '\n', i) {
            Some(p) => {
                proof {
                    lemma_find_char_bounds(text@, '\n', i as int);
                }
                let end = if p > i && text.get_char(p - 1) == '\r' {
                    p - 1
                } else {
                    p
                };
                out.push(text.substring_char(i, end).to_owned());
                proof {
                    assert(strip_cr(text@.subrange(i as int, p as int)) =~= text@.subrange(
                        i as int,
                        end as int,
                    ));
                    assert(out.deep_view() =~= before.push(
                        strip_cr(text@.subrange(i as int, p as int)),
                    ));
                    assert(out.deep_view() + lines_of(text@, p + 1) =~= before + lines_of(
                        text@,
                        i as int,
                    ));
                }
                i = p + 1;
            },
            None => {
                out.push(text.substring_char(i, n).to_owned());
                proof {
                    assert(out.deep_view() =~= before.push(
                        text@.subrange(i as int, text@.len() as int),
                    ));
                    assert(out.deep_view() =~= before + lines_of(text@, i as int));
                }
                return out;
            },
        }
    }
}

/// The running state of the subtitle scan: the current section name
/// (lowercased), the active style and event columns, and the names found.
pub ghost struct AssSt {
    pub section: Seq<char>,
    pub style_idx: Option<int>,
    pub event_idx: Option<int>,
    pub fonts: Seq<Seq<char>>,
}

pub open spec fn init_ass_st() -> AssSt {
    AssSt {
        section: Seq::empty(),
        style_idx: Option::None,
        event_idx: Option::None,
        fonts: Seq::empty(),
    }
}

/// One line of the scan: a bracketed header switches the section; inside a
/// styles section, Format lines choose the fontname column and Style lines
/// contribute that field; inside an events section, Format lines choose the
/// text column and Dialogue or Comment lines contribute their override tags.
pub open spec fn ass_line_step(st: AssSt, raw: Seq<char>) -> AssSt {
    let line = trim_spaces_spec(raw);
    if line.len() >= 2 && line[0] == '[' && line[line.len() - 1] == ']' {
        AssSt { section: ascii_lower_spec(line.subrange(1, line.len() - 1)), ..st }
    } else {
        let lower = ascii_lower_spec(line);
        if seq_contains(st.section, styles_kw()) {
            if is_prefix(format_kw(), lower) {
                AssSt {
                    style_idx: position_of(parse_format_spec(line, 7), fontname_kw(), 0),
                    ..st
                }
            } else if is_prefix(style_kw(), lower) {
                match style_font_spec(line, st.style_idx) {
                    Option::Some(f) => AssSt { fonts: insert_unique(st.fonts, f), ..st },
                    Option::None => st,
                }
            } else {
                st
            }
        } else if seq_contains(st.section, events_kw()) {
            if is_prefix(format_kw(), lower) {
                AssSt { event_idx: position_of(parse_format_spec(line, 7), text_kw(), 0), ..st }
            } else if is_prefix(dialogue_kw(), lower) || is_prefix(comment_kw(), lower) {
                if line.len() >= 9 {
                    AssSt {
                        fonts: merge_unique(
                            st.fonts,
                            fn_tags_spec(event_text_spec(line, st.event_idx), 0),
                            0,
                        ),
                        ..st
                    }
                } else {
                    st
                }
            } else {
                st
            }
        } else {
            st
        }
    }
}

pub open spec fn ass_fold(lines: Seq<Seq<char>>, st: AssSt, i: int) -> AssSt
    decreases lines.len() - i,
{
    if 0 <= i < lines.len() {
        ass_fold(lines, ass_line_step(st, lines[i]), i + 1)
    } else {
        st
    }
}

/// The set of font names a subtitle text references, in order of first
/// appearance.
pub open spec fn ass_fonts_spec(text: Seq<char>) -> Seq<Seq<char>> {
    ass_fold(lines_of(text, 0), init_ass_st(), 0).fonts
}

/// Extract every font name an ASS/SSA subtitle text references, from its
/// style table and its inline override tags, deduplicated in order of first
/// appearance.
#[verifier::loop_isolation(false)]
pub fn parse_ass_fonts(text: &str) -> (r: Vec<String>)
    ensures
        r.deep_view() == ass_fonts_spec(text@),
{
    let lines = split_lines(text);
    let kw_format: Vec<char> = vec!['f', 'o', 'r', 'm', 'a', 't', ':'];
    let kw_style: Vec<char> = vec!['s', 't', 'y', 'l', 'e', ':'];
    let kw_dialogue: Vec<char> = vec!['d', 'i', 'a', 'l', 'o', 'g', 'u', 'e', ':'];
    let kw_comment: Vec<char> = vec!['c', 'o', 'm', 'm', 'e', 'n', 't', ':'];
    let kw_styles: Vec<char> = vec!['s', 't', 'y', 'l', 'e', 's'];
    let kw_events: Vec<char> = vec!['e', 'v', 'e', 'n', 't', 's'];
    let kw_fontname: Vec<char> = vec!['f', 'o', 'n', 't', 'n', 'a', 'm', 'e'];
    let kw_text: Vec<char> = vec!['t', 'e', 'x', 't'];
    proof {
        assert(kw_format@ =~= format_kw());
        assert(kw_style@ =~= style_kw());
        assert(kw_dialogue@ =~= dialogue_kw());
        assert(kw_comment@ =~= comment_kw());
        assert(kw_styles@ =~= styles_kw());
        assert(kw_events@ =~= events_kw());
        assert(kw_fontname@ =~= fontname_kw());
        assert(kw_text@ =~= text_kw());
    }
    let mut section = String::new();
    let mut style_idx: Option<usize> = None;
    let mut event_idx: Option<usize> = None;
    let mut fonts: Vec<String> = Vec::new();
    proof {
        assert(fonts.deep_view() =~= Seq::<Seq<char>>::empty());
        assert(section@ =~= Seq::<char>::empty());
        assert(AssSt {
            section: section@,
            style_idx: opt_int(style_idx),
            event_idx: opt_int(event_idx),
            fonts: fonts.deep_view(),
        } == init_ass_st());
    }
    let nl = lines.len();
    let mut i: usize = 0;
    while i < nl
        invariant
            nl == lines@.len(),
            0 <= i <= nl,
            lines.deep_view() == lines_of(text@, 0),
            ass_fold(lines.deep_view(), init_ass_st(), 0) == ass_fold(
                lines.deep_view(),
                AssSt {
                    section: section@,
                    style_idx: opt_int(style_idx),
                    event_idx: opt_int(event_idx),
                    fonts: fonts.deep_view(),
                },
                i as int,
            ),
        decreases nl - i,
    {
        let ghost st0 = AssSt {
            section: section@,
            style_idx: opt_int(style_idx),
            event_idx: opt_int(event_idx),
            fonts: fonts.deep_view(),
        };
        let ghost raw = lines.deep_view()[i as int];
        proof {
            assert(raw == lines@[i as int]@);
        }
        let line = trim_spaces(lines[i].as_str());
        let ln = line.as_str().unicode_len();
        if ln >= 2 && line.as_str().get_char(0) == '[' && line.as_str().get_char(ln - 1) == ']' {
            section = ascii_lower(line.as_str().substring_char(1, ln - 1));
        } else {
            let lower = ascii_lower(line.as_str());
            proof {
                assert(lower@.len() == line@.len());
            }
            if contains_chars(section.as_str(), &kw_styles) {
                if starts_with_chars(lower.as_str(), &kw_format) {
                    let fields = parse_format(line.as_str(), 7);
                    style_idx = find_position(&fields, &kw_fontname);
                } else if starts_with_chars(lower.as_str(), &kw_style) {
                    match parse_style_font(line.as_str(), style_idx) {
                        Some(f) => {
                            push_unique(&mut fonts, f);
                        },
                        None => {},
                    }
                }
            } else if contains_chars(section.as_str(), &kw_events) {
                if starts_with_chars(lower.as_str(), &kw_format) {
                    let fields = parse_format(line.as_str(), 7);
                    event_idx = find_position(&fields, &kw_text);
                } else if starts_with_chars(lower.as_str(), &kw_dialogue) || starts_with_chars(
                    lower.as_str(),
                    &kw_comment,
                ) {
                    if ln >= 9 {
                        match extract_event_text(line.as_str(), event_idx) {
                            Some(t) => {
                                let tags = parse_fn_tags(t.as_str());
                                let ghost xs = fn_tags_spec(
                                    event_text_spec(line@, opt_int(event_idx)),
                                    0,
                                );
                                let ghost acc0 = fonts.deep_view();
                                let tn = tags.len();
                                let mut q: usize = 0;
                                while q < tn
                                    invariant
                                        tn == tags@.len(),
                                        tags.deep_view() == xs,
                                        0 <= q <= tn,
                                        merge_unique(acc0, xs, 0) == merge_unique(
                                            fonts.deep_view(),
                                            xs,
                                            q as int,
                                        ),
                                    decreases tn - q,
                                {
                                    let ghost beforeq = fonts.deep_view();
                                    let nm = tags[q].clone();
                                    proof {
                                        assert(nm@ == xs[q as int]);
                                    }
                                    push_unique(&mut fonts, nm);
                                    proof {
                                        assert(fonts.deep_view() == insert_unique(
                                            beforeq,
                                            xs[q as int],
                                        ));
                                    }
                                    q += 1;
                                }
                                proof {
                                    assert(merge_unique(fonts.deep_view(), xs, q as int)
                                        == fonts.deep_view());
                                }
                            },
                            None => {
                                proof {
                                    assert(false);
                                }
                            },
                        }
                    }
                }
            }
        }
        proof {
            let st1 = AssSt {
                section: section@,
                style_idx: opt_int(style_idx),
                event_idx: opt_int(event_idx),
                fonts: fonts.deep_view(),
            };
            assert(st1 == ass_line_step(st0, raw));
            assert(ass_fold(lines.deep_view(), st0, i as int) == ass_fold(
                lines.deep_view(),
                st1,
                i + 1,
            ));
        }
        i += 1;
    }
    proof {
        assert(fonts.deep_view() == ass_fonts_spec(text@));
    }
    fonts
}

} // verus!
