//! Verified UTF-16 handling: decoding byte buffers (with replacement of
//! unpaired surrogates, never failing) and encoding strings to wide form.

use vstd::prelude::*;
use vstd::string::*;

verus! {

pub open spec fn is_high_surrogate(u: u16) -> bool {
    0xD800 <= u <= 0xDBFF
}

pub open spec fn is_low_surrogate(u: u16) -> bool {
    0xDC00 <= u <= 0xDFFF
}

pub open spec fn combine_surrogates(h: u16, l: u16) -> u32 {
    (0x10000 + (h - 0xD800) * 0x400 + (l - 0xDC00)) as u32
}

pub open spec fn replacement_char() -> char {
    '\u{FFFD}'
}

/// The 16-bit units of a byte buffer read pairwise, little or big endian;
/// a trailing odd byte contributes nothing.
pub open spec fn units_spec(d: Seq<u8>, little_endian: bool) -> Seq<u16> {
    Seq::new(
        (d.len() / 2) as nat,
        |i: int|
            if little_endian {
                (d[2 * i] + d[2 * i + 1] * 256) as u16
            } else {
                (d[2 * i] * 256 + d[2 * i + 1]) as u16
            },
    )
}

/// Lossy UTF-16 decoding from position `i` on: surrogate pairs combine, and
/// an unpaired surrogate becomes the replacement character.
pub open spec fn utf16_decode_spec(u: Seq<u16>, i: int) -> Seq<char>
    decreases u.len() - i,
{
    if 0 <= i < u.len() {
        let c0 = u[i];
        if is_high_surrogate(c0) && i + 1 < u.len() && is_low_surrogate(u[i + 1]) {
            seq![(combine_surrogates(c0, u[i + 1]) as char)] + utf16_decode_spec(u, i + 2)
        } else if is_high_surrogate(c0) || is_low_surrogate(c0) {
            seq![replacement_char()] + utf16_decode_spec(u, i + 1)
        } else {
            seq![((c0 as u32) as char)] + utf16_decode_spec(u, i + 1)
        }
    } else {
        Seq::empty()
    }
}

fn read_unit(data: &Vec<u8>, i: usize, little_endian: bool) -> (u: u16)
    requires
        2 * i + 1 < data@.len(),
    ensures
        u == units_spec(data@, little_endian)[i as int],
{
    let n = data.len();
    let lo_index = 2 * i;
    let a = data[lo_index];
    let b = data[lo_index + 1];
    if little_endian {
        (a as u16) + (b as u16) * 256
    } else {
        (a as u16) * 256 + (b as u16)
    }
}

/// Decode the units of `data` as UTF-16, replacing unpaired surrogates.
#[verifier::loop_isolation(false)]
fn decode_units(data: &Vec<u8>, little_endian: bool) -> (r: String)
    ensures
        r@ == utf16_decode_spec(units_spec(data@, little_endian), 0),
{
    broadcast use vstd::utf8::char_u32_cast;

    let ghost u = units_spec(data@, little_endian);
    let n_units = data.len() / 2;
    let mut out = String::new();
    let mut i: usize = 0;
    while i < n_units
        invariant
            n_units == u.len(),
            u == units_spec(data@, little_endian),
            0 <= i,
            utf16_decode_spec(u, 0) == out@ + utf16_decode_spec(u, i as int),
        decreases n_units - i,
    {
        let ghost out0 = out@;
        let c0 = read_unit(data, i, little_endian);
        if 0xD800 <= c0 && c0 <= 0xDBFF && i + 1 < n_units {
            let c1 = read_unit(data, i + 1, little_endian);
            if 0xDC00 <= c1 && c1 <= 0xDFFF {
                let v: u32 = 0x10000 + ((c0 - 0xD800) as u32) * 0x400 + ((c1 - 0xDC00) as u32);
                let c = match crate::ext::char_from_u32(v) {
                    Some(c) => c,
                    None => {
                        proof {
                            assert(vstd::utf8::is_scalar(v));
                        }
                        // unreachable: the combined value is always a scalar
                        '\u{FFFD}'
                    },
                };
                crate::ext::push_char(&mut out, c);
                proof {
                    vstd::utf8::char_u32_cast(c, v);
                    assert(out@ == out0.push(c));
                    assert(utf16_decode_spec(u, i as int) == seq![(combine_surrogates(
                        c0,
                        c1,
                    ) as char)] + utf16_decode_spec(u, i + 2));
                    assert(out@ + utf16_decode_spec(u, i + 2) =~= out0 + utf16_decode_spec(
                        u,
                        i as int,
                    ));
                }
                i += 2;
                continue ;
            }
        }
        if (0xD800 <= c0 && c0 <= 0xDBFF) || (0xDC00 <= c0 && c0 <= 0xDFFF) {
            crate::ext::push_char(&mut out, '\u{FFFD}');
            proof {
                assert(out@ == out0.push('\u{FFFD}'));
                assert(utf16_decode_spec(u, i as int) == seq![replacement_char()]
                    + utf16_decode_spec(u, i + 1));
                assert(out@ + utf16_decode_spec(u, i + 1) =~= out0 + utf16_decode_spec(
                    u,
                    i as int,
                ));
            }
        } else {
            let c = match crate::ext::char_from_u32(c0 as u32) {
                Some(c) => c,
                None => {
                    proof {
                        assert(vstd::utf8::is_scalar(c0 as u32));
                    }
                    // unreachable: a non-surrogate 16-bit unit is a scalar
                    '\u{FFFD}'
                },
            };
            crate::ext::push_char(&mut out, c);
            proof {
                vstd::utf8::char_u32_cast(c, c0 as u32);
                assert(out@ == out0.push(c));
                assert(utf16_decode_spec(u, i as int) == seq![((c0 as u32) as char)]
                    + utf16_decode_spec(u, i + 1));
                assert(out@ + utf16_decode_spec(u, i + 1) =~= out0 + utf16_decode_spec(
                    u,
                    i as int,
                ));
            }
        }
        i += 1;
    }
    proof {
        assert(utf16_decode_spec(u, i as int) =~= Seq::<char>::empty());
        assert(out@ =~= utf16_decode_spec(u, 0));
    }
    out
}

/// What decoding a whole UTF-16 byte payload yields: nothing for an odd
/// length, otherwise the lossy decoding of its units.
pub open spec fn decode_utf16_spec(d: Seq<u8>, little_endian: bool) -> Option<Seq<char>> {
    if d.len() % 2 != 0 {
        Option::None
    } else {
        Option::Some(utf16_decode_spec(units_spec(d, little_endian), 0))
    }
}

/// Decode a UTF-16 payload in the given endianness; an odd byte count is
/// rejected, unpaired surrogates are replaced.
pub fn decode_utf16(data: &Vec<u8>, little_endian: bool) -> (r: Option<String>)
    ensures
        r.deep_view() == decode_utf16_spec(data@, little_endian),
{
    if data.len() % 2 != 0 {
        return None;
    }
    Some(decode_units(data, little_endian))
}

/// Decode a big-endian UTF-16 payload, ignoring a trailing odd byte.
pub fn decode_utf16be(data: &Vec<u8>) -> (r: String)
    ensures
        r@ == utf16_decode_spec(units_spec(data@, false), 0),
{
    decode_units(data, false)
}

/// UTF-16 encoding of one character.
pub open spec fn utf16_encode_char(c: char) -> Seq<u16> {
    let v = c as u32;
    if v < 0x10000 {
        seq![v as u16]
    } else {
        seq![
            (0xD800 + ((v - 0x10000) as int) / 0x400) as u16,
            (0xDC00 + ((v - 0x10000) as int) % 0x400) as u16,
        ]
    }
}

pub open spec fn utf16_encode_spec(s: Seq<char>, i: int) -> Seq<u16>
    decreases s.len() - i,
{
    if 0 <= i < s.len() {
        utf16_encode_char(s[i]) + utf16_encode_spec(s, i + 1)
    } else {
        Seq::empty()
    }
}

/// Encode a string as null-terminated UTF-16 units (wide-string form).
#[verifier::loop_isolation(false)]
pub fn to_wide(value: &str) -> (r: Vec<u16>)
    ensures
        r@ == utf16_encode_spec(value@, 0).push(0u16),
{
    broadcast use vstd::utf8::char_is_scalar;

    let n = value.unicode_len();
    let mut out: Vec<u16> = Vec::new();
    let mut i: usize = 0;
    while i < n
        invariant
            n == value@.len(),
            0 <= i <= n,
            utf16_encode_spec(value@, 0) == out@ + utf16_encode_spec(value@, i as int),
        decreases n - i,
    {
        let ghost out0 = out@;
        let c = value.get_char(i);
        let v = c as u32;
        if v < 0x10000 {
            out.push(v as u16);
        } else {
            let lead: u32 = 0xD800 + (v - 0x10000) / 0x400;
            let trail: u32 = 0xDC00 + (v - 0x10000) % 0x400;
            out.push(lead as u16);
            out.push(trail as u16);
        }
        proof {
            assert(utf16_encode_spec(value@, i as int) == utf16_encode_char(value@[i as int])
                + utf16_encode_spec(value@, i + 1));
            assert(out@ =~= out0 + utf16_encode_char(value@[i as int]));
            assert(out@ + utf16_encode_spec(value@, i + 1) =~= utf16_encode_spec(value@, 0));
        }
        i += 1;
    }
    proof {
        assert(utf16_encode_spec(value@, i as int) =~= Seq::<u16>::empty());
    }
    out.push(0);
    proof {
        assert(out@ =~= utf16_encode_spec(value@, 0).push(0u16));
    }
    out
}


/// What decoding a text payload yields: a UTF-16 byte-order mark selects
/// UTF-16 of that endianness, a UTF-8 mark is skipped, anything else is read
/// as UTF-8; an invalid payload yields nothing.
pub open spec fn text_decode_spec(d: Seq<u8>) -> Option<Seq<char>> {
    if d.len() >= 2 && d[0] == 0xFFu8 && d[1] == 0xFEu8 {
        decode_utf16_spec(d.skip(2), true)
    } else if d.len() >= 2 && d[0] == 0xFEu8 && d[1] == 0xFFu8 {
        decode_utf16_spec(d.skip(2), false)
    } else if d.len() >= 3 && d[0] == 0xEFu8 && d[1] == 0xBBu8 && d[2] == 0xBFu8 {
        if vstd::utf8::valid_utf8(d.skip(3)) {
            Option::Some(vstd::utf8::decode_utf8(d.skip(3)))
        } else {
            Option::None
        }
    } else {
        if vstd::utf8::valid_utf8(d) {
            Option::Some(vstd::utf8::decode_utf8(d))
        } else {
            Option::None
        }
    }
}

#[verifier::loop_isolation(false)]
fn tail_bytes(data: &Vec<u8>, start: usize) -> (r: Vec<u8>)
    requires
        start <= data@.len(),
    ensures
        r@ == data@.skip(start as int),
{
    let n = data.len();
    let mut out: Vec<u8> = Vec::new();
    let mut i: usize = start;
    while i < n
        invariant
            n == data@.len(),
            start <= i <= n,
            out@ == data@.subrange(start as int, i as int),
        decreases n - i,
    {
        out.push(data[i]);
        proof {
            assert(out@ =~= data@.subrange(start as int, i + 1));
        }
        i += 1;
    }
    proof {
        assert(out@ =~= data@.skip(start as int));
    }
    out
}

/// Decode the raw bytes of a subtitle file into text, honoring a byte-order
/// mark; an undecodable payload yields nothing.
pub fn decode_text(data: &Vec<u8>) -> (r: Option<String>)
    ensures
        r.deep_view() == text_decode_spec(data@),
{
    if data.len() >= 2 && data[0] == 0xFF && data[1] == 0xFE {
        let rest = tail_bytes(data, 2);
        return decode_utf16(&rest, true);
    }
    if data.len() >= 2 && data[0] == 0xFE && data[1] == 0xFF {
        let rest = tail_bytes(data, 2);
        return decode_utf16(&rest, false);
    }
    if data.len() >= 3 && data[0] == 0xEF && data[1] == 0xBB && data[2] == 0xBF {
        let rest = tail_bytes(data, 3);
        return crate::ext::utf8_to_string(&rest);
    }
    crate::ext::utf8_to_string(data)
}

} // verus!
