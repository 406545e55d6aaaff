//! Verified parsing of font binaries: big-endian field reads, collection
//! headers, table directories and the name table. Every out-of-range offset
//! degrades to "no data here"; nothing panics.

use vstd::prelude::*;
use crate::text::{norm_spec, insert_unique, merge_unique, push_unique};
use crate::utf16::{units_spec, utf16_decode_spec};

verus! {

/// Big-endian 16-bit value at `i`, meaningful when two bytes are available.
pub open spec fn be16_at(d: Seq<u8>, i: int) -> u16
    recommends
        0 <= i,
        i + 2 <= d.len(),
{
    (d[i] * 256 + d[i + 1]) as u16
}

/// Big-endian 32-bit value at `i`, meaningful when four bytes are available.
pub open spec fn be32_at(d: Seq<u8>, i: int) -> u32
    recommends
        0 <= i,
        i + 4 <= d.len(),
{
    (((d[i] * 256 + d[i + 1]) * 256 + d[i + 2]) * 256 + d[i + 3]) as u32
}

pub open spec fn be16_spec(d: Seq<u8>, i: int) -> Option<u16> {
    if 0 <= i && i + 2 <= d.len() {
        Option::Some(be16_at(d, i))
    } else {
        Option::None
    }
}

pub open spec fn be32_spec(d: Seq<u8>, i: int) -> Option<u32> {
    if 0 <= i && i + 4 <= d.len() {
        Option::Some(be32_at(d, i))
    } else {
        Option::None
    }
}

/// Read a big-endian 16-bit field, `None` when the buffer is too short.
pub fn read_u16_be(data: &Vec<u8>, offset: usize) -> (r: Option<u16>)
    ensures
        r == be16_spec(data@, offset as int),
{
    if data.len() >= 2 && offset <= data.len() - 2 {
        Some((data[offset] as u16) * 256 + (data[offset + 1] as u16))
    } else {
        None
    }
}

/// Read a big-endian 32-bit field, `None` when the buffer is too short.
pub fn read_u32_be(data: &Vec<u8>, offset: usize) -> (r: Option<u32>)
    ensures
        r == be32_spec(data@, offset as int),
{
    if data.len() >= 4 && offset <= data.len() - 4 {
        Some(
            (((data[offset] as u32) * 256 + (data[offset + 1] as u32)) * 256 + (data[offset
                + 2] as u32)) * 256 + (data[offset + 3] as u32),
        )
    } else {
        None
    }
}

/// In-bounds big-endian reads for verified internal use.
fn u16_at(data: &Vec<u8>, offset: usize) -> (r: u16)
    requires
        offset + 2 <= data@.len(),
    ensures
        r == be16_at(data@, offset as int),
{
    let n = data.len();
    (data[offset] as u16) * 256 + (data[offset + 1] as u16)
}

fn u32_at(data: &Vec<u8>, offset: usize) -> (r: u32)
    requires
        offset + 4 <= data@.len(),
    ensures
        r == be32_at(data@, offset as int),
{
    let n = data.len();
    (((data[offset] as u32) * 256 + (data[offset + 1] as u32)) * 256 + (data[offset
        + 2] as u32)) * 256 + (data[offset + 3] as u32)
}

#[verifier::loop_isolation(false)]
fn copy_range(data: &Vec<u8>, start: usize, end: usize) -> (r: Vec<u8>)
    requires
        start <= end <= data@.len(),
    ensures
        r@ == data@.subrange(start as int, end as int),
{
    let mut out: Vec<u8> = Vec::new();
    let mut i: usize = start;
    while i < end
        invariant
            start <= i <= end <= data@.len(),
            out@ == data@.subrange(start as int, i as int),
        decreases end - i,
    {
        out.push(data[i]);
        proof {
            assert(out@ =~= data@.subrange(start as int, i + 1));
        }
        i += 1;
    }
    out
}

/// The collection signature "ttcf".
pub open spec fn is_ttc(d: Seq<u8>) -> bool {
    d.len() >= 4 && d[0] == 0x74u8 && d[1] == 0x74u8 && d[2] == 0x63u8 && d[3] == 0x66u8
}

/// The sub-font offsets a collection header declares: the count sits at a
/// fixed position, then that many 32-bit offsets, cut short where the buffer
/// ends.
pub open spec fn ttc_offsets_spec(d: Seq<u8>) -> Seq<u32> {
    if d.len() < 12 {
        Seq::empty()
    } else {
        let n = be32_at(d, 8) as int;
        let avail = (d.len() - 12) / 4;
        let m = if n <= avail {
            n
        } else {
            avail as int
        };
        Seq::new(m as nat, |k: int| be32_at(d, 12 + 4 * k))
    }
}

/// Read the sub-font offsets of a font collection.
#[verifier::loop_isolation(false)]
pub fn parse_ttc_offsets(data: &Vec<u8>) -> (r: Vec<usize>)
    ensures
        r@ == ttc_offsets_spec(data@).map_values(|x: u32| x as usize),
{
    let mut out: Vec<usize> = Vec::new();
    if data.len() < 12 {
        proof {
            assert(out@ =~= ttc_offsets_spec(data@).map_values(|x: u32| x as usize));
        }
        return out;
    }
    let nf = u32_at(data, 8) as usize;
    let avail = (data.len() - 12) / 4;
    let m = if nf <= avail {
        nf
    } else {
        avail
    };
    let mut k: usize = 0;
    while k < m
        invariant
            data@.len() >= 12,
            m <= (data@.len() - 12) / 4,
            0 <= k <= m,
            out@.len() == k,
            forall|j: int|
                0 <= j < k ==> out@[j] == (be32_at(data@, 12 + 4 * j) as usize),
        decreases m - k,
    {
        let pos = 12 + 4 * k;
        out.push(u32_at(data, pos) as usize);
        k += 1;
    }
    proof {
        assert(out@ =~= ttc_offsets_spec(data@).map_values(|x: u32| x as usize));
    }
    out
}

/// Does the table-directory record at index `i` carry the tag "name"?
pub open spec fn is_name_tag(d: Seq<u8>, rec: int) -> bool {
    d[rec] == 0x6Eu8 && d[rec + 1] == 0x61u8 && d[rec + 2] == 0x6Du8 && d[rec + 3] == 0x65u8
}

/// Scan the table directory of the font at `off` from record `i` on for the
/// name table; a truncated record ends the scan.
pub open spec fn find_name_table(d: Seq<u8>, off: int, n: int, i: int) -> Option<(u32, u32)>
    decreases n - i,
{
    if i >= n {
        Option::None
    } else {
        let rec = off + 12 + 16 * i;
        if rec + 16 > d.len() {
            Option::None
        } else if is_name_tag(d, rec) {
            Option::Some((be32_at(d, rec + 8), be32_at(d, rec + 12)))
        } else {
            find_name_table(d, off, n, i + 1)
        }
    }
}

/// The normalized name the record at index `j` of the name table contributes,
/// if any: an in-bounds record for the Windows platform whose name ID is
/// family or full name, whose string decodes (big-endian UTF-16) and
/// normalizes to a nonempty name.
pub open spec fn name_rec_value(d: Seq<u8>, table_pos: int, storage: int, j: int) -> Option<
    Seq<char>,
> {
    let rec = table_pos + 6 + 12 * j;
    if rec + 12 > d.len() {
        Option::None
    } else {
        let platform = be16_at(d, rec);
        let name_id = be16_at(d, rec + 6);
        let len = be16_at(d, rec + 8) as int;
        let off_str = be16_at(d, rec + 10) as int;
        if platform == 3 && (name_id == 1 || name_id == 4) {
            let start = table_pos + storage + off_str;
            let end = start + len;
            if end <= d.len() && len != 0 {
                norm_spec(utf16_decode_spec(units_spec(d.subrange(start, end), false), 0))
            } else {
                Option::None
            }
        } else {
            Option::None
        }
    }
}

/// Fold the name records `j..count` into `acc`.
pub open spec fn collect_names(
    d: Seq<u8>,
    table_pos: int,
    storage: int,
    count: int,
    j: int,
    acc: Seq<Seq<char>>,
) -> Seq<Seq<char>>
    decreases count - j,
{
    if j >= count {
        acc
    } else {
        let acc2 = match name_rec_value(d, table_pos, storage, j) {
            Option::Some(x) => insert_unique(acc, x),
            Option::None => acc,
        };
        collect_names(d, table_pos, storage, count, j + 1, acc2)
    }
}

/// Once a record is truncated, every later record is truncated too, so the
/// fold no longer changes.
proof fn lemma_collect_names_stops(
    d: Seq<u8>,
    table_pos: int,
    storage: int,
    count: int,
    j: int,
    acc: Seq<Seq<char>>,
)
    requires
        0 <= j,
        0 <= table_pos,
        0 <= storage,
        table_pos + 6 + 12 * j + 12 > d.len(),
    ensures
        collect_names(d, table_pos, storage, count, j, acc) == acc,
    decreases count - j,
{
    if j < count {
        assert(name_rec_value(d, table_pos, storage, j) is None);
        lemma_collect_names_stops(d, table_pos, storage, count, j + 1, acc);
    }
}

/// The set of names the font whose directory starts at `off` declares.
pub open spec fn otf_names_spec(d: Seq<u8>, off: int) -> Seq<Seq<char>> {
    if !(0 <= off && off + 12 <= d.len()) {
        Seq::empty()
    } else {
        let n = be16_at(d, off + 4) as int;
        match find_name_table(d, off, n, 0) {
            Option::None => Seq::empty(),
            Option::Some((toff, tlen)) => {
                let table_pos = off + toff;
                if d.len() < table_pos + tlen || d.len() < table_pos + 6 {
                    Seq::empty()
                } else {
                    let count = be16_at(d, table_pos + 2) as int;
                    let storage = be16_at(d, table_pos + 4) as int;
                    collect_names(d, table_pos, storage, count, 0, Seq::empty())
                }
            },
        }
    }
}

/// Extract the declared names of the font starting at `offset`: scan its
/// table directory for the name table and fold its records, first seen first,
/// duplicates dropped.
#[verifier::loop_isolation(false)]
pub fn parse_otf_names_at(data: &Vec<u8>, offset: usize) -> (r: Vec<String>)
    ensures
        r.deep_view() == otf_names_spec(data@, offset as int),
{
    let mut out: Vec<String> = Vec::new();
    let len64 = data.len() as u64;
    let off64 = offset as u64;
    if off64 > len64 || len64 - off64 < 12 {
        proof {
            assert(out.deep_view() =~= otf_names_spec(data@, offset as int));
        }
        return out;
    }
    let num_tables = u16_at(data, offset + 4) as usize;
    // Only records that fit inside the buffer can be scanned; the first
    // truncated record ends the directory in the model too.
    let avail_tables64 = (len64 - off64 - 12) / 16;
    let n_eff: usize = if (num_tables as u64) <= avail_tables64 {
        num_tables
    } else {
        avail_tables64 as usize
    };
    let mut name_table: Option<(u32, u32)> = None;
    let mut i: usize = 0;
    while i < n_eff && name_table.is_none()
        invariant
            len64 == data@.len(),
            off64 == offset,
            off64 + 12 <= len64,
            num_tables == be16_at(data@, offset + 4) as int,
            n_eff <= num_tables,
            16 * n_eff <= len64 - off64 - 12,
            0 <= i <= n_eff,
            match name_table {
                Option::Some(p) => find_name_table(
                    data@,
                    offset as int,
                    num_tables as int,
                    0,
                ) == Option::Some(p),
                Option::None => find_name_table(data@, offset as int, num_tables as int, 0)
                    == find_name_table(data@, offset as int, num_tables as int, i as int),
            },
        decreases n_eff - i,
    {
        let rec64 = off64 + 12 + 16 * (i as u64);
        let rec = rec64 as usize;
        if data[rec] == 110 && data[rec + 1] == 97 && data[rec + 2] == 109 && data[rec + 3]
            == 101 {
            proof {
                assert(is_name_tag(data@, rec as int));
            }
            name_table = Some((u32_at(data, rec + 8), u32_at(data, rec + 12)));
            i += 1;
        } else {
            proof {
                assert(!is_name_tag(data@, rec as int));
            }
            i += 1;
        }
    }
    proof {
        if name_table is None {
            if n_eff < num_tables {
                // the record at n_eff is truncated
                assert(off64 + 12 + 16 * (i as int) + 16 > len64);
                assert(find_name_table(data@, offset as int, num_tables as int, i as int)
                    is None);
            } else {
                assert(find_name_table(data@, offset as int, num_tables as int, i as int)
                    is None);
            }
        }
    }
    let (toff, tlen) = match name_table {
        Some(p) => p,
        None => {
            proof {
                assert(otf_names_spec(data@, offset as int) =~= Seq::<Seq<char>>::empty());
            }
            return out;
        },
    };
    proof {
        assert(find_name_table(data@, offset as int, num_tables as int, 0) == Option::Some(
            (toff, tlen),
        ));
    }
    if toff as u64 > len64 - off64 {
        proof {
            assert(otf_names_spec(data@, offset as int) =~= Seq::<Seq<char>>::empty());
        }
        return out;
    }
    let table_pos64 = off64 + toff as u64;
    if len64 - table_pos64 < tlen as u64 || len64 - table_pos64 < 6 {
        proof {
            assert(otf_names_spec(data@, offset as int) =~= Seq::<Seq<char>>::empty());
        }
        return out;
    }
    let table_pos = table_pos64 as usize;
    proof {
        assert(data@.len() <= usize::MAX);
        assert(table_pos + 6 <= data@.len());
    }
    let count = u16_at(data, table_pos + 2) as usize;
    let storage = u16_at(data, table_pos + 4) as usize;
    proof {
        assert(out.deep_view() =~= Seq::<Seq<char>>::empty());
    }
    let avail_recs64 = (len64 - table_pos64 - 6) / 12;
    let count_eff: usize = if (count as u64) <= avail_recs64 {
        count
    } else {
        avail_recs64 as usize
    };
    let mut j: usize = 0;
    while j < count_eff
        invariant
            len64 == data@.len(),
            off64 == offset,
            table_pos64 == table_pos,
            table_pos64 == off64 + toff,
            table_pos64 + 6 <= len64,
            count == be16_at(data@, table_pos + 2) as int,
            storage == be16_at(data@, table_pos + 4) as int,
            count_eff <= count,
            12 * count_eff <= len64 - table_pos64 - 6,
            0 <= j <= count_eff,
            collect_names(data@, table_pos as int, storage as int, count as int, 0, Seq::empty())
                == collect_names(
                data@,
                table_pos as int,
                storage as int,
                count as int,
                j as int,
                out.deep_view(),
            ),
        decreases count_eff - j,
    {
        let rec64 = table_pos64 + 6 + 12 * (j as u64);
        let rec = rec64 as usize;
        let platform = u16_at(data, rec);
        let name_id = u16_at(data, rec + 6);
        let slen = u16_at(data, rec + 8) as usize;
        let off_str = u16_at(data, rec + 10) as usize;
        let ghost prev = out.deep_view();
        if platform == 3 && (name_id == 1 || name_id == 4) {
            if (storage as u64) + (off_str as u64) + (slen as u64) <= len64 - table_pos64 && slen
                != 0 {
                let start64 = table_pos64 + storage as u64 + off_str as u64;
                let end64 = start64 + slen as u64;
                let start = start64 as usize;
                let end = end64 as usize;
                let raw = copy_range(data, start, end);
                let decoded = crate::utf16::decode_utf16be(&raw);
                match crate::text::normalize_font_name(decoded.as_str()) {
                    Some(name) => {
                        proof {
                            assert(name_rec_value(
                                data@,
                                table_pos as int,
                                storage as int,
                                j as int,
                            ) == Option::Some(name@));
                        }
                        push_unique(&mut out, name);
                        proof {
                            assert(out.deep_view() == insert_unique(prev, name@));
                        }
                    },
                    None => {
                        proof {
                            assert(name_rec_value(
                                data@,
                                table_pos as int,
                                storage as int,
                                j as int,
                            ) is None);
                        }
                    },
                }
            } else {
                proof {
                    assert(name_rec_value(data@, table_pos as int, storage as int, j as int)
                        is None);
                }
            }
        } else {
            proof {
                assert(name_rec_value(data@, table_pos as int, storage as int, j as int)
                    is None);
            }
        }
        j += 1;
    }
    proof {
        if count_eff < count {
            // the record at count_eff is truncated
            assert(table_pos as int + 6 + 12 * (j as int) + 12 > data@.len());
            lemma_collect_names_stops(
                data@,
                table_pos as int,
                storage as int,
                count as int,
                j as int,
                out.deep_view(),
            );
        }
        assert(collect_names(
            data@,
            table_pos as int,
            storage as int,
            count as int,
            j as int,
            out.deep_view(),
        ) == out.deep_view());
        assert(out.deep_view() == otf_names_spec(data@, offset as int));
    }
    out
}

/// The names of the sub-fonts of a collection from offset index `k` on.
pub open spec fn ttc_names_fold(d: Seq<u8>, offs: Seq<u32>, k: int, acc: Seq<Seq<char>>) -> Seq<
    Seq<char>,
>
    decreases offs.len() - k,
{
    if 0 <= k < offs.len() {
        ttc_names_fold(d, offs, k + 1, merge_unique(acc, otf_names_spec(d, offs[k] as int), 0))
    } else {
        acc
    }
}

/// The set of names a font binary declares: the names of every sub-font of a
/// collection, or of the single font at the start of the buffer.
pub open spec fn font_names_spec(d: Seq<u8>) -> Seq<Seq<char>> {
    if d.len() < 4 {
        Seq::empty()
    } else if is_ttc(d) {
        ttc_names_fold(d, ttc_offsets_spec(d), 0, Seq::empty())
    } else {
        otf_names_spec(d, 0)
    }
}

/// Extract the deduplicated declared names of a font binary, single font or
/// collection.
#[verifier::loop_isolation(false)]
pub fn parse_font_names_from_bytes(data: &Vec<u8>) -> (r: Vec<String>)
    ensures
        r.deep_view() == font_names_spec(data@),
{
    let mut out: Vec<String> = Vec::new();
    if data.len() < 4 {
        proof {
            assert(out.deep_view() =~= font_names_spec(data@));
        }
        return out;
    }
    if data[0] == 0x74 && data[1] == 0x74 && data[2] == 0x63 && data[3] == 0x66 {
        let offsets = parse_ttc_offsets(data);
        let ghost offs = ttc_offsets_spec(data@);
        proof {
            assert(out.deep_view() =~= Seq::<Seq<char>>::empty());
        }
        let mut k: usize = 0;
        while k < offsets.len()
            invariant
                offsets@ == offs.map_values(|x: u32| x as usize),
                offs == ttc_offsets_spec(data@),
                0 <= k <= offs.len(),
                ttc_names_fold(data@, offs, 0, Seq::empty()) == ttc_names_fold(
                    data@,
                    offs,
                    k as int,
                    out.deep_view(),
                ),
        decreases offsets@.len() - k,
        {
            let names_k = parse_otf_names_at(data, offsets[k]);
            let ghost xs = otf_names_spec(data@, offs[k as int] as int);
            let mut q: usize = 0;
            let ghost acc0 = out.deep_view();
            while q < names_k.len()
                invariant
                    names_k.deep_view() == xs,
                    0 <= q <= xs.len(),
                    merge_unique(acc0, xs, 0) == merge_unique(out.deep_view(), xs, q as int),
                decreases names_k@.len() - q,
            {
                let ghost before = out.deep_view();
                let name = names_k[q].clone();
                assert(name@ == xs[q as int]);
                push_unique(&mut out, name);
                proof {
                    assert(out.deep_view() == insert_unique(before, xs[q as int]));
                }
                q += 1;
            }
            proof {
                assert(merge_unique(out.deep_view(), xs, q as int) == out.deep_view());
                assert(ttc_names_fold(data@, offs, k + 1, out.deep_view()) == ttc_names_fold(
                    data@,
                    offs,
                    k as int,
                    acc0,
                ));
            }
            k += 1;
        }
        proof {
            assert(ttc_names_fold(data@, offs, k as int, out.deep_view()) == out.deep_view());
            assert(out.deep_view() == font_names_spec(data@));
        }
        out
    } else {
        proof {
            assert(!is_ttc(data@));
        }
        parse_otf_names_at(data, 0)
    }
}

} // verus!
