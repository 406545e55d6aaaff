//! Flattening a walked directory tree into the file list a batch operates
//! on. The walk itself reads the disk outside this crate and hands its
//! findings in as a value: a file, a directory's entries in the order the
//! walk saw them, or nothing for an input that could not be read.

use vstd::prelude::*;

verus! {

/// What one input path resolved to.
pub enum FsEntry {
    File(String),
    Dir(Vec<FsEntry>),
    Missing,
}

/// The files one entry contributes, depth first, in walk order.
pub open spec fn flatten_entry(e: FsEntry) -> Seq<Seq<char>>
    decreases e,
{
    match e {
        FsEntry::File(p) => seq![p@],
        FsEntry::Dir(es) => flatten_list(es@, 0),
        FsEntry::Missing => Seq::empty(),
    }
}

/// The files the entries from `i` on contribute.
pub open spec fn flatten_list(es: Seq<FsEntry>, i: int) -> Seq<Seq<char>>
    decreases es, es.len() - i,
{
    if 0 <= i < es.len() {
        flatten_entry(es[i]) + flatten_list(es, i + 1)
    } else {
        Seq::empty()
    }
}

#[verifier::loop_isolation(false)]
fn collect_entry(e: &FsEntry, out: &mut Vec<String>)
    ensures
        final(out).deep_view() == old(out).deep_view() + flatten_entry(*e),
    decreases *e,
{
    match e {
        FsEntry::File(p) => {
            let ghost before = out.deep_view();
            out.push(p.clone());
            proof {
                assert(out.deep_view() =~= before + flatten_entry(*e));
            }
        },
        FsEntry::Dir(es) => {
            let n = es.len();
            let ghost before = out.deep_view();
            let mut i: usize = 0;
            while i < n
                invariant
                    n == es@.len(),
                    0 <= i <= n,
                    out.deep_view() + flatten_list(es@, i as int) == before + flatten_list(
                        es@,
                        0,
                    ),
                decreases n - i,
            {
                let ghost mid = out.deep_view();
                proof {
                    assert(*e is Dir);
                    assert(e->Dir_0 == *es);
                    assert(decreases_to!(*e => e->Dir_0));
                    assert(decreases_to!(*es => es@));
                    vstd::seq::axiom_seq_index_decreases(es@, i as int);
                    assert(decreases_to!(es@ => es@[i as int]));
                    assert(decreases_to!(*e => es@[i as int]));
                }
                collect_entry(&es[i], out);
                proof {
                    assert(out.deep_view() + flatten_list(es@, i + 1) =~= mid + flatten_list(
                        es@,
                        i as int,
                    ));
                }
                i += 1;
            }
            proof {
                assert(flatten_list(es@, i as int) =~= Seq::<Seq<char>>::empty());
                assert(out.deep_view() =~= out.deep_view() + flatten_list(es@, i as int));
            }
        },
        FsEntry::Missing => {
            proof {
                assert(out.deep_view() =~= out.deep_view() + flatten_entry(*e));
            }
        },
    }
}

/// Flatten the resolved inputs into one file list, files in the order the
/// walk discovered them.
#[verifier::loop_isolation(false)]
pub fn collect_files(roots: &Vec<FsEntry>) -> (r: Vec<String>)

    ensures
        r.deep_view() == flatten_list(roots@, 0),
{
    let mut out: Vec<String> = Vec::new();
    let n = roots.len();
    let mut i: usize = 0;
    proof {
        assert(out.deep_view() =~= Seq::<Seq<char>>::empty());
    }
    while i < n
        invariant
            n == roots@.len(),
            0 <= i <= n,
            out.deep_view() + flatten_list(roots@, i as int) == flatten_list(roots@, 0),
        decreases n - i,
    {
        let ghost mid = out.deep_view();
        collect_entry(&roots[i], &mut out);
        proof {
            assert(out.deep_view() + flatten_list(roots@, i + 1) =~= mid + flatten_list(
                roots@,
                i as int,
            ));
        }
        i += 1;
    }
    proof {
        assert(flatten_list(roots@, i as int) =~= Seq::<Seq<char>>::empty());
        assert(out.deep_view() =~= out.deep_view() + flatten_list(roots@, i as int));
    }
    out
}

} // verus!
