//! The guarantees this library states of itself, proved from the public
//! contracts: normalization idempotence, cache round-trip and invalidation,
//! case-insensitive lookup, at-most-once activation, and unload
//! completeness.

use vstd::prelude::*;
use crate::cache::{
    FontInput, build_fold, cache_hit, names_used_spec, mtime_or_zero, cview_lookup, cview_pos,
    cview_upsert, iview_lookup, iview_pos, iview_append, ins_names,
};
use crate::ext::lower_of;
use crate::fontbin::font_names_spec;
use crate::registry::{
    decide_spec, DecisionG, match_step, match_fold, MatchSt, outcome_at, unload_kept, unload_count,
};
use crate::text::{
    is_space_char, is_null_char, norm_spec, trim_spaces_spec, trim_nulls_spec, skip_spaces,
    rskip_spaces, skip_nulls, rskip_nulls,
};

verus! {

/// Normalizing an already-normalized name yields the same name: idempotence
/// holds for every produced name that does not itself begin with another
/// vertical-layout marker or begin or end with white space uncovered by the
/// null trim.
pub proof fn lemma_normalize_idempotent(s: Seq<char>, r: Seq<char>)
    requires
        norm_spec(s) == Option::Some(r),
        r[0] != '@',
        !is_space_char(r[0]),
        !is_null_char(r[0]),
        !is_space_char(r[r.len() - 1]),
        !is_null_char(r[r.len() - 1]),
    ensures
        norm_spec(r) == Option::Some(r),
{
    assert(r.len() > 0);
    assert(skip_spaces(r, 0) == 0);
    assert(rskip_spaces(r, r.len() as int) == r.len() as int);
    assert(trim_spaces_spec(r) =~= r);
    assert(skip_nulls(r, 0) == 0);
    assert(rskip_nulls(r, r.len() as int) == r.len() as int);
    assert(trim_nulls_spec(r) =~= r);
}

/// What a lookup sees after an upsert: the stored pair under the written
/// path, and exactly what it saw before under every other path.
pub proof fn lemma_cview_upsert_lookup(
    v: Seq<(Seq<char>, u64, Seq<Seq<char>>)>,
    path: Seq<char>,
    m: u64,
    names: Seq<Seq<char>>,
    q: Seq<char>,
)
    ensures
        cview_lookup(cview_upsert(v, path, m, names), q, 0) == (if q == path {
            Option::Some((m, names))
        } else {
            cview_lookup(v, q, 0)
        }),
{
    match cview_pos(v, path, 0) {
        Option::Some(k) => {
            lemma_cview_pos_bounds(v, path, 0);
            assert(0 <= k < v.len() && v[k].0 == path);
            assert(forall|j: int| 0 <= j < k ==> v[j].0 != path);
            lemma_cview_lookup_update(v, path, m, names, q, k, 0);
        },
        Option::None => {
            lemma_cview_pos_bounds(v, path, 0);
            lemma_cview_lookup_push(v, path, m, names, q, 0);
        },
    }
}

proof fn lemma_cview_pos_bounds(v: Seq<(Seq<char>, u64, Seq<Seq<char>>)>, path: Seq<char>, i: int)
    requires
        0 <= i <= v.len(),
    ensures
        match cview_pos(v, path, i) {
            Option::Some(k) => i <= k < v.len() && v[k].0 == path && (forall|j: int|
                i <= j < k ==> v[j].0 != path),
            Option::None => forall|j: int| i <= j < v.len() ==> v[j].0 != path,
        },
    decreases v.len() - i,
{
    if 0 <= i < v.len() && v[i].0 != path {
        lemma_cview_pos_bounds(v, path, i + 1);
    }
}

proof fn lemma_cview_lookup_update(
    v: Seq<(Seq<char>, u64, Seq<Seq<char>>)>,
    path: Seq<char>,
    m: u64,
    names: Seq<Seq<char>>,
    q: Seq<char>,
    k: int,
    i: int,
)
    requires
        0 <= i <= v.len(),
        0 <= k < v.len(),
        v[k].0 == path,
        forall|j: int| 0 <= j < k ==> v[j].0 != path,
    ensures
        cview_lookup(v.update(k, (path, m, names)), q, i) == (if q == path && i <= k {
            Option::Some((m, names))
        } else {
            cview_lookup(v, q, i)
        }),
    decreases v.len() - i,
{
    let v2 = v.update(k, (path, m, names));
    if 0 <= i < v.len() {
        if i == k {
            if q != path {
                lemma_cview_lookup_update(v, path, m, names, q, k, i + 1);
            }
        } else {
            lemma_cview_lookup_update(v, path, m, names, q, k, i + 1);
        }
    }
}

proof fn lemma_cview_lookup_push(
    v: Seq<(Seq<char>, u64, Seq<Seq<char>>)>,
    path: Seq<char>,
    m: u64,
    names: Seq<Seq<char>>,
    q: Seq<char>,
    i: int,
)
    requires
        0 <= i <= v.len(),
        forall|j: int| 0 <= j < v.len() ==> v[j].0 != path,
    ensures
        cview_lookup(v.push((path, m, names)), q, i) == (if q == path {
            Option::Some((m, names))
        } else {
            cview_lookup(v, q, i)
        }),
    decreases v.len() - i,
{
    let v2 = v.push((path, m, names));
    if 0 <= i < v.len() {
        lemma_cview_lookup_push(v, path, m, names, q, i + 1);
    } else {
        assert(v2[v.len() as int] == (path, m, names));
        assert(cview_lookup(v2, q, v.len() as int + 1) is None);
        assert(cview_lookup(v, q, i) is None);
    }
}

/// A cache is consistent with a batch when every entry it would serve for a
/// file of the batch holds exactly what parsing that file's current bytes
/// yields.
pub open spec fn cache_consistent(
    cv: Seq<(Seq<char>, u64, Seq<Seq<char>>)>,
    files: Seq<FontInput>,
    i: int,
) -> bool {
    forall|j: int|
        i <= j < files.len() ==> (cache_hit(files[j], cv) ==> names_used_spec(files[j], cv, true)
            == font_names_spec(files[j].2))
}

pub open spec fn distinct_paths(files: Seq<FontInput>) -> bool {
    forall|i: int, j: int| 0 <= i < j < files.len() ==> files[i].0 != files[j].0
}

/// Cache round-trip: against a consistent cache (an empty one trivially is,
/// and any entry whose file is unchanged since it was written is), the index
/// built with the cache enabled equals the index built with it disabled.
pub proof fn lemma_cache_round_trip(
    files: Seq<FontInput>,
    ix: Seq<(Seq<char>, Seq<Seq<char>>)>,
    cv: Seq<(Seq<char>, u64, Seq<Seq<char>>)>,
    cv2: Seq<(Seq<char>, u64, Seq<Seq<char>>)>,
    i: int,
)
    requires
        0 <= i <= files.len(),
        distinct_paths(files),
        cache_consistent(cv, files, i),
    ensures
        build_fold(files, true, ix, cv, i).0 == build_fold(files, false, ix, cv2, i).0,
    decreases files.len() - i,
{
    if 0 <= i < files.len() {
        let f = files[i];
        let used_t = names_used_spec(f, cv, true);
        let used_f = names_used_spec(f, cv2, false);
        assert(used_f == font_names_spec(f.2));
        if cache_hit(f, cv) {
            assert(used_t == font_names_spec(f.2));
            lemma_cache_round_trip(files, ins_names(ix, used_t, f.0, 0), cv, cv2, i + 1);
        } else {
            let cvn = cview_upsert(cv, f.0, mtime_or_zero(f), used_t);
            assert forall|j: int|
                i + 1 <= j < files.len() && cache_hit(files[j], cvn) implies names_used_spec(
                files[j],
                cvn,
                true,
            ) == font_names_spec(files[j].2) by {
                lemma_cview_upsert_lookup(cv, f.0, mtime_or_zero(f), used_t, files[j].0);
                if files[j].0 == f.0 {
                    assert(false);
                } else {
                    assert(cache_hit(files[j], cv));
                }
            }
            lemma_cache_round_trip(files, ins_names(ix, used_t, f.0, 0), cvn, cv2, i + 1);
        }
    }
}

/// Cache invalidation: a file whose modification time no longer matches its
/// entry (or that has no entry) is parsed afresh, and the cache afterwards
/// holds its current time and freshly parsed names.
pub proof fn lemma_cache_invalidation(
    files: Seq<FontInput>,
    ix: Seq<(Seq<char>, Seq<Seq<char>>)>,
    cv: Seq<(Seq<char>, u64, Seq<Seq<char>>)>,
    i: int,
)
    requires
        0 <= i < files.len(),
        !cache_hit(files[i], cv),
    ensures
        names_used_spec(files[i], cv, true) == font_names_spec(files[i].2),
        cview_lookup(
            cview_upsert(
                cv,
                files[i].0,
                mtime_or_zero(files[i]),
                names_used_spec(files[i], cv, true),
            ),
            files[i].0,
            0,
        ) == Option::Some((mtime_or_zero(files[i]), font_names_spec(files[i].2))),
{
    lemma_cview_upsert_lookup(
        cv,
        files[i].0,
        mtime_or_zero(files[i]),
        names_used_spec(files[i], cv, true),
        files[i].0,
    );
}

proof fn lemma_iview_pos_bounds(v: Seq<(Seq<char>, Seq<Seq<char>>)>, key: Seq<char>, i: int)
    requires
        0 <= i <= v.len(),
    ensures
        match iview_pos(v, key, i) {
            Option::Some(k) => i <= k < v.len() && v[k].0 == key && (forall|j: int|
                i <= j < k ==> v[j].0 != key) && iview_lookup(v, key, i) == Option::Some(v[k].1),
            Option::None => (forall|j: int| i <= j < v.len() ==> v[j].0 != key) && iview_lookup(
                v,
                key,
                i,
            ) is None,
        },
    decreases v.len() - i,
{
    if 0 <= i < v.len() && v[i].0 != key {
        lemma_iview_pos_bounds(v, key, i + 1);
    }
}

proof fn lemma_iview_lookup_update(
    v: Seq<(Seq<char>, Seq<Seq<char>>)>,
    key: Seq<char>,
    entry: (Seq<char>, Seq<Seq<char>>),
    q: Seq<char>,
    k: int,
    i: int,
)
    requires
        0 <= i <= v.len(),
        0 <= k < v.len(),
        v[k].0 == key,
        entry.0 == key,
        forall|j: int| 0 <= j < k ==> v[j].0 != key,
    ensures
        iview_lookup(v.update(k, entry), q, i) == (if q == key && i <= k {
            Option::Some(entry.1)
        } else {
            iview_lookup(v, q, i)
        }),
    decreases v.len() - i,
{
    if 0 <= i < v.len() {
        if i == k {
            if q != key {
                lemma_iview_lookup_update(v, key, entry, q, k, i + 1);
            }
        } else {
            lemma_iview_lookup_update(v, key, entry, q, k, i + 1);
        }
    }
}

proof fn lemma_iview_lookup_push(
    v: Seq<(Seq<char>, Seq<Seq<char>>)>,
    entry: (Seq<char>, Seq<Seq<char>>),
    q: Seq<char>,
    i: int,
)
    requires
        0 <= i <= v.len(),
        forall|j: int| 0 <= j < v.len() ==> v[j].0 != entry.0,
    ensures
        iview_lookup(v.push(entry), q, i) == (if q == entry.0 {
            Option::Some(entry.1)
        } else {
            iview_lookup(v, q, i)
        }),
    decreases v.len() - i,
{
    let v2 = v.push(entry);
    if 0 <= i < v.len() {
        lemma_iview_lookup_push(v, entry, q, i + 1);
    } else {
        assert(v2[v.len() as int] == entry);
        assert(iview_lookup(v2, q, v.len() as int + 1) is None);
        assert(iview_lookup(v, q, i) is None);
    }
}

/// What a lookup sees after one candidate is appended: the grown (or fresh)
/// list under the written key, and exactly what it saw before elsewhere.
pub proof fn lemma_iview_append_lookup(
    v: Seq<(Seq<char>, Seq<Seq<char>>)>,
    key: Seq<char>,
    path: Seq<char>,
    q: Seq<char>,
)
    ensures
        iview_lookup(iview_append(v, key, path), q, 0) == (if q == key {
            match iview_lookup(v, key, 0) {
                Option::Some(fs) => Option::Some(fs.push(path)),
                Option::None => Option::Some(seq![path]),
            }
        } else {
            iview_lookup(v, q, 0)
        }),
{
    lemma_iview_pos_bounds(v, key, 0);
    match iview_pos(v, key, 0) {
        Option::Some(k) => {
            lemma_iview_lookup_update(v, key, (key, v[k].1.push(path)), q, k, 0);
        },
        Option::None => {
            lemma_iview_lookup_push(v, (key, seq![path]), q, 0);
        },
    }
}

/// Index lookup is case-insensitive: once a file's declared names are
/// inserted, any query whose lowercased form equals a declared name's
/// lowercased form resolves to a candidate list carrying that file.
pub proof fn lemma_index_case_insensitive(
    ix: Seq<(Seq<char>, Seq<Seq<char>>)>,
    names: Seq<Seq<char>>,
    path: Seq<char>,
    j: int,
    m: int,
    q: Seq<char>,
)
    requires
        0 <= j <= m < names.len(),
        lower_of(q) == lower_of(names[m]),
    ensures
        ({
            let after = ins_names(ix, names, path, j);
            &&& iview_lookup(after, lower_of(q), 0) is Some
            &&& iview_lookup(after, lower_of(q), 0)->Some_0.contains(path)
        }),
    decreases names.len() - j,
{
    let key = lower_of(names[j]);
    let ix2 = iview_append(ix, key, path);
    if j == m {
        lemma_iview_append_lookup(ix, key, path, lower_of(q));
        match iview_lookup(ix, key, 0) {
            Option::Some(fs) => {
                assert(iview_lookup(ix2, key, 0) == Option::Some(fs.push(path)));
                assert(fs.push(path)[fs.len() as int] == path);
            },
            Option::None => {
                assert(iview_lookup(ix2, key, 0) == Option::Some(seq![path]));
                assert(seq![path][0] == path);
            },
        }
        lemma_ins_names_preserves(ix2, names, path, j + 1, lower_of(q));
    } else {
        lemma_index_case_insensitive(ix2, names, path, j + 1, m, q);
    }
}

/// Inserting more names never removes a path already listed under a key.
proof fn lemma_ins_names_preserves(
    ix: Seq<(Seq<char>, Seq<Seq<char>>)>,
    names: Seq<Seq<char>>,
    path: Seq<char>,
    j: int,
    key: Seq<char>,
)
    requires
        iview_lookup(ix, key, 0) is Some,
        iview_lookup(ix, key, 0)->Some_0.contains(path),
    ensures
        ({
            let after = ins_names(ix, names, path, j);
            &&& iview_lookup(after, key, 0) is Some
            &&& iview_lookup(after, key, 0)->Some_0.contains(path)
        }),
    decreases names.len() - j,
{
    if 0 <= j < names.len() {
        let k2 = lower_of(names[j]);
        let ix2 = iview_append(ix, k2, path);
        lemma_iview_append_lookup(ix, k2, path, key);
        if key == k2 {
            let fs = iview_lookup(ix, key, 0)->Some_0;
            let w = choose|w: int| 0 <= w < fs.len() && fs[w] == path;
            assert(fs.push(path)[w] == path);
        }
        lemma_ins_names_preserves(ix2, names, path, j + 1, key);
    }
}

/// At-most-once activation, first half: an activation is only ever attempted
/// for a path that is not in the registry.
pub proof fn lemma_no_reactivation(
    name: Seq<char>,
    ix: Seq<(Seq<char>, Seq<Seq<char>>)>,
    loadedv: Seq<Seq<char>>,
)
    ensures
        match decide_spec(name, ix, loadedv) {
            DecisionG::Activate(p) => !loadedv.contains(p),
            _ => true,
        },
{
}

/// At-most-once activation, second half: once a required name's candidate
/// was loaded, deciding the same name again yields a duplicate, within one
/// batch or in any later operation over the grown registry.
pub proof fn lemma_second_time_duplicate(
    st: MatchSt,
    name: Seq<char>,
    ix: Seq<(Seq<char>, Seq<Seq<char>>)>,
    outs: Seq<bool>,
)
    requires
        decide_spec(name, ix, st.loadedv) is Activate,
        outcome_at(outs, st.attempts),
    ensures
        ({
            let st2 = match_step(st, name, ix, outs);
            decide_spec(name, ix, st2.loadedv) == DecisionG::Duplicate(
                decide_spec(name, ix, st.loadedv)->Activate_0,
            )
        }),
{
    let p = decide_spec(name, ix, st.loadedv)->Activate_0;
    let st2 = match_step(st, name, ix, outs);
    assert(st2.loadedv == st.loadedv.push(p));
    assert(st2.loadedv[st.loadedv.len() as int] == p);
    assert(st2.loadedv.contains(p));
}

/// The registry never grows without a successful activation: with no
/// successful outcome on offer, a whole match run leaves it unchanged.
pub proof fn lemma_no_success_no_growth(
    names: Seq<Seq<char>>,
    ix: Seq<(Seq<char>, Seq<Seq<char>>)>,
    outs: Seq<bool>,
    st: MatchSt,
    i: int,
)
    requires
        forall|k: int| st.attempts <= k ==> !outcome_at(outs, k),
        st.attempts >= 0,
    ensures
        match_fold(names, ix, outs, st, i).loadedv == st.loadedv,
    decreases names.len() - i,
{
    if 0 <= i < names.len() {
        let st2 = match_step(st, names[i], ix, outs);
        assert(st2.loadedv == st.loadedv);
        assert(st2.attempts >= st.attempts);
        lemma_no_success_no_growth(names, ix, outs, st2, i + 1);
    }
}

/// Unload completeness: when every deactivation succeeds, the registry ends
/// empty and the count equals the number of previously registered paths,
/// each having received exactly one attempt.
pub proof fn lemma_unload_complete(loadedv: Seq<Seq<char>>, outs: Seq<bool>, i: int)
    requires
        0 <= i <= loadedv.len(),
        forall|k: int| 0 <= k < loadedv.len() ==> outcome_at(outs, k),
    ensures
        unload_kept(loadedv, outs, i) == Seq::<Seq<char>>::empty(),
        unload_count(loadedv, outs, i) == loadedv.len() - i,
    decreases loadedv.len() - i,
{
    if 0 <= i < loadedv.len() {
        lemma_unload_complete(loadedv, outs, i + 1);
        assert(unload_kept(loadedv, outs, i) =~= Seq::<Seq<char>>::empty());
    }
}


/// The registry only ever grows by appending, and it grows by exactly the
/// number of successful activations: nothing enters it another way.
pub proof fn lemma_registry_growth(
    names: Seq<Seq<char>>,
    ix: Seq<(Seq<char>, Seq<Seq<char>>)>,
    outs: Seq<bool>,
    st: MatchSt,
    i: int,
)
    ensures
        ({
            let fin = match_fold(names, ix, outs, st, i);
            &&& fin.loadedv.len() >= st.loadedv.len()
            &&& fin.loadedv.subrange(0, st.loadedv.len() as int) == st.loadedv
            &&& fin.loadedv.len() - st.loadedv.len() == fin.nloaded - st.nloaded
        }),
    decreases names.len() - i,
{
    if 0 <= i < names.len() {
        let st2 = match_step(st, names[i], ix, outs);
        lemma_registry_growth(names, ix, outs, st2, i + 1);
        let fin = match_fold(names, ix, outs, st, i);
        assert(st2.loadedv.len() >= st.loadedv.len());
        assert(st2.loadedv.subrange(0, st.loadedv.len() as int) =~= st.loadedv);
        assert(fin.loadedv.subrange(0, st.loadedv.len() as int) =~= st.loadedv);
    } else {
        assert(match_fold(names, ix, outs, st, i).loadedv.subrange(
            0,
            st.loadedv.len() as int,
        ) =~= st.loadedv);
    }
}


/// An empty cache is trivially consistent with any batch.
pub proof fn lemma_empty_cache_consistent(files: Seq<FontInput>, i: int)
    ensures
        cache_consistent(Seq::<(Seq<char>, u64, Seq<Seq<char>>)>::empty(), files, i),
{
}

/// A cache-enabled build leaves the cache consistent with the batch: every
/// entry it wrote holds the parse of the file's current bytes, and entries
/// it kept were consistent already. With the round-trip law this makes any
/// later build over unchanged files agree with a fresh one.
pub proof fn lemma_build_preserves_consistency(
    files: Seq<FontInput>,
    ix: Seq<(Seq<char>, Seq<Seq<char>>)>,
    cv: Seq<(Seq<char>, u64, Seq<Seq<char>>)>,
    i: int,
)
    requires
        0 <= i <= files.len(),
        distinct_paths(files),
        cache_consistent(cv, files, 0),
    ensures
        cache_consistent(build_fold(files, true, ix, cv, i).1, files, 0),
    decreases files.len() - i,
{
    if 0 <= i < files.len() {
        let f = files[i];
        let used = names_used_spec(f, cv, true);
        if cache_hit(f, cv) {
            lemma_build_preserves_consistency(files, ins_names(ix, used, f.0, 0), cv, i + 1);
        } else {
            let cvn = cview_upsert(cv, f.0, mtime_or_zero(f), used);
            assert forall|j: int|
                0 <= j < files.len() && cache_hit(files[j], cvn) implies names_used_spec(
                files[j],
                cvn,
                true,
            ) == font_names_spec(files[j].2) by {
                lemma_cview_upsert_lookup(cv, f.0, mtime_or_zero(f), used, files[j].0);
                if files[j].0 == f.0 {
                    // the rewritten entry holds the fresh parse of this file
                    assert(j == i);
                } else {
                    assert(cache_hit(files[j], cv));
                }
            }
            lemma_build_preserves_consistency(files, ins_names(ix, used, f.0, 0), cvn, i + 1);
        }
    }
}

} // verus!
