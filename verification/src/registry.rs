//! The loaded-font registry and the orchestrated operations over it:
//! reconciling required names against the index, unloading every registered
//! font, and force-cleaning a directory's font files.
//!
//! Activating or deactivating a font is platform work; its outcomes enter
//! these functions as plain values, one per attempt in order, a missing
//! entry counting as a failed call. A caller driving the real platform uses
//! `decide_required_name` and `commit_activation` one name at a time.

use vstd::prelude::*;
use vstd::string::*;
use crate::cache::{
    CacheFile, FontIndex, FontFileData, FontInput, build_fold, fdatas_view, iview_lookup,
    build_font_index, clone_names,
};
use crate::classify::{is_sub_spec, is_ass_spec, is_font_spec, is_sub_file, is_ass_file,
    is_font_file};
use crate::ext::{lower_of, to_lowercase};
use crate::subtitle::{ass_fonts_spec, parse_ass_fonts};
use crate::text::{merge_unique, push_unique, eq_str};
use crate::utf16::{text_decode_spec, decode_text};

verus! {

/// The process-local registry: the paths this process believes it has
/// activated.
pub struct AppState {
    pub loaded: Vec<String>,
}

impl AppState {
    pub fn new() -> (r: AppState)
        ensures
            r.loaded.deep_view() == Seq::<Seq<char>>::empty(),
    {
        let r = AppState { loaded: Vec::new() };
        proof {
            assert(r.loaded.deep_view() =~= Seq::<Seq<char>>::empty());
        }
        r
    }

    /// Is `path` registered?
    #[verifier::loop_isolation(false)]
    pub fn contains(&self, path: &str) -> (r: bool)
        ensures
            r == self.loaded.deep_view().contains(path@),
    {
        let n = self.loaded.len();
        let mut i: usize = 0;
        while i < n
            invariant
                n == self.loaded@.len(),
                0 <= i <= n,
                forall|j: int| 0 <= j < i ==> self.loaded.deep_view()[j] != path@,
            decreases n - i,
        {
            if eq_str(self.loaded[i].as_str(), path) {
                proof {
                    assert(self.loaded.deep_view()[i as int] == path@);
                }
                return true;
            }
            i += 1;
        }
        false
    }
}

/// What the orchestrator does for one required name.
pub enum NameDecision {
    Missing,
    Duplicate(String),
    Activate(String),
}

pub ghost enum DecisionG {
    Missing,
    Duplicate(Seq<char>),
    Activate(Seq<char>),
}

/// The decision for a required name: no candidate in the index is missing; a
/// first candidate already registered is a duplicate; otherwise that
/// candidate is to be activated.
pub open spec fn decide_spec(
    name: Seq<char>,
    ix: Seq<(Seq<char>, Seq<Seq<char>>)>,
    loadedv: Seq<Seq<char>>,
) -> DecisionG {
    match iview_lookup(ix, lower_of(name), 0) {
        Option::None => DecisionG::Missing,
        Option::Some(files) => {
            if files.len() == 0 {
                DecisionG::Missing
            } else if loadedv.contains(files[0]) {
                DecisionG::Duplicate(files[0])
            } else {
                DecisionG::Activate(files[0])
            }
        },
    }
}

/// Decide one required name against the index and the registry; makes no
/// call and changes nothing.
pub fn decide_required_name(name: &str, index: &FontIndex, state: &AppState) -> (r: NameDecision)
    ensures
        match r {
            NameDecision::Missing => decide_spec(name@, index.view_spec(), state.loaded.deep_view())
                == DecisionG::Missing,
            NameDecision::Duplicate(p) => decide_spec(
                name@,
                index.view_spec(),
                state.loaded.deep_view(),
            ) == DecisionG::Duplicate(p@),
            NameDecision::Activate(p) => decide_spec(
                name@,
                index.view_spec(),
                state.loaded.deep_view(),
            ) == DecisionG::Activate(p@),
        },
{
    let key = to_lowercase(name);
    match index.get(key.as_str()) {
        None => NameDecision::Missing,
        Some(files) => {
            if files.len() == 0 {
                NameDecision::Missing
            } else {
                let p = files[0].clone();
                proof {
                    assert(p@ == files.deep_view()[0]);
                }
                if state.contains(p.as_str()) {
                    NameDecision::Duplicate(p)
                } else {
                    NameDecision::Activate(p)
                }
            }
        },
    }
}

/// Record the outcome of one activation call: the path joins the registry
/// exactly when the call succeeded and it was not already there.
pub fn commit_activation(state: &mut AppState, path: &str, ok: bool)
    ensures
        final(state).loaded.deep_view() == (if ok && !old(state).loaded.deep_view().contains(path@) {
            old(state).loaded.deep_view().push(path@)
        } else {
            old(state).loaded.deep_view()
        }),
{
    if ok && !state.contains(path) {
        let ghost before = state.loaded.deep_view();
        state.loaded.push(path.to_owned());
        proof {
            assert(state.loaded.deep_view() =~= before.push(path@));
        }
    }
}

pub open spec fn outcome_at(outs: Seq<bool>, k: int) -> bool {
    0 <= k < outs.len() && outs[k]
}

pub open spec fn ok_line(name: Seq<char>, path: Seq<char>) -> Seq<char> {
    "[ok] "@ + name + " > "@ + path
}

pub open spec fn dup_line(name: Seq<char>, path: Seq<char>) -> Seq<char> {
    "[^] "@ + name + " > "@ + path
}

pub open spec fn fail_line(name: Seq<char>, path: Seq<char>) -> Seq<char> {
    "[X] "@ + name + " > "@ + path
}

pub open spec fn missing_line(name: Seq<char>) -> Seq<char> {
    "[??] "@ + name
}

pub open spec fn skip_line(path: Seq<char>) -> Seq<char> {
    "[i] skipped unsupported subtitle: "@ + path
}

fn make_pair_line(prefix: &str, name: &str, path: &str) -> (r: String)
    ensures
        r@ == prefix@ + name@ + " > "@ + path@,
{
    let mut s = String::from_str(prefix);
    s.append(name);
    s.append(" > ");
    s.append(path);
    s
}

/// The running state of the match loop.
pub ghost struct MatchSt {
    pub loadedv: Seq<Seq<char>>,
    pub attempts: int,
    pub nloaded: int,
    pub nfailed: int,
    pub nmissing: int,
    pub ndup: int,
    pub logs: Seq<Seq<char>>,
}

pub open spec fn init_match(loadedv: Seq<Seq<char>>) -> MatchSt {
    MatchSt {
        loadedv,
        attempts: 0,
        nloaded: 0,
        nfailed: 0,
        nmissing: 0,
        ndup: 0,
        logs: Seq::empty(),
    }
}

/// One required name: a missing or duplicate name only logs and counts; a
/// candidate to activate consumes the next outcome and, on success, joins
/// the registry.
pub open spec fn match_step(
    st: MatchSt,
    name: Seq<char>,
    ix: Seq<(Seq<char>, Seq<Seq<char>>)>,
    outs: Seq<bool>,
) -> MatchSt {
    match decide_spec(name, ix, st.loadedv) {
        DecisionG::Missing => MatchSt {
            nmissing: st.nmissing + 1,
            logs: st.logs.push(missing_line(name)),
            ..st
        },
        DecisionG::Duplicate(p) => MatchSt {
            ndup: st.ndup + 1,
            logs: st.logs.push(dup_line(name, p)),
            ..st
        },
        DecisionG::Activate(p) => {
            if outcome_at(outs, st.attempts) {
                MatchSt {
                    loadedv: st.loadedv.push(p),
                    attempts: st.attempts + 1,
                    nloaded: st.nloaded + 1,
                    logs: st.logs.push(ok_line(name, p)),
                    ..st
                }
            } else {
                MatchSt {
                    attempts: st.attempts + 1,
                    nfailed: st.nfailed + 1,
                    logs: st.logs.push(fail_line(name, p)),
                    ..st
                }
            }
        },
    }
}

pub open spec fn match_fold(
    names: Seq<Seq<char>>,
    ix: Seq<(Seq<char>, Seq<Seq<char>>)>,
    outs: Seq<bool>,
    st: MatchSt,
    i: int,
) -> MatchSt
    decreases names.len() - i,
{
    if 0 <= i < names.len() {
        match_fold(names, ix, outs, match_step(st, names[i], ix, outs), i + 1)
    } else {
        st
    }
}

/// The counters and log of one match run.
pub struct MatchOutcome {
    pub loaded: usize,
    pub failed: usize,
    pub missing: usize,
    pub duplicates: usize,
    pub attempts: usize,
    pub logs: Vec<String>,
}

/// Reconcile the required names against the index, registering each
/// successful activation, in order; `outcomes` replays what the platform
/// answered, one entry per attempt.
#[verifier::loop_isolation(false)]
pub fn apply_required_fonts(
    required: &Vec<String>,
    index: &FontIndex,
    state: &mut AppState,
    outcomes: &Vec<bool>,
) -> (r: MatchOutcome)
    ensures
        ({
            let fin = match_fold(
                required.deep_view(),
                index.view_spec(),
                outcomes@,
                init_match(old(state).loaded.deep_view()),
                0,
            );
            final(state).loaded.deep_view() == fin.loadedv && r.loaded == fin.nloaded && r.failed
                == fin.nfailed && r.missing == fin.nmissing && r.duplicates == fin.ndup
                && r.attempts == fin.attempts && r.logs.deep_view() == fin.logs
        }),
{
    let ghost ix = index.view_spec();
    let ghost outs = outcomes@;
    let n = required.len();
    let mut loaded: usize = 0;
    let mut failed: usize = 0;
    let mut missing: usize = 0;
    let mut duplicates: usize = 0;
    let mut attempts: usize = 0;
    let mut logs: Vec<String> = Vec::new();
    proof {
        assert(logs.deep_view() =~= Seq::<Seq<char>>::empty());
    }
    let mut i: usize = 0;
    while i < n
        invariant
            n == required@.len(),
            0 <= i <= n,
            loaded + failed + missing + duplicates == i,
            attempts <= i,
            ({
                let st = MatchSt {
                    loadedv: state.loaded.deep_view(),
                    attempts: attempts as int,
                    nloaded: loaded as int,
                    nfailed: failed as int,
                    nmissing: missing as int,
                    ndup: duplicates as int,
                    logs: logs.deep_view(),
                };
                match_fold(
                    required.deep_view(),
                    ix,
                    outs,
                    init_match(old(state).loaded.deep_view()),
                    0,
                ) == match_fold(required.deep_view(), ix, outs, st, i as int)
            }),
        decreases n - i,
    {
        let ghost st0 = MatchSt {
            loadedv: state.loaded.deep_view(),
            attempts: attempts as int,
            nloaded: loaded as int,
            nfailed: failed as int,
            nmissing: missing as int,
            ndup: duplicates as int,
            logs: logs.deep_view(),
        };
        let name = required[i].as_str();
        proof {
            assert(name@ == required.deep_view()[i as int]);
        }
        let ghost logs0 = logs.deep_view();
        match decide_required_name(name, index, state) {
            NameDecision::Missing => {
                missing += 1;
                let mut line = String::from_str("[??] ");
                line.append(name);
                logs.push(line);
                proof {
                    assert(logs.deep_view() =~= logs0.push(missing_line(name@)));
                }
            },
            NameDecision::Duplicate(p) => {
                duplicates += 1;
                logs.push(make_pair_line("[^] ", name, p.as_str()));
                proof {
                    assert(logs.deep_view() =~= logs0.push(dup_line(name@, p@)));
                }
            },
            NameDecision::Activate(p) => {
                let ok = if attempts < outcomes.len() {
                    outcomes[attempts]
                } else {
                    false
                };
                proof {
                    assert(ok == outcome_at(outs, st0.attempts));
                }
                commit_activation(state, p.as_str(), ok);
                if ok {
                    loaded += 1;
                    logs.push(make_pair_line("[ok] ", name, p.as_str()));
                    proof {
                        assert(logs.deep_view() =~= logs0.push(ok_line(name@, p@)));
                    }
                } else {
                    failed += 1;
                    logs.push(make_pair_line("[X] ", name, p.as_str()));
                    proof {
                        assert(logs.deep_view() =~= logs0.push(fail_line(name@, p@)));
                    }
                }
                attempts += 1;
            },
        }
        proof {
            let st1 = MatchSt {
                loadedv: state.loaded.deep_view(),
                attempts: attempts as int,
                nloaded: loaded as int,
                nfailed: failed as int,
                nmissing: missing as int,
                ndup: duplicates as int,
                logs: logs.deep_view(),
            };
            assert(st1 == match_step(st0, required.deep_view()[i as int], ix, outs));
            assert(match_fold(required.deep_view(), ix, outs, st0, i as int) == match_fold(
                required.deep_view(),
                ix,
                outs,
                st1,
                i + 1,
            ));
        }
        i += 1;
    }
    MatchOutcome { loaded, failed, missing, duplicates, attempts, logs }
}


/// One discovered file as handed to the process operation: its path, its raw
/// bytes if it could be read, and its modification time if it has one.
pub struct FileData {
    pub path: String,
    pub bytes: Option<Vec<u8>>,
    pub mtime: Option<u64>,
}

/// The aggregate result of one process operation.
pub struct ProcessResult {
    pub loaded: usize,
    pub failed: usize,
    pub missing: usize,
    pub duplicates: usize,
    pub subs: usize,
    pub fonts: usize,
    pub logs: Vec<String>,
}

pub open spec fn bytes_view(f: FileData) -> Seq<u8> {
    match f.bytes {
        Option::Some(b) => b@,
        Option::None => Seq::empty(),
    }
}

/// What reading the file yields as text: nothing when it was unreadable.
pub open spec fn read_view(f: FileData) -> Option<Seq<char>> {
    match f.bytes {
        Option::Some(b) => text_decode_spec(b@),
        Option::None => Option::None,
    }
}

pub open spec fn count_subs(files: Seq<FileData>, i: int) -> int
    decreases files.len() - i,
{
    if 0 <= i < files.len() {
        (if is_sub_spec(files[i].path@) {
            1int
        } else {
            0int
        }) + count_subs(files, i + 1)
    } else {
        0
    }
}

pub open spec fn count_fonts(files: Seq<FileData>, i: int) -> int
    decreases files.len() - i,
{
    if 0 <= i < files.len() {
        (if !is_sub_spec(files[i].path@) && is_font_spec(files[i].path@) {
            1int
        } else {
            0int
        }) + count_fonts(files, i + 1)
    } else {
        0
    }
}

/// The required names gathered from the eligible subtitle files, in order of
/// first appearance.
pub open spec fn req_fold(files: Seq<FileData>, i: int, req: Seq<Seq<char>>) -> Seq<Seq<char>>
    decreases files.len() - i,
{
    if 0 <= i < files.len() {
        let f = files[i];
        let req2 = if is_sub_spec(f.path@) && is_ass_spec(f.path@) {
            match read_view(f) {
                Option::Some(t) => merge_unique(req, ass_fonts_spec(t), 0),
                Option::None => req,
            }
        } else {
            req
        };
        req_fold(files, i + 1, req2)
    } else {
        req
    }
}

/// The log lines for subtitle files whose format is only counted, not
/// parsed.
pub open spec fn ulog_fold(files: Seq<FileData>, i: int, logs: Seq<Seq<char>>) -> Seq<Seq<char>>
    decreases files.len() - i,
{
    if 0 <= i < files.len() {
        let f = files[i];
        let logs2 = if is_sub_spec(f.path@) && !is_ass_spec(f.path@) {
            logs.push(skip_line(f.path@))
        } else {
            logs
        };
        ulog_fold(files, i + 1, logs2)
    } else {
        logs
    }
}

/// The font files of the batch, as the index builder sees them.
pub open spec fn finputs_fold(files: Seq<FileData>, i: int) -> Seq<FontInput>
    decreases files.len() - i,
{
    if 0 <= i < files.len() {
        let f = files[i];
        (if !is_sub_spec(f.path@) && is_font_spec(f.path@) {
            seq![(f.path@, f.mtime, bytes_view(f))]
        } else {
            Seq::empty()
        }) + finputs_fold(files, i + 1)
    } else {
        Seq::empty()
    }
}

/// Run one whole process operation over the already-read batch: classify the
/// files, gather the required names from the eligible subtitles, build the
/// cache-assisted index from the font candidates, and reconcile each
/// required name against it, mutating the registry as the replayed
/// activation outcomes dictate. A broadcast is owed exactly when the result
/// counts at least one newly loaded font.
#[verifier::loop_isolation(false)]
pub fn process_drop_worker(
    files: &Vec<FileData>,
    use_cache: bool,
    cache: &mut CacheFile,
    state: &mut AppState,
    outcomes: &Vec<bool>,
) -> (r: ProcessResult)
    ensures
        ({
            let req = req_fold(files@, 0, Seq::empty());
            let built = build_fold(
                finputs_fold(files@, 0),
                use_cache,
                Seq::empty(),
                old(cache).view_spec(),
                0,
            );
            let fin = match_fold(
                req,
                built.0,
                outcomes@,
                init_match(old(state).loaded.deep_view()),
                0,
            );
            final(cache).view_spec() == built.1 && final(state).loaded.deep_view() == fin.loadedv
                && r.loaded == fin.nloaded && r.failed == fin.nfailed && r.missing == fin.nmissing
                && r.duplicates == fin.ndup && r.subs == count_subs(files@, 0) && r.fonts
                == count_fonts(files@, 0) && r.logs.deep_view() == ulog_fold(files@, 0, Seq::empty())
                + fin.logs
        }),
{
    let n = files.len();
    let mut subs: usize = 0;
    let mut fonts: usize = 0;
    let mut required: Vec<String> = Vec::new();
    let mut ulogs: Vec<String> = Vec::new();
    let mut font_inputs: Vec<FontFileData> = Vec::new();
    proof {
        assert(required.deep_view() =~= Seq::<Seq<char>>::empty());
        assert(ulogs.deep_view() =~= Seq::<Seq<char>>::empty());
        assert(fdatas_view(font_inputs@) =~= Seq::<FontInput>::empty());
    }
    let mut i: usize = 0;
    while i < n
        invariant
            n == files@.len(),
            0 <= i <= n,
            subs as int == count_subs(files@, 0) - count_subs(files@, i as int),
            fonts as int == count_fonts(files@, 0) - count_fonts(files@, i as int),
            subs <= i,
            fonts <= i,
            req_fold(files@, 0, Seq::empty()) == req_fold(files@, i as int, required.deep_view()),
            ulog_fold(files@, 0, Seq::empty()) == ulog_fold(files@, i as int, ulogs.deep_view()),
            finputs_fold(files@, 0) == fdatas_view(font_inputs@) + finputs_fold(files@, i as int),
        decreases n - i,
    {
        let ghost f = files@[i as int];
        let path = files[i].path.as_str();
        if is_sub_file(path) {
            subs += 1;
            if is_ass_file(path) {
                match &files[i].bytes {
                    Some(b) => {
                        match decode_text(b) {
                            Some(text) => {
                                let tags = parse_ass_fonts(text.as_str());
                                let ghost xs = ass_fonts_spec(text@);
                                let ghost acc0 = required.deep_view();
                                let tn = tags.len();
                                let mut q: usize = 0;
                                while q < tn
                                    invariant
                                        tn == tags@.len(),
                                        tags.deep_view() == xs,
                                        0 <= q <= tn,
                                        merge_unique(acc0, xs, 0) == merge_unique(
                                            required.deep_view(),
                                            xs,
                                            q as int,
                                        ),
                                    decreases tn - q,
                                {
                                    let ghost beforeq = required.deep_view();
                                    let nm = tags[q].clone();
                                    proof {
                                        assert(nm@ == xs[q as int]);
                                    }
                                    push_unique(&mut required, nm);
                                    q += 1;
                                }
                                proof {
                                    assert(merge_unique(required.deep_view(), xs, q as int)
                                        == required.deep_view());
                                }
                            },
                            None => {},
                        }
                    },
                    None => {},
                }
            } else {
                let mut line = String::from_str("[i] skipped unsupported subtitle: ");
                line.append(path);
                let ghost ulogs0 = ulogs.deep_view();
                ulogs.push(line);
                proof {
                    assert(ulogs.deep_view() =~= ulogs0.push(skip_line(f.path@)));
                }
            }
        } else if is_font_file(path) {
            fonts += 1;
            let data: Vec<u8> = match &files[i].bytes {
                Some(b) => clone_bytes(b),
                None => Vec::new(),
            };
            proof {
                assert(data@ == bytes_view(f));
            }
            let ghost fi0 = fdatas_view(font_inputs@);
            font_inputs.push(
                FontFileData { path: files[i].path.clone(), mtime: files[i].mtime, data },
            );
            proof {
                assert(fdatas_view(font_inputs@) =~= fi0.push((f.path@, f.mtime, bytes_view(f))));
                assert(fdatas_view(font_inputs@) + finputs_fold(files@, i + 1) =~= fi0
                    + finputs_fold(files@, i as int));
            }
        }
        i += 1;
    }
    proof {
        assert(finputs_fold(files@, i as int) =~= Seq::<FontInput>::empty());
        assert(fdatas_view(font_inputs@) + Seq::<FontInput>::empty() =~= fdatas_view(
            font_inputs@,
        ));
        assert(fdatas_view(font_inputs@) == finputs_fold(files@, 0));
    }
    let index = build_font_index(&font_inputs, use_cache, cache);
    let m = apply_required_fonts(&required, &index, state, outcomes);
    let mut logs = ulogs;
    let mut mlogs = m.logs;
    let ghost logs0 = logs.deep_view();
    let ghost mlogs0 = mlogs.deep_view();
    logs.append(&mut mlogs);
    proof {
        assert(logs.deep_view() =~= logs0 + mlogs0);
    }
    ProcessResult {
        loaded: m.loaded,
        failed: m.failed,
        missing: m.missing,
        duplicates: m.duplicates,
        subs,
        fonts,
        logs,
    }
}

/// Copy a byte buffer.
#[verifier::loop_isolation(false)]
pub fn clone_bytes(v: &Vec<u8>) -> (r: Vec<u8>)
    ensures
        r@ == v@,
{
    let mut out: Vec<u8> = Vec::new();
    let n = v.len();
    let mut i: usize = 0;
    while i < n
        invariant
            n == v@.len(),
            0 <= i <= n,
            out@ == v@.take(i as int),
        decreases n - i,
    {
        out.push(v[i]);
        proof {
            assert(out@ =~= v@.take(i + 1));
        }
        i += 1;
    }
    proof {
        assert(out@ =~= v@);
    }
    out
}

/// The result of an unload or force-clean operation.
pub struct UnloadResult {
    pub count: usize,
}

/// The registered paths that survive an unload run: those whose deactivation
/// outcome, one per path in order, was a failure.
pub open spec fn unload_kept(loadedv: Seq<Seq<char>>, outs: Seq<bool>, i: int) -> Seq<Seq<char>>
    decreases loadedv.len() - i,
{
    if 0 <= i < loadedv.len() {
        (if outcome_at(outs, i) {
            Seq::empty()
        } else {
            seq![loadedv[i]]
        }) + unload_kept(loadedv, outs, i + 1)
    } else {
        Seq::empty()
    }
}

/// How many deactivations succeeded.
pub open spec fn unload_count(loadedv: Seq<Seq<char>>, outs: Seq<bool>, i: int) -> int
    decreases loadedv.len() - i,
{
    if 0 <= i < loadedv.len() {
        (if outcome_at(outs, i) {
            1int
        } else {
            0int
        }) + unload_count(loadedv, outs, i + 1)
    } else {
        0
    }
}

/// Attempt to deactivate every registered font, exactly once each, removing
/// exactly those whose deactivation succeeded. A broadcast is owed exactly
/// when the count is positive.
#[verifier::loop_isolation(false)]
pub fn unload_fonts_worker(state: &mut AppState, outcomes: &Vec<bool>) -> (r: UnloadResult)
    ensures
        final(state).loaded.deep_view() == unload_kept(
            old(state).loaded.deep_view(),
            outcomes@,
            0,
        ),
        r.count == unload_count(old(state).loaded.deep_view(), outcomes@, 0),
{
    let ghost lv = state.loaded.deep_view();
    let n = state.loaded.len();
    let mut kept: Vec<String> = Vec::new();
    let mut count: usize = 0;
    proof {
        assert(kept.deep_view() =~= Seq::<Seq<char>>::empty());
    }
    let mut i: usize = 0;
    while i < n
        invariant
            n == state.loaded@.len(),
            state == old(state),
            lv == state.loaded.deep_view(),
            0 <= i <= n,
            count <= i,
            count as int == unload_count(lv, outcomes@, 0) - unload_count(lv, outcomes@, i as int),
            unload_kept(lv, outcomes@, 0) == kept.deep_view() + unload_kept(
                lv,
                outcomes@,
                i as int,
            ),
        decreases n - i,
    {
        let ok = if i < outcomes.len() {
            outcomes[i]
        } else {
            false
        };
        proof {
            assert(ok == outcome_at(outcomes@, i as int));
        }
        let ghost kept0 = kept.deep_view();
        if ok {
            count += 1;
        } else {
            kept.push(state.loaded[i].clone());
            proof {
                assert(kept.deep_view() =~= kept0.push(lv[i as int]));
            }
        }
        proof {
            assert(kept.deep_view() + unload_kept(lv, outcomes@, i + 1) =~= kept0 + unload_kept(
                lv,
                outcomes@,
                i as int,
            ));
        }
        i += 1;
    }
    proof {
        assert(unload_kept(lv, outcomes@, i as int) =~= Seq::<Seq<char>>::empty());
        assert(kept.deep_view() + Seq::<Seq<char>>::empty() =~= kept.deep_view());
    }
    state.loaded = kept;
    UnloadResult { count }
}

/// The first index at or after `k` whose outcome is a failure.
pub open spec fn first_false(outs: Seq<bool>, k: int) -> int
    decreases outs.len() - k,
{
    if outcome_at(outs, k) {
        first_false(outs, k + 1)
    } else {
        k
    }
}

/// The total released count and final outcome position of a force-clean run
/// over the files from `i` on: each font candidate is deactivated until one
/// call fails.
pub open spec fn clean_fold(files: Seq<Seq<char>>, outs: Seq<bool>, i: int, k: int) -> (int, int)
    decreases files.len() - i,
{
    if 0 <= i < files.len() {
        if is_font_spec(files[i]) {
            let j = first_false(outs, k);
            let rest = clean_fold(files, outs, i + 1, j + 1);
            (j - k + rest.0, rest.1)
        } else {
            clean_fold(files, outs, i + 1, k)
        }
    } else {
        (0, k)
    }
}

proof fn lemma_first_false_bounds(outs: Seq<bool>, k: int)
    requires
        0 <= k,
    ensures
        k <= first_false(outs, k) <= (if k <= outs.len() {
            outs.len() as int
        } else {
            k
        }),
    decreases outs.len() - k,
{
    if outcome_at(outs, k) {
        lemma_first_false_bounds(outs, k + 1);
    }
}

/// Force-clean: for every font candidate among the discovered files, repeat
/// deactivation until one call fails, and report how many calls succeeded.
/// The registry is not consulted. A broadcast is owed exactly when the count
/// is positive.
#[verifier::loop_isolation(false)]
pub fn clean_folder_worker(files: &Vec<String>, outcomes: &Vec<bool>) -> (r: UnloadResult)
    ensures
        r.count == clean_fold(files.deep_view(), outcomes@, 0, 0).0,
{
    let n = files.len();
    let on = outcomes.len();
    let mut count: usize = 0;
    let mut k: usize = 0;
    let ghost mut kg: int = 0;
    let mut i: usize = 0;
    while i < n
        invariant
            n == files@.len(),
            on == outcomes@.len(),
            0 <= i <= n,
            0 <= k <= on,
            kg >= 0,
            k as int == (if kg <= on {
                kg
            } else {
                on as int
            }),
            count <= k,
            count as int + clean_fold(files.deep_view(), outcomes@, i as int, kg).0 == clean_fold(
                files.deep_view(),
                outcomes@,
                0,
                0,
            ).0,
        decreases n - i,
    {
        let path = files[i].as_str();
        proof {
            assert(path@ == files.deep_view()[i as int]);
        }
        if is_font_file(path) {
            proof {
                lemma_first_false_bounds(outcomes@, kg);
            }
            let ghost j = first_false(outcomes@, kg);
            let ghost kg0 = kg;
            let ghost count0 = count as int;
            while k < on && outcomes[k]
                invariant
                    0 <= k <= on,
                    on == outcomes@.len(),
                    0 <= kg0 <= kg,
                    k as int == (if kg <= on {
                        kg
                    } else {
                        on as int
                    }),
                    count as int == count0 + (kg - kg0),
                    count <= k,
                    j == first_false(outcomes@, kg),
                decreases on - k,
            {
                count += 1;
                k += 1;
                proof {
                    kg = kg + 1;
                }
            }
            proof {
                assert(!outcome_at(outcomes@, kg));
                assert(j == kg);
                assert(count as int == count0 + (j - kg0));
                kg = kg + 1;
            }
            if k < on {
                k += 1;
            }
            proof {
                assert(clean_fold(files.deep_view(), outcomes@, i as int, kg0).0 == (j - kg0)
                    + clean_fold(files.deep_view(), outcomes@, i + 1, j + 1).0);
            }
        }
        i += 1;
    }
    proof {
        assert(clean_fold(files.deep_view(), outcomes@, i as int, kg).0 == 0);
    }
    UnloadResult { count }
}

} // verus!
