//! The interactive front end's decision state: the pending queue, the busy
//! flag that admits one outstanding operation at a time, the log, and the
//! handling of a finished operation's single terminal message. The caller
//! performs the platform work (threads, channels, dialogs) and hands the
//! terminal message back to `poll_worker`.

use vstd::prelude::*;
use vstd::string::*;
use crate::numfmt::{dec_spec, u64_to_string};
use crate::registry::{ProcessResult, UnloadResult};
use crate::text::merge_unique;
use crate::text::push_unique;
use crate::cache::clone_names;

verus! {

/// Whether the persistent cache is consulted.
#[derive(PartialEq, Eq, Clone, Copy, Structural)]
pub enum Mode {
    NoResidue,
    Normal,
}

/// The single terminal message of one background operation.
pub enum WorkerResult {
    Process(Result<ProcessResult, String>),
    Unload(Result<UnloadResult, String>),
    Clean(Result<UnloadResult, String>),
}

/// The front end's state.
pub struct FontLoaderApp {
    pub mode: Mode,
    pub busy: bool,
    pub logs: Vec<String>,
    pub pending_paths: Vec<String>,
    pub last_summary: Option<ProcessResult>,
}

pub open spec fn busy_line() -> Seq<char> {
    "[i] an operation is already running"@
}

pub open spec fn no_pending_line() -> Seq<char> {
    "[i] nothing is queued"@
}

pub open spec fn queued_line(added: int) -> Seq<char> {
    "[i] queued: "@ + dec_spec(added)
}

pub open spec fn clean_start_line(folder: Seq<char>) -> Seq<char> {
    "[i] force-cleaning directory: "@ + folder
}

pub open spec fn err_line(e: Seq<char>) -> Seq<char> {
    "[X] "@ + e
}

pub open spec fn summary_line_spec(
    subs: int,
    fonts: int,
    loaded: int,
    failed: int,
    missing: int,
    duplicates: int,
) -> Seq<char> {
    "done: subs "@ + dec_spec(subs) + " fonts "@ + dec_spec(fonts) + " loaded "@ + dec_spec(loaded)
        + " failed "@ + dec_spec(failed) + " missing "@ + dec_spec(missing) + " duplicate "@
        + dec_spec(duplicates)
}

pub open spec fn unload_line(count: int) -> Seq<char> {
    "unloaded: "@ + dec_spec(count)
}

pub open spec fn clean_line(count: int) -> Seq<char> {
    "force-clean released "@ + dec_spec(count) + " font references"@
}

fn summary_line(res: &ProcessResult) -> (r: String)
    ensures
        r@ == summary_line_spec(
            res.subs as int,
            res.fonts as int,
            res.loaded as int,
            res.failed as int,
            res.missing as int,
            res.duplicates as int,
        ),
{
    let mut s = String::from_str("done: subs ");
    s.append(u64_to_string(res.subs as u64).as_str());
    s.append(" fonts ");
    s.append(u64_to_string(res.fonts as u64).as_str());
    s.append(" loaded ");
    s.append(u64_to_string(res.loaded as u64).as_str());
    s.append(" failed ");
    s.append(u64_to_string(res.failed as u64).as_str());
    s.append(" missing ");
    s.append(u64_to_string(res.missing as u64).as_str());
    s.append(" duplicate ");
    s.append(u64_to_string(res.duplicates as u64).as_str());
    s
}

impl FontLoaderApp {
    /// A fresh front end: cache off, idle, nothing queued or logged.
    pub fn new() -> (r: FontLoaderApp)
        ensures
            r.mode == Mode::NoResidue,
            r.busy == false,
            r.logs@ == Seq::<String>::empty(),
            r.pending_paths@ == Seq::<String>::empty(),
            r.last_summary is None,
    {
        FontLoaderApp {
            mode: Mode::NoResidue,
            busy: false,
            logs: Vec::new(),
            pending_paths: Vec::new(),
            last_summary: None,
        }
    }

    /// Append the given log lines in order.
    pub fn append_logs(&mut self, items: Vec<String>)
        ensures
            final(self).logs@ == old(self).logs@ + items@,
            final(self).mode == old(self).mode,
            final(self).busy == old(self).busy,
            final(self).pending_paths == old(self).pending_paths,
            final(self).last_summary == old(self).last_summary,
    {
        let mut items = items;
        self.logs.append(&mut items);
    }

    /// Queue the given paths, keeping each path once, and log how many were
    /// new.
    #[verifier::loop_isolation(false)]
    pub fn enqueue_paths(&mut self, paths: Vec<String>)
        ensures
            final(self).pending_paths.deep_view() == merge_unique(
                old(self).pending_paths.deep_view(),
                paths.deep_view(),
                0,
            ),
            ({
                let added = final(self).pending_paths@.len() - old(self).pending_paths@.len();
                final(self).logs.deep_view() == (if added > 0 {
                    old(self).logs.deep_view().push(queued_line(added as int))
                } else {
                    old(self).logs.deep_view()
                })
            }),
            final(self).mode == old(self).mode,
            final(self).busy == old(self).busy,
            final(self).last_summary == old(self).last_summary,
    {
        let ghost ps = paths.deep_view();
        let ghost acc0 = self.pending_paths.deep_view();
        let n0 = self.pending_paths.len();
        let n = paths.len();
        let mut i: usize = 0;
        while i < n
            invariant
                n == paths@.len(),
                ps == paths.deep_view(),
                0 <= i <= n,
                self.mode == old(self).mode,
                self.busy == old(self).busy,
                self.logs == old(self).logs,
                self.last_summary == old(self).last_summary,
                n0 <= self.pending_paths@.len(),
                merge_unique(acc0, ps, 0) == merge_unique(
                    self.pending_paths.deep_view(),
                    ps,
                    i as int,
                ),
            decreases n - i,
        {
            let ghost before = self.pending_paths.deep_view();
            let p = paths[i].clone();
            proof {
                assert(p@ == ps[i as int]);
            }
            push_unique(&mut self.pending_paths, p);
            proof {
                assert(self.pending_paths.deep_view().len() >= before.len());
                assert(self.pending_paths@.len() >= n0);
            }
            i += 1;
        }
        proof {
            assert(merge_unique(self.pending_paths.deep_view(), ps, i as int)
                == self.pending_paths.deep_view());
        }
        let n1 = self.pending_paths.len();
        if n1 > n0 {
            let added = n1 - n0;
            let mut line = String::from_str("[i] queued: ");
            line.append(u64_to_string(added as u64).as_str());
            let ghost logs0 = self.logs.deep_view();
            self.logs.push(line);
            proof {
                assert(self.logs.deep_view() =~= logs0.push(queued_line(added as int)));
            }
        }
    }

    /// Begin the process operation: hand back the queued paths and whether
    /// the cache is to be used, or refuse while busy or with nothing queued.
    pub fn handle_process_pending(&mut self) -> (r: Option<(Vec<String>, bool)>)
        ensures
            old(self).busy ==> ((r is None) && final(self).logs.deep_view() == old(self).logs.deep_view().push(busy_line()) && final(self).pending_paths == old(self).pending_paths && final(self).busy == old(self).busy),
            (!old(self).busy && old(self).pending_paths@.len() == 0) ==> ((r is None) && final(self).logs.deep_view() == old(self).logs.deep_view().push(no_pending_line()) && final(self).pending_paths == old(self).pending_paths && final(self).busy == old(self).busy),
            (!old(self).busy && old(self).pending_paths@.len() > 0) ==> (r matches Some(pr)
                && pr.0@ == old(self).pending_paths@ && pr.1 == (old(self).mode == Mode::Normal)
                && final(self).busy && final(self).pending_paths@.len() == 0 && final(self).logs
                == old(self).logs),
            final(self).mode == old(self).mode,
            final(self).last_summary == old(self).last_summary,
    {
        if self.busy {
            let line = String::from_str("[i] an operation is already running");
            let ghost logs0 = self.logs.deep_view();
            self.logs.push(line);
            proof {
                assert(self.logs.deep_view() =~= logs0.push(busy_line()));
            }
            return None;
        }
        if self.pending_paths.len() == 0 {
            let line = String::from_str("[i] nothing is queued");
            let ghost logs0 = self.logs.deep_view();
            self.logs.push(line);
            proof {
                assert(self.logs.deep_view() =~= logs0.push(no_pending_line()));
            }
            return None;
        }
        let paths = clone_names(&self.pending_paths);
        self.pending_paths = Vec::new();
        self.busy = true;
        let use_cache = self.mode == Mode::Normal;
        Some((paths, use_cache))
    }

    /// Begin the unload operation, or refuse while busy.
    pub fn handle_unload(&mut self) -> (r: bool)
        ensures
            old(self).busy ==> (!r && final(self).logs.deep_view() == old(self).logs.deep_view().push(busy_line()) && final(self).busy == old(self).busy),
            !old(self).busy ==> (r && final(self).busy && final(self).logs == old(self).logs),
            final(self).mode == old(self).mode,
            final(self).pending_paths == old(self).pending_paths,
            final(self).last_summary == old(self).last_summary,
    {
        if self.busy {
            let line = String::from_str("[i] an operation is already running");
            let ghost logs0 = self.logs.deep_view();
            self.logs.push(line);
            proof {
                assert(self.logs.deep_view() =~= logs0.push(busy_line()));
            }
            return false;
        }
        self.busy = true;
        true
    }

    /// Begin the force-clean operation for a chosen directory, or refuse
    /// while busy.
    pub fn handle_clean(&mut self, folder: &str) -> (r: bool)
        ensures
            old(self).busy ==> (!r && final(self).logs.deep_view() == old(self).logs.deep_view().push(busy_line()) && final(self).busy == old(self).busy),
            !old(self).busy ==> (r && final(self).busy && final(self).logs.deep_view() == old(self).logs.deep_view().push(clean_start_line(folder@))),
            final(self).mode == old(self).mode,
            final(self).pending_paths == old(self).pending_paths,
            final(self).last_summary == old(self).last_summary,
    {
        if self.busy {
            let line = String::from_str("[i] an operation is already running");
            let ghost logs0 = self.logs.deep_view();
            self.logs.push(line);
            proof {
                assert(self.logs.deep_view() =~= logs0.push(busy_line()));
            }
            return false;
        }
        let mut line = String::from_str("[i] force-cleaning directory: ");
        line.append(folder);
        let ghost logs0 = self.logs.deep_view();
        self.logs.push(line);
        proof {
            assert(self.logs.deep_view() =~= logs0.push(clean_start_line(folder@)));
        }
        self.busy = true;
        true
    }

    /// Take delivery of an operation's terminal message: clear the busy
    /// flag, log the outcome, and keep the last process summary.
    pub fn poll_worker(&mut self, msg: Option<WorkerResult>)
        ensures
            (msg is None) ==> *final(self) == *old(self),
            (match msg {
                Option::Some(WorkerResult::Process(Result::Ok(res))) => !final(self).busy && final(self).logs.deep_view() == old(self).logs.deep_view() + res.logs.deep_view() + seq![
                    summary_line_spec(
                        res.subs as int,
                        res.fonts as int,
                        res.loaded as int,
                        res.failed as int,
                        res.missing as int,
                        res.duplicates as int,
                    ),
                ] && final(self).last_summary == Option::Some(res),
                Option::Some(WorkerResult::Process(Result::Err(e))) => !final(self).busy && final(self).logs.deep_view() == old(self).logs.deep_view().push(err_line(e@)) && final(self).last_summary == old(self).last_summary,
                Option::Some(WorkerResult::Unload(Result::Ok(u))) => !final(self).busy && final(self).logs.deep_view() == old(self).logs.deep_view().push(unload_line(u.count as int))
                    && (final(self).last_summary matches Option::Some(s) && s.loaded == 0
                    && s.failed == 0 && s.missing == 0 && s.duplicates == 0 && s.subs == 0
                    && s.fonts == 0 && s.logs@.len() == 0),
                Option::Some(WorkerResult::Unload(Result::Err(e))) => !final(self).busy && final(self).logs.deep_view() == old(self).logs.deep_view().push(err_line(e@)) && final(self).last_summary == old(self).last_summary,
                Option::Some(WorkerResult::Clean(Result::Ok(u))) => !final(self).busy && final(self).logs.deep_view() == old(self).logs.deep_view().push(clean_line(u.count as int))
                    && final(self).last_summary == old(self).last_summary,
                Option::Some(WorkerResult::Clean(Result::Err(e))) => !final(self).busy && final(self).logs.deep_view() == old(self).logs.deep_view().push(err_line(e@)) && final(self).last_summary == old(self).last_summary,
                Option::None => true,
            }),
            final(self).mode == old(self).mode,
            final(self).pending_paths == old(self).pending_paths,
    {
        match msg {
            None => {},
            Some(w) => {
                self.busy = false;
                match w {
                    WorkerResult::Process(res) => {
                        match res {
                            Ok(res) => {
                                let ghost logs0 = self.logs.deep_view();
                                let mut copy = clone_names(&res.logs);
                                self.logs.append(&mut copy);
                                let line = summary_line(&res);
                                self.logs.push(line);
                                proof {
                                    assert(self.logs.deep_view() =~= logs0 + res.logs.deep_view()
                                        + seq![
                                        summary_line_spec(
                                            res.subs as int,
                                            res.fonts as int,
                                            res.loaded as int,
                                            res.failed as int,
                                            res.missing as int,
                                            res.duplicates as int,
                                        ),
                                    ]);
                                }
                                self.last_summary = Some(res);
                            },
                            Err(e) => {
                                let ghost logs0 = self.logs.deep_view();
                                let mut line = String::from_str("[X] ");
                                line.append(e.as_str());
                                self.logs.push(line);
                                proof {
                                    assert(self.logs.deep_view() =~= logs0.push(err_line(e@)));
                                }
                            },
                        }
                    },
                    WorkerResult::Unload(res) => {
                        match res {
                            Ok(u) => {
                                let ghost logs0 = self.logs.deep_view();
                                let mut line = String::from_str("unloaded: ");
                                line.append(u64_to_string(u.count as u64).as_str());
                                self.logs.push(line);
                                proof {
                                    assert(self.logs.deep_view() =~= logs0.push(
                                        unload_line(u.count as int),
                                    ));
                                }
                                self.last_summary = Some(
                                    ProcessResult {
                                        loaded: 0,
                                        failed: 0,
                                        missing: 0,
                                        duplicates: 0,
                                        subs: 0,
                                        fonts: 0,
                                        logs: Vec::new(),
                                    },
                                );
                            },
                            Err(e) => {
                                let ghost logs0 = self.logs.deep_view();
                                let mut line = String::from_str("[X] ");
                                line.append(e.as_str());
                                self.logs.push(line);
                                proof {
                                    assert(self.logs.deep_view() =~= logs0.push(err_line(e@)));
                                }
                            },
                        }
                    },
                    WorkerResult::Clean(res) => {
                        match res {
                            Ok(u) => {
                                let ghost logs0 = self.logs.deep_view();
                                let mut line = String::from_str("force-clean released ");
                                line.append(u64_to_string(u.count as u64).as_str());
                                line.append(" font references");
                                self.logs.push(line);
                                proof {
                                    assert(self.logs.deep_view() =~= logs0.push(
                                        clean_line(u.count as int),
                                    ));
                                }
                            },
                            Err(e) => {
                                let ghost logs0 = self.logs.deep_view();
                                let mut line = String::from_str("[X] ");
                                line.append(e.as_str());
                                self.logs.push(line);
                                proof {
                                    assert(self.logs.deep_view() =~= logs0.push(err_line(e@)));
                                }
                            },
                        }
                    },
                }
            },
        }
    }
}

} // verus!
