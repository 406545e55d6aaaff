use fontloader::registry::{ProcessResult, UnloadResult};
use fontloader::scheduler::{FontLoaderApp, Mode, WorkerResult};

#[test]
fn enqueue_deduplicates_and_logs_count() {
    let mut app = FontLoaderApp::new();
    app.enqueue_paths(vec!["a".to_string(), "b".to_string(), "a".to_string()]);
    assert_eq!(app.pending_paths, vec!["a".to_string(), "b".to_string()]);
    assert_eq!(app.logs, vec!["[i] queued: 2".to_string()]);
    app.enqueue_paths(vec!["a".to_string()]);
    assert_eq!(app.pending_paths.len(), 2);
    assert_eq!(app.logs.len(), 1, "nothing new queued, nothing logged");
}

#[test]
fn process_request_takes_queue_and_sets_busy() {
    let mut app = FontLoaderApp::new();
    app.mode = Mode::Normal;
    app.enqueue_paths(vec!["a".to_string()]);
    let started = app.handle_process_pending().expect("idle with work queued");
    assert_eq!(started.0, vec!["a".to_string()]);
    assert!(started.1, "normal mode uses the cache");
    assert!(app.busy);
    assert_eq!(app.pending_paths.len(), 0);
}

#[test]
fn process_request_refused_while_busy() {
    let mut app = FontLoaderApp::new();
    app.enqueue_paths(vec!["a".to_string()]);
    let _ = app.handle_process_pending().unwrap();
    app.enqueue_paths(vec!["b".to_string()]);
    assert!(app.handle_process_pending().is_none());
    assert_eq!(
        app.logs.last().unwrap(),
        &"[i] an operation is already running".to_string()
    );
    assert!(!app.handle_unload());
    assert!(!app.handle_clean("dir"));
}

#[test]
fn process_request_refused_without_work() {
    let mut app = FontLoaderApp::new();
    assert!(app.handle_process_pending().is_none());
    assert_eq!(app.logs, vec!["[i] nothing is queued".to_string()]);
    assert!(!app.busy);
}

#[test]
fn no_residue_mode_disables_cache() {
    let mut app = FontLoaderApp::new();
    app.enqueue_paths(vec!["a".to_string()]);
    let started = app.handle_process_pending().unwrap();
    assert!(!started.1, "the default no-residue mode skips the cache");
}

#[test]
fn poll_delivers_process_summary() {
    let mut app = FontLoaderApp::new();
    app.enqueue_paths(vec!["a".to_string()]);
    let _ = app.handle_process_pending().unwrap();
    let res = ProcessResult {
        loaded: 1,
        failed: 0,
        missing: 2,
        duplicates: 0,
        subs: 1,
        fonts: 1,
        logs: vec!["[ok] Arial > arial.ttf".to_string()],
    };
    app.poll_worker(Some(WorkerResult::Process(Ok(res))));
    assert!(!app.busy);
    assert_eq!(app.logs.last().unwrap(), "done: subs 1 fonts 1 loaded 1 failed 0 missing 2 duplicate 0");
    assert!(app.logs.contains(&"[ok] Arial > arial.ttf".to_string()));
    let summary = app.last_summary.as_ref().unwrap();
    assert_eq!(summary.loaded, 1);
    assert_eq!(summary.missing, 2);
}

#[test]
fn poll_reports_operation_error() {
    let mut app = FontLoaderApp::new();
    let _ = app.handle_unload();
    app.poll_worker(Some(WorkerResult::Process(Err("registry lock failed".to_string()))));
    assert!(!app.busy);
    assert_eq!(app.logs.last().unwrap(), "[X] registry lock failed");
}

#[test]
fn poll_delivers_unload_and_clean_counts() {
    let mut app = FontLoaderApp::new();
    let _ = app.handle_unload();
    app.poll_worker(Some(WorkerResult::Unload(Ok(UnloadResult { count: 3 }))));
    assert!(!app.busy);
    assert_eq!(app.logs.last().unwrap(), "unloaded: 3");
    assert_eq!(app.last_summary.as_ref().unwrap().loaded, 0);

    let _ = app.handle_clean("residue");
    app.poll_worker(Some(WorkerResult::Clean(Ok(UnloadResult { count: 2 }))));
    assert!(!app.busy);
    assert_eq!(app.logs.last().unwrap(), "force-clean released 2 font references");
}

#[test]
fn poll_without_message_changes_nothing() {
    let mut app = FontLoaderApp::new();
    let _ = app.handle_unload();
    app.poll_worker(None);
    assert!(app.busy, "no terminal message yet: still busy");
}

#[test]
fn append_logs_keeps_order() {
    let mut app = FontLoaderApp::new();
    app.append_logs(vec!["one".to_string(), "two".to_string()]);
    assert_eq!(app.logs, vec!["one".to_string(), "two".to_string()]);
}
