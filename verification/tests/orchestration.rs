use fontloader::cache::{build_font_index, CacheFile, FontFileData};
use fontloader::fswalk::{collect_files, FsEntry};
use fontloader::registry::{
    apply_required_fonts, clean_folder_worker, commit_activation, decide_required_name,
    process_drop_worker, unload_fonts_worker, AppState, FileData, NameDecision,
};

/// A minimal single-font binary declaring one family name (Windows
/// platform), built the way the name-table reader expects it.
fn font_with_name(name: &str) -> Vec<u8> {
    let mut strings: Vec<u8> = Vec::new();
    for unit in name.encode_utf16() {
        strings.extend_from_slice(&unit.to_be_bytes());
    }
    let mut table: Vec<u8> = Vec::new();
    table.extend_from_slice(&0u16.to_be_bytes());
    table.extend_from_slice(&1u16.to_be_bytes());
    table.extend_from_slice(&18u16.to_be_bytes()); // storage right after one record
    table.extend_from_slice(&3u16.to_be_bytes()); // platform
    table.extend_from_slice(&1u16.to_be_bytes()); // encoding
    table.extend_from_slice(&0u16.to_be_bytes()); // language
    table.extend_from_slice(&1u16.to_be_bytes()); // family name
    table.extend_from_slice(&(strings.len() as u16).to_be_bytes());
    table.extend_from_slice(&0u16.to_be_bytes());
    table.extend_from_slice(&strings);
    let mut font: Vec<u8> = Vec::new();
    font.extend_from_slice(&[0x00, 0x01, 0x00, 0x00]);
    font.extend_from_slice(&1u16.to_be_bytes());
    font.extend_from_slice(&[0u8; 6]);
    font.extend_from_slice(b"name");
    font.extend_from_slice(&0u32.to_be_bytes());
    font.extend_from_slice(&28u32.to_be_bytes());
    font.extend_from_slice(&(table.len() as u32).to_be_bytes());
    font.extend_from_slice(&table);
    font
}

fn font_file(path: &str, name: &str, mtime: u64) -> FontFileData {
    FontFileData { path: path.to_string(), mtime: Some(mtime), data: font_with_name(name) }
}

#[test]
fn index_lookup_is_case_insensitive() {
    let mut cache = CacheFile::new();
    let files = vec![font_file("c:/f/arial.ttf", "ARIAL", 1)];
    let index = build_font_index(&files, false, &mut cache);
    let state = AppState::new();
    match decide_required_name("Arial", &index, &state) {
        NameDecision::Activate(p) => assert_eq!(p, "c:/f/arial.ttf".to_string()),
        _ => panic!("required name should resolve to the declared font"),
    }
    match decide_required_name("arial", &index, &state) {
        NameDecision::Activate(p) => assert_eq!(p, "c:/f/arial.ttf".to_string()),
        _ => panic!("lowercase query should resolve too"),
    }
    match decide_required_name("Helvetica", &index, &state) {
        NameDecision::Missing => {},
        _ => panic!("an undeclared name must be missing"),
    }
}

#[test]
fn cache_round_trip_same_index() {
    let files = vec![
        font_file("a.ttf", "Alpha", 10),
        font_file("b.ttf", "Beta", 20),
    ];
    // first cached build populates the cache
    let mut cache = CacheFile::new();
    let _ = build_font_index(&files, true, &mut cache);
    // unchanged modification times: the cached build must equal the fresh one
    let cached = build_font_index(&files, true, &mut cache);
    let mut no_cache = CacheFile::new();
    let fresh = build_font_index(&files, false, &mut no_cache);
    assert_eq!(cached.entries.len(), fresh.entries.len());
    for ((k1, v1), (k2, v2)) in cached.entries.iter().zip(fresh.entries.iter()) {
        assert_eq!(k1, k2);
        assert_eq!(v1, v2);
    }
    // the cache-off build never touched its cache
    assert_eq!(no_cache.entries.len(), 0);
}

#[test]
fn cache_hit_skips_reparsing() {
    let mut cache = CacheFile::new();
    let _ = build_font_index(&vec![font_file("a.ttf", "Alpha", 10)], true, &mut cache);
    // same path and time, different bytes: the stale-free entry is served,
    // so the cached names win over the new bytes
    let changed_bytes_same_time = font_file("a.ttf", "Renamed", 10);
    let index = build_font_index(&vec![changed_bytes_same_time], true, &mut cache);
    let state = AppState::new();
    assert!(matches!(
        decide_required_name("Alpha", &index, &state),
        NameDecision::Activate(_)
    ));
    assert!(matches!(decide_required_name("Renamed", &index, &state), NameDecision::Missing));
}

#[test]
fn cache_invalidated_by_new_modification_time() {
    let mut cache = CacheFile::new();
    let _ = build_font_index(&vec![font_file("a.ttf", "Alpha", 10)], true, &mut cache);
    // the file changed: new time, new bytes; the entry must not be reused
    let index = build_font_index(&vec![font_file("a.ttf", "Renamed", 11)], true, &mut cache);
    let state = AppState::new();
    assert!(matches!(decide_required_name("Alpha", &index, &state), NameDecision::Missing));
    assert!(matches!(
        decide_required_name("Renamed", &index, &state),
        NameDecision::Activate(_)
    ));
    // and the rebuilt entry carries the new time and names
    let entry = cache.get("a.ttf").expect("entry must exist");
    assert_eq!(entry.0, 11);
    assert_eq!(entry.1, vec!["Renamed".to_string()]);
}

#[test]
fn missing_name_invokes_no_activation() {
    let mut state = AppState::new();
    let index = build_font_index(&Vec::new(), false, &mut CacheFile::new());
    let outcome = apply_required_fonts(
        &vec!["Ghost".to_string()],
        &index,
        &mut state,
        &vec![true, true],
    );
    assert_eq!(outcome.missing, 1);
    assert_eq!(outcome.loaded, 0);
    assert_eq!(outcome.attempts, 0, "no activation call may be made for a missing name");
    assert_eq!(state.loaded.len(), 0);
    assert_eq!(outcome.logs, vec!["[??] Ghost".to_string()]);
}

fn subtitle_file(path: &str, text: &str) -> FileData {
    FileData { path: path.to_string(), bytes: Some(text.as_bytes().to_vec()), mtime: None }
}

fn batch_font(path: &str, name: &str, mtime: u64) -> FileData {
    FileData { path: path.to_string(), bytes: Some(font_with_name(name)), mtime: Some(mtime) }
}

#[test]
fn at_most_once_activation_within_a_batch() {
    // two distinct required names resolve to the same file: one load, one
    // duplicate
    let sub = subtitle_file(
        "episode.ass",
        "[V4+ Styles]\nFormat: Name, Fontname\nStyle: A,Arial\nStyle: B,ARIAL",
    );
    let font = batch_font("arial.ttf", "Arial", 1);
    let mut cache = CacheFile::new();
    let mut state = AppState::new();
    let result = process_drop_worker(
        &vec![sub, font],
        false,
        &mut cache,
        &mut state,
        &vec![true],
    );
    assert_eq!(result.subs, 1);
    assert_eq!(result.fonts, 1);
    assert_eq!(result.loaded, 1);
    assert_eq!(result.duplicates, 1);
    assert_eq!(result.failed, 0);
    assert_eq!(result.missing, 0);
    assert_eq!(state.loaded, vec!["arial.ttf".to_string()]);
}

#[test]
fn at_most_once_activation_across_operations() {
    let sub = subtitle_file(
        "episode.ass",
        "[V4+ Styles]\nFormat: Name, Fontname\nStyle: A,Arial",
    );
    let font = batch_font("arial.ttf", "Arial", 1);
    let mut cache = CacheFile::new();
    let mut state = AppState::new();
    let first = process_drop_worker(
        &vec![subtitle_file("episode.ass", "[V4+ Styles]\nFormat: Name, Fontname\nStyle: A,Arial"), batch_font("arial.ttf", "Arial", 1)],
        false,
        &mut cache,
        &mut state,
        &vec![true],
    );
    assert_eq!(first.loaded, 1);
    let second = process_drop_worker(&vec![sub, font], false, &mut cache, &mut state, &vec![]);
    assert_eq!(second.loaded, 0);
    assert_eq!(second.duplicates, 1);
    assert_eq!(state.loaded, vec!["arial.ttf".to_string()]);
}

#[test]
fn registry_unchanged_by_failed_activation() {
    let mut state = AppState::new();
    commit_activation(&mut state, "a.ttf", false);
    assert_eq!(state.loaded.len(), 0);
    commit_activation(&mut state, "a.ttf", true);
    assert_eq!(state.loaded, vec!["a.ttf".to_string()]);
    commit_activation(&mut state, "a.ttf", true);
    assert_eq!(state.loaded, vec!["a.ttf".to_string()]);
}

#[test]
fn failed_activation_reported() {
    let sub = subtitle_file(
        "episode.ass",
        "[V4+ Styles]\nFormat: Name, Fontname\nStyle: A,Arial",
    );
    let font = batch_font("arial.ttf", "Arial", 1);
    let mut cache = CacheFile::new();
    let mut state = AppState::new();
    let result = process_drop_worker(
        &vec![sub, font],
        false,
        &mut cache,
        &mut state,
        &vec![false],
    );
    assert_eq!(result.failed, 1);
    assert_eq!(result.loaded, 0);
    assert_eq!(state.loaded.len(), 0);
    assert_eq!(result.logs, vec!["[X] Arial > arial.ttf".to_string()]);
}

#[test]
fn unsupported_subtitles_counted_not_parsed() {
    let srt = subtitle_file("movie.srt", "1\n00:00:00,000 --> 00:00:01,000\nhello");
    let mut cache = CacheFile::new();
    let mut state = AppState::new();
    let result = process_drop_worker(&vec![srt], false, &mut cache, &mut state, &vec![]);
    assert_eq!(result.subs, 1);
    assert_eq!(result.fonts, 0);
    assert_eq!(result.missing, 0);
    assert_eq!(result.logs, vec!["[i] skipped unsupported subtitle: movie.srt".to_string()]);
}

#[test]
fn unload_complete_empties_registry() {
    let mut state = AppState::new();
    commit_activation(&mut state, "a.ttf", true);
    commit_activation(&mut state, "b.ttf", true);
    let r = unload_fonts_worker(&mut state, &vec![true, true]);
    assert_eq!(r.count, 2);
    assert_eq!(state.loaded.len(), 0);
}

#[test]
fn unload_keeps_paths_whose_deactivation_failed() {
    let mut state = AppState::new();
    commit_activation(&mut state, "a.ttf", true);
    commit_activation(&mut state, "b.ttf", true);
    let r = unload_fonts_worker(&mut state, &vec![true, false]);
    assert_eq!(r.count, 1);
    assert_eq!(state.loaded, vec!["b.ttf".to_string()]);
}

#[test]
fn force_clean_counts_repeated_deactivations() {
    // one font file that was activated twice by unrelated means: two calls
    // succeed, the third fails and ends the loop
    let files = vec!["residue/arial.ttf".to_string()];
    let r = clean_folder_worker(&files, &vec![true, true, false]);
    assert_eq!(r.count, 2);
}

#[test]
fn force_clean_skips_non_fonts_and_spans_files() {
    let files = vec![
        "a.ttf".to_string(),
        "readme.txt".to_string(),
        "b.otf".to_string(),
    ];
    // a.ttf releases once (then fails), b.otf never was active
    let r = clean_folder_worker(&files, &vec![true, false, false]);
    assert_eq!(r.count, 1);
}

#[test]
fn collect_files_flattens_depth_first() {
    let tree = vec![
        FsEntry::Dir(vec![
            FsEntry::File("d/a.ass".to_string()),
            FsEntry::Dir(vec![FsEntry::File("d/e/b.ttf".to_string())]),
        ]),
        FsEntry::Missing,
        FsEntry::File("c.srt".to_string()),
    ];
    assert_eq!(
        collect_files(&tree),
        vec!["d/a.ass".to_string(), "d/e/b.ttf".to_string(), "c.srt".to_string()]
    );
}

#[test]
fn unreadable_subtitle_contributes_nothing() {
    let sub = FileData { path: "x.ass".to_string(), bytes: None, mtime: None };
    let mut cache = CacheFile::new();
    let mut state = AppState::new();
    let result = process_drop_worker(&vec![sub], false, &mut cache, &mut state, &vec![]);
    assert_eq!(result.subs, 1);
    assert_eq!(result.missing, 0);
    assert_eq!(result.logs.len(), 0);
}
