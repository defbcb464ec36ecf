use les_core::{FileEntry, FileMeta, Index, PatternMode, Query};

fn entry(path: &str, is_dir: bool, size: u64, mtime: i64) -> FileEntry {
    FileEntry { path: path.to_string(), is_dir, size, mtime }
}

fn all_query() -> Query {
    Query {
        pattern: String::new(),
        mode: PatternMode::Substr,
        files_only: false,
        dirs_only: false,
        roots: vec![],
        exclude: vec![],
        min_size: None,
        max_size: None,
        min_mtime: None,
        max_mtime: None,
        content: None,
    }
}

fn paths_of(idx: &Index) -> Vec<String> {
    idx.run_query(&all_query()).expect("query").entries.into_iter().map(|e| e.path).collect()
}

fn sorted_paths_of(idx: &Index) -> Vec<String> {
    let mut v = paths_of(idx);
    v.sort();
    v
}

#[test]
fn rebuild_is_idempotent() {
    let db = "/tmp/les_core_test_rebuild_idempotent";
    let mut idx = Index::open(db).expect("open");
    let walked = vec![
        entry("/a", true, 0, 500),
        entry("/a/b.txt", false, 100, 1000),
        entry("/a/c.log", false, 50, 2000),
    ];
    let walked_again = vec![
        entry("/a", true, 0, 500),
        entry("/a/b.txt", false, 100, 1000),
        entry("/a/c.log", false, 50, 2000),
    ];
    idx.rebuild(walked, &[]).expect("first rebuild");
    let first = sorted_paths_of(&idx);
    idx.rebuild(walked_again, &[]).expect("second rebuild");
    let second = sorted_paths_of(&idx);
    assert_eq!(first, second);
    assert_eq!(first, vec!["/a".to_string(), "/a/b.txt".to_string(), "/a/c.log".to_string()]);
}

#[test]
fn rebuild_applies_skip_rules() {
    let db = "/tmp/les_core_test_rebuild_skips";
    let mut idx = Index::open(db).expect("open");
    let walked = vec![
        entry("/home/u/keep.txt", false, 1, 1),
        entry("/tmp/scratch.txt", false, 1, 1),
        entry("/home/u/node_modules/x.js", false, 1, 1),
    ];
    idx.rebuild(walked, &["node_modules".to_string()]).expect("rebuild");
    assert_eq!(paths_of(&idx), vec!["/home/u/keep.txt".to_string()]);
}

#[test]
fn update_path_deleted_removes_everywhere() {
    let db = "/tmp/les_core_test_update_deleted";
    let mut idx = Index::open(db).expect("open");
    idx.rebuild(vec![entry("/a/b.txt", false, 100, 1000)], &[]).expect("rebuild");
    assert_eq!(paths_of(&idx), vec!["/a/b.txt".to_string()]);
    idx.update_path("/a/b.txt", &[], None).expect("update");
    assert!(paths_of(&idx).is_empty());
    drop(idx);
    let reopened = Index::open(db).expect("reopen");
    assert!(paths_of(&reopened).is_empty());
}

#[test]
fn update_path_created_yields_one_entry() {
    let db = "/tmp/les_core_test_update_created";
    let mut idx = Index::open(db).expect("open");
    idx.rebuild(vec![], &[]).expect("rebuild");
    let meta = FileMeta { is_dir: false, size: 7, mtime: 42 };
    idx.update_path("/a/new.txt", &[], Some(meta)).expect("first update");
    idx.update_path("/a/new.txt", &[], Some(meta)).expect("second update");
    let got = paths_of(&idx);
    assert_eq!(got, vec!["/a/new.txt".to_string()]);
    drop(idx);
    let reopened = Index::open(db).expect("reopen");
    let persisted = paths_of(&reopened);
    assert_eq!(persisted, vec!["/a/new.txt".to_string()]);
    let e = &reopened.entries[0];
    assert!(!e.is_dir);
    assert_eq!(e.size, 7);
    assert_eq!(e.mtime, 42);
}

#[test]
fn update_path_skipped_is_dropped() {
    let db = "/tmp/les_core_test_update_skipped";
    let mut idx = Index::open(db).expect("open");
    idx.rebuild(vec![], &[]).expect("rebuild");
    let meta = FileMeta { is_dir: false, size: 1, mtime: 1 };
    idx.update_path("/tmp/x", &[], Some(meta)).expect("skip-list update");
    idx.update_path("/home/u/secret/x", &["secret".to_string()], Some(meta))
        .expect("exclude update");
    assert!(paths_of(&idx).is_empty());
}

#[test]
fn entries_survive_reopen() {
    let db = "/tmp/les_core_test_reopen";
    let mut idx = Index::open(db).expect("open");
    let walked = vec![
        entry("/z/deep/dir", true, 0, -5),
        entry("/z/deep/dir/file.bin", false, 12345, 99),
    ];
    idx.rebuild(walked, &[]).expect("rebuild");
    drop(idx);
    let reopened = Index::open(db).expect("reopen");
    assert_eq!(
        sorted_paths_of(&reopened),
        vec!["/z/deep/dir".to_string(), "/z/deep/dir/file.bin".to_string()]
    );
    let mut entries = reopened.entries.clone();
    entries.sort_by(|a, b| a.path.cmp(&b.path));
    assert!(entries[0].is_dir);
    assert_eq!(entries[0].mtime, -5);
    assert!(!entries[1].is_dir);
    assert_eq!(entries[1].size, 12345);
    assert_eq!(entries[1].mtime, 99);
}

#[test]
fn should_skip_default_roots_and_excludes() {
    assert!(les_core::query::should_skip("/proc/1/stat", &[]));
    assert!(les_core::query::should_skip("/tmp/x", &[]));
    assert!(les_core::query::should_skip("/var/lib/snapd/a", &[]));
    assert!(!les_core::query::should_skip("/home/u/file", &[]));
    assert!(les_core::query::should_skip("/home/u/node_modules/a", &["node_modules".to_string()]));
    assert!(!les_core::query::should_skip("/home/u/src/a", &["node_modules".to_string()]));
}

#[test]
fn meta_codec_round_trips() {
    let cases: Vec<(bool, u64, i64)> = vec![
        (false, 0, 0),
        (true, 0, 500),
        (false, 100, 1000),
        (false, u64::MAX, i64::MAX),
        (true, 1, i64::MIN),
        (false, 50, -2000),
    ];
    for (is_dir, size, mtime) in cases {
        let rec = les_core::codec::encode_meta(is_dir, size, mtime);
        assert_eq!(rec.len(), 17);
        let back = les_core::codec::decode_meta(&rec).expect("decode");
        assert_eq!(back, (is_dir, size, mtime));
    }
    assert!(les_core::codec::decode_meta(&vec![0u8; 16]).is_none());
    assert!(les_core::codec::decode_meta(&vec![9u8; 17]).is_none());
}

#[test]
fn file_name_of_takes_last_component() {
    assert_eq!(les_core::strutil::file_name_of("/a/c.log"), "c.log");
    assert_eq!(les_core::strutil::file_name_of("plain"), "plain");
    assert_eq!(les_core::strutil::file_name_of("/a/b/"), "");
}

#[test]
fn storage_error_when_store_is_locked() {
    let db = "/tmp/les_core_test_locked";
    let held = Index::open(db).expect("open");
    assert!(Index::open(db).is_err());
    drop(held);
}
