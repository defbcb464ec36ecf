use les_core::{FileEntry, Index, PatternMode, Query};

fn entry(path: &str, is_dir: bool, size: u64, mtime: i64) -> FileEntry {
    FileEntry { path: path.to_string(), is_dir, size, mtime }
}

fn sample_entries() -> Vec<FileEntry> {
    vec![
        entry("/a/b.txt", false, 100, 1000),
        entry("/a/c.log", false, 50, 2000),
        entry("/a", true, 0, 500),
    ]
}

fn base_query(pattern: &str, mode: PatternMode) -> Query {
    Query {
        pattern: pattern.to_string(),
        mode,
        files_only: false,
        dirs_only: false,
        roots: vec![],
        exclude: vec![],
        min_size: None,
        max_size: None,
        min_mtime: None,
        max_mtime: None,
        content: None,
    }
}

fn fresh_index(name: &str) -> Index {
    let path = format!("/tmp/les_core_test_{name}");
    let mut idx = Index::open(&path).expect("open index store");
    idx.rebuild(sample_entries(), &[]).expect("rebuild");
    idx
}

fn result_paths(idx: &Index, q: &Query) -> Vec<String> {
    idx.run_query(q).expect("query").entries.into_iter().map(|e| e.path).collect()
}

#[test]
fn scenario_substr_files_only() {
    let idx = fresh_index("substr_files_only");
    let mut q = base_query("b", PatternMode::Substr);
    q.files_only = true;
    assert_eq!(result_paths(&idx, &q), vec!["/a/b.txt".to_string()]);
}

#[test]
fn scenario_glob_matches_filename_only() {
    let idx = fresh_index("glob_filename");
    let q = base_query("*.log", PatternMode::Glob);
    assert_eq!(result_paths(&idx, &q), vec!["/a/c.log".to_string()]);
}

#[test]
fn scenario_min_size_bound() {
    let idx = fresh_index("min_size");
    let mut q = base_query("", PatternMode::Substr);
    q.min_size = Some(60);
    let got = result_paths(&idx, &q);
    assert!(got.contains(&"/a/b.txt".to_string()));
    assert!(!got.contains(&"/a/c.log".to_string()));
}

#[test]
fn scenario_exclude_dominates_pattern() {
    let idx = fresh_index("exclude_dominates");
    let mut q = base_query("", PatternMode::Substr);
    q.exclude = vec!["/a/c".to_string()];
    let got = result_paths(&idx, &q);
    assert!(!got.contains(&"/a/c.log".to_string()));
    assert!(got.contains(&"/a/b.txt".to_string()));
}

#[test]
fn scenario_roots_narrow_prefix() {
    let idx = fresh_index("roots_narrow");
    let mut q = base_query("", PatternMode::Substr);
    q.roots = vec!["/a/b".to_string()];
    assert_eq!(result_paths(&idx, &q), vec!["/a/b.txt".to_string()]);
}

#[test]
fn root_filter_prefix_and_slash() {
    let idx = fresh_index("root_prefix_slash");
    let mut q = base_query("b.txt", PatternMode::Substr);
    q.roots = vec!["/a".to_string()];
    assert_eq!(result_paths(&idx, &q), vec!["/a/b.txt".to_string()]);
    q.roots = vec!["/".to_string()];
    assert_eq!(result_paths(&idx, &q), vec!["/a/b.txt".to_string()]);
    q.roots = vec!["/x".to_string()];
    assert!(result_paths(&idx, &q).is_empty());
}

#[test]
fn empty_substr_returns_everything() {
    let idx = fresh_index("empty_substr_all");
    let q = base_query("", PatternMode::Substr);
    let got = result_paths(&idx, &q);
    assert_eq!(got.len(), 3);
}

#[test]
fn empty_substr_kind_filters_still_apply() {
    let idx = fresh_index("empty_substr_kind");
    let mut q = base_query("", PatternMode::Substr);
    q.dirs_only = true;
    assert_eq!(result_paths(&idx, &q), vec!["/a".to_string()]);
    q.dirs_only = false;
    q.files_only = true;
    let got = result_paths(&idx, &q);
    assert_eq!(got, vec!["/a/b.txt".to_string(), "/a/c.log".to_string()]);
}

#[test]
fn both_kind_flags_yield_nothing() {
    let idx = fresh_index("both_kind_flags");
    let mut q = base_query("", PatternMode::Substr);
    q.files_only = true;
    q.dirs_only = true;
    assert!(result_paths(&idx, &q).is_empty());
}

#[test]
fn substr_is_case_insensitive() {
    let path = "/tmp/les_core_test_case_insensitive";
    let mut idx = Index::open(path).expect("open");
    idx.rebuild(vec![entry("/Docs/Report.TXT", false, 5, 1)], &[]).expect("rebuild");
    let q = base_query("report.txt", PatternMode::Substr);
    assert_eq!(result_paths(&idx, &q), vec!["/Docs/Report.TXT".to_string()]);
    let q2 = base_query("REPORT", PatternMode::Substr);
    assert_eq!(result_paths(&idx, &q2), vec!["/Docs/Report.TXT".to_string()]);
}

#[test]
fn regex_matches_full_path() {
    let idx = fresh_index("regex_full_path");
    let q = base_query("^/a/c\\.log$", PatternMode::Regex);
    assert_eq!(result_paths(&idx, &q), vec!["/a/c.log".to_string()]);
    let q2 = base_query("b\\.t.t", PatternMode::Regex);
    assert_eq!(result_paths(&idx, &q2), vec!["/a/b.txt".to_string()]);
}

#[test]
fn invalid_patterns_are_errors() {
    let idx = fresh_index("invalid_patterns");
    let bad_regex = base_query("(", PatternMode::Regex);
    assert!(idx.run_query(&bad_regex).is_err());
    let bad_glob = base_query("a{", PatternMode::Glob);
    assert!(idx.run_query(&bad_glob).is_err());
}

#[test]
fn mtime_bounds_are_inclusive() {
    let idx = fresh_index("mtime_bounds");
    let mut q = base_query("", PatternMode::Substr);
    q.min_mtime = Some(1000);
    q.max_mtime = Some(2000);
    let got = result_paths(&idx, &q);
    assert_eq!(got, vec!["/a/b.txt".to_string(), "/a/c.log".to_string()]);
}

#[test]
fn content_query_never_returns_directories() {
    let idx = fresh_index("content_no_dirs");
    let mut q = base_query("", PatternMode::Substr);
    q.content = Some("anything".to_string());
    let got = result_paths(&idx, &q);
    assert!(!got.contains(&"/a".to_string()));
    assert_eq!(got, vec!["/a/b.txt".to_string(), "/a/c.log".to_string()]);
}

#[test]
fn content_stage_rejects_dirs_and_checks_text() {
    assert!(!les_core::query::content_stage_keeps(true, "needle here", "needle"));
    assert!(les_core::query::content_stage_keeps(false, "a needle here", "needle"));
    assert!(!les_core::query::content_stage_keeps(false, "nothing", "needle"));
}

#[test]
fn glob_never_matches_a_path_without_a_filename() {
    let path = "/tmp/les_core_test_glob_no_filename";
    let mut idx = Index::open(path).expect("open");
    idx.rebuild(vec![entry("/", true, 0, 1), entry("/etc", true, 0, 1)], &[]).expect("rebuild");
    let q = base_query("*", PatternMode::Glob);
    assert_eq!(result_paths(&idx, &q), vec!["/etc".to_string()]);
}

#[test]
fn file_meta_new_zeroes_directory_size() {
    let dir = les_core::FileMeta::new(true, 4096, 7);
    assert!(dir.is_dir);
    assert_eq!(dir.size, 0);
    assert_eq!(dir.mtime, 7);
    let file = les_core::FileMeta::new(false, 4096, 7);
    assert_eq!(file.size, 4096);
}
