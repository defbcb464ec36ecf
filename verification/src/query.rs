//! Shared data model: entries, queries, query results, and the filter
//! pipeline's predicates, together with the built-in skip rules that the
//! walk and the incremental update both honour.

use vstd::prelude::*;

use crate::strutil::{
    contains_seq, last_component, lower_of, spec_starts_with, str_contains, str_starts_with,
};

verus! {

/// One indexed filesystem object: its path, kind, size and mtime
/// (modification time, in epoch seconds).
#[derive(Debug)]
pub struct FileEntry {
    pub path: String,
    pub is_dir: bool,
    pub size: u64,
    pub mtime: i64,
}

impl Clone for FileEntry {
    fn clone(&self) -> (r: Self)
        ensures
            r == *self,
    {
        FileEntry {
            path: self.path.clone(),
            is_dir: self.is_dir,
            size: self.size,
            mtime: self.mtime,
        }
    }
}

/// How a query's pattern is interpreted.
#[derive(Debug, Clone, Copy, PartialEq, Eq, Structural)]
pub enum PatternMode {
    Glob,
    Regex,
    Substr,
}

/// A client-supplied filter specification.
#[derive(Debug)]
pub struct Query {
    pub pattern: String,
    pub mode: PatternMode,
    pub files_only: bool,
    pub dirs_only: bool,
    pub roots: Vec<String>,
    pub exclude: Vec<String>,
    pub min_size: Option<u64>,
    pub max_size: Option<u64>,
    pub min_mtime: Option<i64>,
    pub max_mtime: Option<i64>,
    /// Optional content pattern: when set, directories never match, and the
    /// caller checks each returned file's contents for this string.
    pub content: Option<String>,
}

/// An ordered sequence of matching entries, in the index's storage order.
#[derive(Debug)]
pub struct QueryResult {
    pub entries: Vec<FileEntry>,
}

/// Metadata read for one path, handed in by the caller that stats the file.
#[derive(Debug, Clone, Copy)]
pub struct FileMeta {
    pub is_dir: bool,
    pub size: u64,
    pub mtime: i64,
}

impl FileMeta {
    /// Metadata as the index records it: a directory's size is zero.
    pub fn new(is_dir: bool, size: u64, mtime: i64) -> (r: FileMeta)
        ensures
            r.is_dir == is_dir,
            r.mtime == mtime,
            r.size == (if is_dir {
                0u64
            } else {
                size
            }),
    {
        FileMeta { is_dir, size: if is_dir { 0 } else { size }, mtime }
    }
}

/// The kind filter: files-only rejects directories, dirs-only rejects files.
pub open spec fn kind_ok(q: Query, e: FileEntry) -> bool {
    (!q.files_only || !e.is_dir) && (!q.dirs_only || e.is_dir)
}

/// The inclusive size bounds.
pub open spec fn size_ok(q: Query, e: FileEntry) -> bool {
    (q.min_size matches Some(m) ==> e.size >= m) && (q.max_size matches Some(m) ==> e.size <= m)
}

/// The inclusive mtime bounds.
pub open spec fn mtime_ok(q: Query, e: FileEntry) -> bool {
    (q.min_mtime matches Some(m) ==> e.mtime >= m) && (q.max_mtime matches Some(m) ==> e.mtime
        <= m)
}

/// The root filter: vacuous when no roots are given; otherwise some root
/// must be a prefix of the path, or be the root directory itself.
pub open spec fn roots_ok(q: Query, e: FileEntry) -> bool {
    q.roots@.len() == 0 || exists|i: int|
        0 <= i < q.roots@.len() && (spec_starts_with(e.path@, #[trigger] q.roots@[i]@)
            || q.roots@[i]@ == "/"@)
}

/// Some member of `excludes` occurs in `path`.
pub open spec fn hits_exclude(path: Seq<char>, excludes: Seq<String>) -> bool {
    exists|i: int| 0 <= i < excludes.len() && contains_seq(path, #[trigger] excludes[i]@)
}

/// The pattern stage of the pipeline: a glob is matched against the final
/// path component (a path without one, ending in a slash, never matches),
/// a regex against the full path, and a substring pattern
/// case-insensitively against the full path.
pub open spec fn pattern_matches(mode: PatternMode, pattern: Seq<char>, path: Seq<char>) -> bool {
    match mode {
        PatternMode::Glob => last_component(path).len() > 0 && crate::matcher::glob_match(
            pattern,
            last_component(path),
        ),
        PatternMode::Regex => crate::matcher::regex_match(pattern, path),
        PatternMode::Substr => contains_seq(lower_of(path), lower_of(pattern)),
    }
}

/// When a content pattern is set, directories never match. The containment
/// check over a file's bytes is the caller's: it does not bear on this
/// predicate.
pub open spec fn content_kind_ok(q: Query, e: FileEntry) -> bool {
    q.content is Some ==> !e.is_dir
}

/// The whole filter pipeline on one entry, content containment excepted.
pub open spec fn entry_accepted(q: Query, e: FileEntry) -> bool {
    kind_ok(q, e) && size_ok(q, e) && mtime_ok(q, e) && roots_ok(q, e) && !hits_exclude(
        e.path@,
        q.exclude@,
    ) && pattern_matches(q.mode, q.pattern@, e.path@) && content_kind_ok(q, e)
}

/// The acceptance predicate of a query, as a value, so that one closure
/// stands for it everywhere.
pub open spec fn accepted_by(q: Query) -> spec_fn(FileEntry) -> bool {
    |e: FileEntry| entry_accepted(q, e)
}

/// A path under one of the fixed virtual or ephemeral filesystem roots that
/// the index never records.
pub open spec fn spec_default_skipped(path: Seq<char>) -> bool {
    spec_starts_with(path, "/proc"@) || spec_starts_with(path, "/sys"@) || spec_starts_with(
        path,
        "/dev"@,
    ) || spec_starts_with(path, "/run"@) || spec_starts_with(path, "/tmp"@) || spec_starts_with(
        path,
        "/var/run"@,
    ) || spec_starts_with(path, "/var/tmp"@) || spec_starts_with(path, "/var/cache"@)
        || spec_starts_with(path, "/var/lib/snapd"@)
}

/// A path the index leaves out: under a built-in skip root, or holding a
/// caller-supplied exclude substring.
pub open spec fn spec_should_skip(path: Seq<char>, excludes: Seq<String>) -> bool {
    spec_default_skipped(path) || hits_exclude(path, excludes)
}

/// The content stage on one candidate: a directory never matches, a file
/// matches when the text read for it holds the content string. The caller
/// reads the file and treats one it cannot read as a non-match.
pub fn content_stage_keeps(is_dir: bool, text: &str, needle: &str) -> (r: bool)
    ensures
        r == (!is_dir && contains_seq(text@, needle@)),
{
    !is_dir && str_contains(text, needle)
}

/// The exclude filter dominates the pattern: an entry whose path holds an
/// exclude substring is never accepted, whatever the pattern would say.
pub proof fn lemma_exclude_dominates(q: Query, e: FileEntry)
    requires
        hits_exclude(e.path@, q.exclude@),
    ensures
        !entry_accepted(q, e),
{
}

/// With a content pattern set, a directory entry is never accepted: the
/// content filter never matches directories.
pub proof fn lemma_content_rejects_dirs(q: Query, e: FileEntry)
    requires
        q.content is Some,
        e.is_dir,
    ensures
        !entry_accepted(q, e),
{
}

/// Whether a walked or updated path is left out of the index.
pub fn should_skip(path: &str, excludes: &[String]) -> (r: bool)
    ensures
        r == spec_should_skip(path@, excludes@),
{
    if str_starts_with(path, "/proc") || str_starts_with(path, "/sys") || str_starts_with(
        path,
        "/dev",
    ) || str_starts_with(path, "/run") || str_starts_with(path, "/tmp") || str_starts_with(
        path,
        "/var/run",
    ) || str_starts_with(path, "/var/tmp") || str_starts_with(path, "/var/cache")
        || str_starts_with(path, "/var/lib/snapd") {
        return true;
    }
    let n = excludes.len();
    let mut i: usize = 0;
    while i < n
        invariant
            i <= n,
            n == excludes@.len(),
            forall|k: int| 0 <= k < i ==> !contains_seq(path@, #[trigger] excludes@[k]@),
            !spec_default_skipped(path@),
        decreases n - i,
    {
        if str_contains(path, excludes[i].as_str()) {
            return true;
        }
        i = i + 1;
    }
    false
}

} // verus!
