//! The index: an in-memory entry collection mirrored by the persistent
//! store. It is rebuilt from a full walk, reconciled one path at a time as
//! the filesystem changes, and queried read-only through the filter
//! pipeline.

use vstd::prelude::*;

use crate::codec::{encode_meta, spec_encode_meta};
use crate::matcher::{pattern_ok, Matcher, PatternError};
use crate::query::{
    accepted_by, entry_accepted, kind_ok, spec_should_skip, should_skip, FileEntry, FileMeta,
    Query, QueryResult,
};
use crate::seqs::{lemma_filter_agree, lemma_filter_in_source, lemma_filter_none,
    lemma_filter_push};
use crate::store::{empty_store, pairs_map, store_map, StorageError, Store};
use crate::strutil::contains_seq;

verus! {

/// The stored record of an entry's metadata.
pub open spec fn entry_record(e: FileEntry) -> Seq<u8> {
    spec_encode_meta(e.is_dir, e.size, e.mtime)
}

/// The map that a sequence of entries spells out in the store: each path to
/// its record, later entries overriding earlier ones.
pub open spec fn entries_map(s: Seq<FileEntry>) -> Map<Seq<char>, Seq<u8>>
    decreases s.len(),
{
    if s.len() == 0 {
        Map::empty()
    } else {
        entries_map(s.drop_last()).insert(s.last().path@, entry_record(s.last()))
    }
}

/// No two entries share a path.
pub open spec fn distinct_paths(s: Seq<FileEntry>) -> bool {
    forall|i: int, j: int|
        0 <= i < j < s.len() ==> (#[trigger] s[i]).path@ != (#[trigger] s[j]).path@
}

/// Keeps every entry whose path is not `p`.
pub open spec fn keeps_path(p: Seq<char>) -> spec_fn(FileEntry) -> bool {
    |e: FileEntry| e.path@ != p
}

/// Keeps every entry whose path is `p`.
pub open spec fn has_path(p: Seq<char>) -> spec_fn(FileEntry) -> bool {
    |e: FileEntry| e.path@ == p
}

/// Keeps every walked entry that the skip rules let through.
pub open spec fn kept_by_walk(excludes: Seq<String>) -> spec_fn(FileEntry) -> bool {
    |e: FileEntry| !spec_should_skip(e.path@, excludes)
}

/// The entries a rebuild retains from a walk, in walk order.
pub open spec fn walk_kept(walked: Seq<FileEntry>, excludes: Seq<String>) -> Seq<FileEntry> {
    walked.filter(kept_by_walk(excludes))
}

/// `e` is the entry that reconciling `path` with metadata `m` records.
pub open spec fn made_entry(path: Seq<char>, m: FileMeta, e: FileEntry) -> bool {
    e.path@ == path && e.is_dir == m.is_dir && e.size == m.size && e.mtime == m.mtime
}

/// Keeps only the kind filter of a query: what an otherwise empty query
/// leaves to decide.
pub open spec fn kind_only(q: Query) -> spec_fn(FileEntry) -> bool {
    |e: FileEntry| kind_ok(q, e)
}

/// A query with an empty case-insensitive substring pattern and no root,
/// exclude, size, mtime or content constraint.
pub open spec fn unconstrained_but_kind(q: Query) -> bool {
    q.mode is Substr && q.pattern@.len() == 0 && q.roots@.len() == 0 && q.exclude@.len() == 0
        && q.min_size is None && q.max_size is None && q.min_mtime is None && q.max_mtime is None
        && q.content is None
}

/// The index: the in-memory entries and the on-disk mirror.
pub struct Index {
    pub entries: Vec<FileEntry>,
    pub store: Store,
}

impl Index {
    /// At most one entry per distinct path.
    pub open spec fn wf(self) -> bool {
        distinct_paths(self.entries@)
    }

    /// The store holds exactly the records of the in-memory entries.
    pub open spec fn mirrors(self) -> bool {
        store_map(self.store) == entries_map(self.entries@)
    }

    /// Open or create the store at `db_path` and load every persisted entry
    /// into memory. Fails when the store cannot be opened or a stored
    /// record is corrupt.
    pub fn open(db_path: &str) -> (r: Result<Index, StorageError>)
        ensures
            r matches Ok(idx) ==> idx.wf() && idx.mirrors(),
    {
        let store = match Store::open(db_path) {
            Ok(s) => s,
            Err(e) => { return Err(e); },
        };
        let pairs = match store.load() {
            Ok(p) => p,
            Err(e) => { return Err(e); },
        };
        let mut entries: Vec<FileEntry> = Vec::new();
        let n = pairs.len();
        let mut i: usize = 0;
        while i < n
            invariant
                i <= n,
                n == pairs@.len(),
                entries@.len() == i,
                entries_map(entries@) == pairs_map(pairs@.subrange(0, i as int)),
                forall|k: int| 0 <= k < i ==> (#[trigger] entries@[k]).path@ == pairs@[k].0@,
            decreases n - i,
        {
            let rec = match crate::codec::decode_meta(&pairs[i].1) {
                Some(t) => t,
                None => {
                    return Err(
                        StorageError { message: "corrupt entry record".to_owned() },
                    );
                },
            };
            let e = FileEntry {
                path: pairs[i].0.clone(),
                is_dir: rec.0,
                size: rec.1,
                mtime: rec.2,
            };
            let ghost prev = entries@;
            entries.push(e);
            proof {
                assert(entries@.drop_last() =~= prev);
                assert(pairs@.subrange(0, i + 1).drop_last() =~= pairs@.subrange(0, i as int));
                assert(pairs@.subrange(0, i + 1).last() == pairs@[i as int]);
                assert(entry_record(entries@.last()) == pairs@[i as int].1@);
            }
            i = i + 1;
        }
        proof {
            assert(pairs@.subrange(0, n as int) =~= pairs@);
        }
        Ok(Index { entries, store })
    }

    /// Replace everything with the surviving entries of a fresh walk: clear
    /// the store and the memory, keep each walked entry that the skip rules
    /// admit, write every kept record, and flush durably. The outcome
    /// depends only on the walk and the excludes, so an unchanged tree
    /// rebuilds to the same entry set.
    pub fn rebuild(&mut self, walked: Vec<FileEntry>, excludes: &[String]) -> (r: Result<
        (),
        StorageError,
    >)
        ensures
            r is Ok ==> final (self).entries@ == walk_kept(walked@, excludes@),
            r is Ok ==> final (self).mirrors(),
            r is Ok && distinct_paths(walked@) ==> final (self).wf(),
            r is Err ==> final (self).entries@ == old(self).entries@ || final (self).entries@
                == walk_kept(walked@, excludes@),
            old(self).wf() && distinct_paths(walked@) ==> final (self).wf(),
    {
        match self.store.clear() {
            Ok(()) => (),
            Err(e) => { return Err(e); },
        }
        self.entries = Vec::new();
        let n = walked.len();
        let mut i: usize = 0;
        while i < n
            invariant
                i <= n,
                n == walked@.len(),
                store_map(self.store) == empty_store(),
                self.entries@ == walk_kept(walked@.subrange(0, i as int), excludes@),
            decreases n - i,
        {
            let ghost prefix = walked@.subrange(0, i as int);
            if !should_skip(walked[i].path.as_str(), excludes) {
                self.entries.push(walked[i].clone());
            }
            proof {
                lemma_filter_push(prefix, kept_by_walk(excludes@), walked@[i as int]);
                assert(prefix.push(walked@[i as int]) =~= walked@.subrange(0, i + 1));
            }
            i = i + 1;
        }
        proof {
            assert(walked@.subrange(0, n as int) =~= walked@);
            if distinct_paths(walked@) {
                lemma_filter_distinct_paths(walked@, kept_by_walk(excludes@));
            }
        }
        let m = self.entries.len();
        let mut j: usize = 0;
        while j < m
            invariant
                j <= m,
                m == self.entries@.len(),
                self.entries@ == walk_kept(walked@, excludes@),
                distinct_paths(walked@) ==> distinct_paths(self.entries@),
                store_map(self.store) == entries_map(self.entries@.subrange(0, j as int)),
            decreases m - j,
        {
            let rec = encode_meta(
                self.entries[j].is_dir,
                self.entries[j].size,
                self.entries[j].mtime,
            );
            let outcome = self.store.insert(self.entries[j].path.as_str(), rec.as_slice());
            match outcome {
                Ok(()) => (),
                Err(e) => { return Err(e); },
            }
            proof {
                assert(self.entries@.subrange(0, j + 1).drop_last() =~= self.entries@.subrange(
                    0,
                    j as int,
                ));
                assert(self.entries@.subrange(0, j + 1).last() == self.entries@[j as int]);
            }
            j = j + 1;
        }
        match self.store.flush() {
            Ok(()) => (),
            Err(e) => { return Err(e); },
        }
        proof {
            assert(self.entries@.subrange(0, m as int) =~= self.entries@);
        }
        Ok(())
    }

    /// Reconcile one path against the metadata the caller read for it. Any
    /// in-memory entry for the path goes first. A skipped or vanished path
    /// loses its stored record; a present one has a fresh entry persisted
    /// and flushed before it is appended in memory, so a record that fails
    /// to persist is never visible. The error of a failed store write is
    /// returned for the caller to log.
    pub fn update_path(&mut self, path: &str, excludes: &[String], meta: Option<FileMeta>) -> (r:
        Result<(), StorageError>)
        ensures
            spec_should_skip(path@, excludes@) || meta is None ==> final (self).entries@ == old(
                self,
            ).entries@.filter(keeps_path(path@)),
            r is Err ==> final (self).entries@ == old(self).entries@.filter(keeps_path(path@)),
            r is Ok && !spec_should_skip(path@, excludes@) ==> (meta matches Some(m) ==> {
                let kept = old(self).entries@.filter(keeps_path(path@));
                final (self).entries@.len() == kept.len() + 1 && final (self).entries@.drop_last()
                    == kept && made_entry(path@, m, final (self).entries@.last())
            }),
            r is Ok && (spec_should_skip(path@, excludes@) || meta is None) ==> store_map(
                final (self).store,
            ) == store_map(old(self).store).remove(path@),
            r is Ok && !spec_should_skip(path@, excludes@) ==> (meta matches Some(m)
                ==> store_map(final (self).store) == store_map(old(self).store).insert(
                path@,
                spec_encode_meta(m.is_dir, m.size, m.mtime),
            )),
            r is Err ==> store_map(final (self).store).remove(path@) == store_map(
                old(self).store,
            ).remove(path@),
            old(self).wf() ==> final (self).wf(),
            r is Ok && old(self).wf() && old(self).mirrors() ==> final (self).mirrors(),
    {
        let owned: String = path.to_owned();
        let mut kept_vec: Vec<FileEntry> = Vec::new();
        let n = self.entries.len();
        let mut i: usize = 0;
        while i < n
            invariant
                i <= n,
                n == self.entries@.len(),
                self.entries@ == old(self).entries@,
                owned@ == path@,
                kept_vec@ == self.entries@.subrange(0, i as int).filter(keeps_path(path@)),
            decreases n - i,
        {
            let ghost prefix = self.entries@.subrange(0, i as int);
            if !(self.entries[i].path == owned) {
                kept_vec.push(self.entries[i].clone());
            }
            proof {
                lemma_filter_push(prefix, keeps_path(path@), self.entries@[i as int]);
                assert(prefix.push(self.entries@[i as int]) =~= self.entries@.subrange(0, i + 1));
            }
            i = i + 1;
        }
        proof {
            assert(self.entries@.subrange(0, n as int) =~= self.entries@);
            if old(self).wf() {
                lemma_filter_distinct_paths(old(self).entries@, keeps_path(path@));
            }
        }
        self.entries = kept_vec;
        let ghost kept = old(self).entries@.filter(keeps_path(path@));
        proof {
            if old(self).wf() && old(self).mirrors() {
                lemma_entries_map_remove(old(self).entries@, path@);
            }
            assert forall|k: int| 0 <= k < kept.len() implies (#[trigger] kept[k]).path@
                != path@ by {
                assert(keeps_path(path@)(kept[k])) by {
                    old(self).entries@.lemma_filter_pred(keeps_path(path@), k);
                }
            }
        }
        if should_skip(path, excludes) || meta.is_none() {
            match self.store.remove(path) {
                Ok(()) => (),
                Err(e) => { return Err(e); },
            }
            match self.store.flush() {
                Ok(()) => (),
                Err(e) => {
                    proof {
                        assert(store_map(self.store).remove(path@) =~= store_map(
                            old(self).store,
                        ).remove(path@));
                    }
                    return Err(e);
                },
            }
            return Ok(());
        }
        let m = meta.unwrap();
        let rec = encode_meta(m.is_dir, m.size, m.mtime);
        match self.store.insert(path, rec.as_slice()) {
            Ok(()) => (),
            Err(e) => { return Err(e); },
        }
        match self.store.flush() {
            Ok(()) => (),
            Err(e) => {
                proof {
                    assert(store_map(self.store).remove(path@) =~= store_map(
                        old(self).store,
                    ).remove(path@));
                }
                return Err(e);
            },
        }
        let e = FileEntry { path: owned, is_dir: m.is_dir, size: m.size, mtime: m.mtime };
        let ghost before = self.entries@;
        self.entries.push(e);
        proof {
            assert(self.entries@.drop_last() =~= before);
            if old(self).wf() && old(self).mirrors() {
                assert(entries_map(self.entries@) == entries_map(kept).insert(
                    path@,
                    entry_record(self.entries@.last()),
                ));
                assert(entries_map(kept).insert(path@, entry_record(self.entries@.last()))
                    =~= store_map(self.store));
            }
        }
        Ok(())
    }

    /// Run a query against the entries now in memory: compile the pattern
    /// once, then keep, in storage order, every entry the whole pipeline
    /// accepts. Fails exactly when the pattern does not compile under its
    /// mode. With an empty substring pattern and no other constraint, the
    /// kind filters alone decide.
    pub fn run_query(&self, q: &Query) -> (r: Result<QueryResult, PatternError>)
        ensures
            r is Ok <==> pattern_ok(q.mode, q.pattern@),
            r matches Ok(qr) ==> qr.entries@ == self.entries@.filter(accepted_by(*q)),
            unconstrained_but_kind(*q) ==> (r matches Ok(qr) ==> qr.entries@
                == self.entries@.filter(kind_only(*q))),
    {
        let matcher = match Matcher::compile(q.mode, q.pattern.as_str()) {
            Ok(m) => m,
            Err(e) => { return Err(e); },
        };
        let mut out: Vec<FileEntry> = Vec::new();
        let n = self.entries.len();
        let mut i: usize = 0;
        while i < n
            invariant
                i <= n,
                n == self.entries@.len(),
                matcher.compiled_from(q.mode, q.pattern@),
                q.mode is Substr && q.pattern@.len() == 0 ==> (matcher matches Matcher::Substr(s)
                    && s@.len() == 0),
                out@ == self.entries@.subrange(0, i as int).filter(accepted_by(*q)),
            decreases n - i,
        {
            let ghost prefix = self.entries@.subrange(0, i as int);
            if entry_passes(q, &matcher, &self.entries[i]) {
                out.push(self.entries[i].clone());
            }
            proof {
                lemma_filter_push(prefix, accepted_by(*q), self.entries@[i as int]);
                assert(prefix.push(self.entries@[i as int]) =~= self.entries@.subrange(0, i + 1));
            }
            i = i + 1;
        }
        proof {
            assert(self.entries@.subrange(0, n as int) =~= self.entries@);
            if unconstrained_but_kind(*q) {
                let needle = matcher->Substr_0;
                assert forall|k: int| 0 <= k < self.entries@.len() implies accepted_by(*q)(
                    #[trigger] self.entries@[k],
                ) == kind_only(*q)(self.entries@[k]) by {
                    let e = self.entries@[k];
                    assert(contains_seq(crate::strutil::lower_of(e.path@), needle@)) by {
                        let hay = crate::strutil::lower_of(e.path@);
                        assert(hay.subrange(0, 0 + needle@.len() as int) =~= needle@);
                    }
                }
                lemma_filter_agree(self.entries@, accepted_by(*q), kind_only(*q));
            }
        }
        Ok(QueryResult { entries: out })
    }
}

/// One entry against the whole pipeline, the caller's content containment
/// excepted.
fn entry_passes(q: &Query, matcher: &Matcher, e: &FileEntry) -> (r: bool)
    requires
        matcher.compiled_from(q.mode, q.pattern@),
    ensures
        r == entry_accepted(*q, *e),
{
    if q.files_only && e.is_dir {
        return false;
    }
    if q.dirs_only && !e.is_dir {
        return false;
    }
    if let Some(min) = q.min_size {
        if e.size < min {
            return false;
        }
    }
    if let Some(max) = q.max_size {
        if e.size > max {
            return false;
        }
    }
    if let Some(min) = q.min_mtime {
        if e.mtime < min {
            return false;
        }
    }
    if let Some(max) = q.max_mtime {
        if e.mtime > max {
            return false;
        }
    }
    let nroots = q.roots.len();
    if nroots > 0 {
        let mut j: usize = 0;
        let mut found = false;
        while j < nroots
            invariant
                j <= nroots,
                nroots == q.roots@.len(),
                !found ==> forall|k: int|
                    0 <= k < j ==> !(crate::strutil::spec_starts_with(
                        e.path@,
                        (#[trigger] q.roots@[k])@,
                    ) || q.roots@[k]@ == "/"@),
                found ==> crate::query::roots_ok(*q, *e),
            decreases nroots - j,
        {
            if crate::strutil::str_starts_with(e.path.as_str(), q.roots[j].as_str())
                || crate::strutil::is_root_slash(q.roots[j].as_str()) {
                found = true;
                j = nroots;
            } else {
                j = j + 1;
            }
        }
        if !found {
            return false;
        }
    }
    let nex = q.exclude.len();
    let mut k: usize = 0;
    while k < nex
        invariant
            k <= nex,
            nex == q.exclude@.len(),
            forall|t: int| 0 <= t < k ==> !contains_seq(e.path@, (#[trigger] q.exclude@[t])@),
        decreases nex - k,
    {
        if crate::strutil::str_contains(e.path.as_str(), q.exclude[k].as_str()) {
            return false;
        }
        k = k + 1;
    }
    let hit = matcher.matches(e.path.as_str());
    proof {
        matcher.lemma_hits_pattern(q.mode, q.pattern@, e.path@);
    }
    if !hit {
        return false;
    }
    if q.content.is_some() && e.is_dir {
        return false;
    }
    true
}

/// Filtering keeps paths distinct: a subsequence of entries with no shared
/// path shares none either.
pub proof fn lemma_filter_distinct_paths(s: Seq<FileEntry>, pred: spec_fn(FileEntry) -> bool)
    requires
        distinct_paths(s),
    ensures
        distinct_paths(s.filter(pred)),
    decreases s.len(),
{
    reveal(Seq::filter);
    if s.len() == 0 {
    } else {
        let d = s.drop_last();
        assert(forall|i: int| 0 <= i < d.len() ==> #[trigger] d[i] == s[i]);
        lemma_filter_distinct_paths(d, pred);
        if pred(s.last()) {
            let f = d.filter(pred);
            assert forall|k: int| 0 <= k < f.len() implies (#[trigger] f[k]).path@
                != s.last().path@ by {
                assert(f.contains(f[k]));
                lemma_filter_in_source(d, pred, f[k]);
                let j = choose|j: int| 0 <= j < d.len() && d[j] == f[k];
                assert(s[j] == f[k]);
                assert(s.last() == s[s.len() - 1]);
            }
        }
    }
}

/// The records of entries with one path taken out are the records with that
/// key taken out.
pub proof fn lemma_entries_map_remove(s: Seq<FileEntry>, p: Seq<char>)
    requires
        distinct_paths(s),
    ensures
        entries_map(s.filter(keeps_path(p))) == entries_map(s).remove(p),
    decreases s.len(),
{
    reveal(Seq::filter);
    if s.len() == 0 {
        assert(entries_map(s).remove(p) =~= entries_map(s.filter(keeps_path(p))));
    } else {
        let d = s.drop_last();
        let x = s.last();
        assert(forall|i: int| 0 <= i < d.len() ==> #[trigger] d[i] == s[i]);
        lemma_entries_map_remove(d, p);
        if x.path@ != p {
            assert(s.filter(keeps_path(p)) == d.filter(keeps_path(p)).push(x));
            assert(entries_map(d.filter(keeps_path(p)).push(x)) == entries_map(
                d.filter(keeps_path(p)),
            ).insert(x.path@, entry_record(x))) by {
                assert(d.filter(keeps_path(p)).push(x).drop_last() =~= d.filter(keeps_path(p)));
            }
            assert(entries_map(d).remove(p).insert(x.path@, entry_record(x)) =~= entries_map(
                d,
            ).insert(x.path@, entry_record(x)).remove(p));
        } else {
            assert(s.filter(keeps_path(p)) == d.filter(keeps_path(p)));
            assert(entries_map(d).remove(p) =~= entries_map(d).insert(
                x.path@,
                entry_record(x),
            ).remove(p));
        }
    }
}

/// A query's result is exact: every returned entry passes the whole
/// pipeline, and every held entry that passes is returned. In particular an
/// entry the pipeline rejects — one hitting an exclude, or a directory
/// under a content pattern — is never returned.
pub proof fn lemma_query_result_exact(entries: Seq<FileEntry>, q: Query, out: Seq<FileEntry>)
    requires
        out == entries.filter(accepted_by(q)),
    ensures
        forall|k: int| 0 <= k < out.len() ==> entry_accepted(q, #[trigger] out[k]),
        forall|k: int|
            0 <= k < entries.len() && entry_accepted(q, #[trigger] entries[k]) ==> out.contains(
                entries[k],
            ),
{
    assert forall|k: int| 0 <= k < out.len() implies entry_accepted(q, #[trigger] out[k]) by {
        entries.lemma_filter_pred(accepted_by(q), k);
    }
    assert forall|k: int|
        0 <= k < entries.len() && entry_accepted(q, #[trigger] entries[k]) implies out.contains(
        entries[k],
    ) by {
        entries.lemma_filter_contains(accepted_by(q), k);
    }
}

/// Rebuilding is idempotent: two indexes rebuilt from the same walk and the
/// same excludes hold the same entries, whatever they held before.
pub proof fn lemma_rebuild_idempotent(
    a: Index,
    b: Index,
    walked: Seq<FileEntry>,
    excludes: Seq<String>,
)
    requires
        a.entries@ == walk_kept(walked, excludes),
        b.entries@ == walk_kept(walked, excludes),
    ensures
        a.entries@ == b.entries@,
{
}

/// After a path is reconciled away, no entry for it remains in memory; with
/// the store write acknowledged, `update_path`'s contract removes its
/// record too.
pub proof fn lemma_removed_path_gone(entries: Seq<FileEntry>, p: Seq<char>)
    ensures
        forall|k: int|
            0 <= k < entries.filter(keeps_path(p)).len() ==> (#[trigger] entries.filter(
                keeps_path(p),
            )[k]).path@ != p,
{
    assert forall|k: int| 0 <= k < entries.filter(keeps_path(p)).len() implies (
    #[trigger] entries.filter(keeps_path(p))[k]).path@ != p by {
        entries.lemma_filter_pred(keeps_path(p), k);
    }
}

/// After a present path is reconciled, exactly one entry for it stands in
/// memory: the fresh one, appended after every older entry for the path was
/// removed.
pub proof fn lemma_updated_path_unique(entries: Seq<FileEntry>, e: FileEntry)
    ensures
        entries.filter(keeps_path(e.path@)).push(e).filter(has_path(e.path@)) =~= seq![e],
{
    let kept = entries.filter(keeps_path(e.path@));
    lemma_filter_push(kept, has_path(e.path@), e);
    lemma_removed_path_gone(entries, e.path@);
    lemma_filter_none(kept, has_path(e.path@));
}

} // verus!
