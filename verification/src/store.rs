//! The persistent mirror: an embedded ordered key-value store on disk,
//! holding one named collection that maps a path (as its UTF-8 bytes) to
//! the entry's 17-byte metadata record. The store is outside code; its
//! contents are named by `store_map`, and every operation the index uses
//! is a wrapper whose contract speaks over that name. Distinct path
//! strings give distinct UTF-8 keys, so the map is keyed by characters.

use vstd::prelude::*;

verus! {

/// The store cannot be opened, read or written.
#[derive(Debug)]
pub struct StorageError {
    pub message: String,
}

/// A handle on the on-disk collection, opaque to the verifier.
#[verifier::external_body]
pub struct Store {
    tree: sled::Tree,
}

/// What the collection holds on disk: each path's stored record.
pub uninterp spec fn store_map(s: Store) -> Map<Seq<char>, Seq<u8>>;

/// A store with nothing in it.
pub open spec fn empty_store() -> Map<Seq<char>, Seq<u8>> {
    Map::empty()
}

impl Store {
    /// Relies on sled::open and sled::Db::open_tree: opens or creates the
    /// store at `path` and its collection named `entries`. What it holds
    /// depends on the disk, so nothing is said of the contents.
    #[verifier::external_body]
    pub fn open(path: &str) -> Result<Store, StorageError> {
        let db = sled::open(path).map_err(|e| StorageError { message: e.to_string() })?;
        let tree = db.open_tree("entries").map_err(
            |e| StorageError { message: e.to_string() },
        )?;
        Ok(Store { tree })
    }

    /// Relies on sled::Tree::iter: yields every key-value pair exactly
    /// once, keys distinct. Each key is decoded exactly from UTF-8, so
    /// distinct byte keys stay distinct strings; a key that is not valid
    /// UTF-8 is corruption and fails the load. The pairs, read in order,
    /// rebuild the collection's map with no key repeated.
    #[verifier::external_body]
    pub fn load(&self) -> (r: Result<Vec<(String, Vec<u8>)>, StorageError>)
        ensures
            r matches Ok(pairs) ==> pairs_map(pairs@) == store_map(*self),
            r matches Ok(pairs) ==> forall|i: int, j: int|
                0 <= i < j < pairs@.len() ==> pairs@[i].0@ != pairs@[j].0@,
    {
        let mut out = Vec::new();
        for item in self.tree.iter() {
            let (k, v) = item.map_err(|e| StorageError { message: e.to_string() })?;
            let key = std::str::from_utf8(&k)
                .map_err(|_| StorageError { message: "non-UTF-8 key".to_owned() })?;
            out.push((key.to_owned(), v.to_vec()));
        }
        Ok(out)
    }

    /// Relies on sled::Tree::insert: on success the collection maps the key
    /// to the given value; a single-key write touches no other key on any
    /// outcome.
    #[verifier::external_body]
    pub fn insert(&mut self, key: &str, val: &[u8]) -> (r: Result<(), StorageError>)
        ensures
            r is Ok ==> store_map(*final(self)) == store_map(*old(self)).insert(key@, val@),
            store_map(*final(self)).remove(key@) == store_map(*old(self)).remove(key@),
    {
        self.tree.insert(key.as_bytes(), val).map(|_| ()).map_err(
            |e| StorageError { message: e.to_string() },
        )
    }

    /// Relies on sled::Tree::remove: on success the collection no longer
    /// holds the key; a single-key write touches no other key on any
    /// outcome.
    #[verifier::external_body]
    pub fn remove(&mut self, key: &str) -> (r: Result<(), StorageError>)
        ensures
            r is Ok ==> store_map(*final(self)) == store_map(*old(self)).remove(key@),
            store_map(*final(self)).remove(key@) == store_map(*old(self)).remove(key@),
    {
        self.tree.remove(key.as_bytes()).map(|_| ()).map_err(
            |e| StorageError { message: e.to_string() },
        )
    }

    /// Relies on sled::Tree::clear: on success the collection is empty.
    #[verifier::external_body]
    pub fn clear(&mut self) -> (r: Result<(), StorageError>)
        ensures
            r is Ok ==> store_map(*final(self)) == empty_store(),
    {
        self.tree.clear().map_err(|e| StorageError { message: e.to_string() })
    }

    /// Relies on sled::Tree::flush: makes earlier writes durable and leaves
    /// the contents as they were.
    #[verifier::external_body]
    pub fn flush(&mut self) -> (r: Result<(), StorageError>)
        ensures
            store_map(*final(self)) == store_map(*old(self)),
    {
        self.tree.flush().map(|_| ()).map_err(|e| StorageError { message: e.to_string() })
    }
}

/// The map that a sequence of key-value pairs spells out, later pairs
/// overriding earlier ones.
pub open spec fn pairs_map(s: Seq<(String, Vec<u8>)>) -> Map<Seq<char>, Seq<u8>>
    decreases s.len(),
{
    if s.len() == 0 {
        Map::empty()
    } else {
        pairs_map(s.drop_last()).insert(s.last().0@, s.last().1@)
    }
}

} // verus!
