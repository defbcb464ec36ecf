//! A filename/metadata index with a persistent mirror: entries describe
//! filesystem objects, an `Index` keeps them in memory and in an embedded
//! on-disk store, and a query engine filters them by kind, size, mtime,
//! roots, excludes and a pattern (glob, regex or case-insensitive substring).

pub mod codec;
pub mod store;
pub mod index;
pub mod matcher;
pub mod query;
pub mod seqs;
pub mod strutil;

pub use index::Index;
pub use matcher::{Matcher, PatternError};
pub use store::StorageError;
pub use query::{FileEntry, FileMeta, PatternMode, Query, QueryResult};
