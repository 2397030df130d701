//! Errors reported by the library.
use vstd::prelude::*;

verus! {

/// What can go wrong when locating or reading journal entries.
#[derive(Debug)]
pub enum Error {
    /// No directory containing `.archelon/` was found.
    JournalNotFound,
    /// No entry matches the given identifier prefix.
    EntryNotFound(String),
    /// More than one entry matches the given identifier prefix.
    AmbiguousId(String, usize),
    /// The entry file is malformed.
    InvalidEntry(String),
}

} // verus!
