//! The unit that moves through the pipeline: a path with the metadata the
//! stages accumulate for it.
use vstd::prelude::*;

verus! {

/// A file under consideration for duplicate matching.
///
/// `size`, `start_hash` and `full_hash` start out `None` and are filled in by
/// the size cull, the prefix-hash cull and the full-hash cull respectively; a
/// stage that could not obtain its datum for a file leaves the field `None`
/// and the file is dropped from the survivor set.
pub struct CandidateFile {
    pub path: String,
    pub size: Option<u64>,
    pub start_hash: Option<u64>,
    pub full_hash: Option<u64>,
}

impl CandidateFile {
    /// A fresh candidate for `path`, with no metadata yet.
    pub fn new(path: String) -> (c: CandidateFile)
        ensures
            c.path == path,
            c.size is None,
            c.start_hash is None,
            c.full_hash is None,
    {
        CandidateFile { path, size: None, start_hash: None, full_hash: None }
    }
}

impl Clone for CandidateFile {
    fn clone(&self) -> (c: Self)
        ensures
            c == *self,
    {
        CandidateFile {
            path: self.path.clone(),
            size: self.size,
            start_hash: self.start_hash,
            full_hash: self.full_hash,
        }
    }
}

} // verus!
