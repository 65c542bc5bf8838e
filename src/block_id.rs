use vstd::prelude::*;

verus! {

/// Names a fixed-size block by the file that holds it and its zero-based
/// position within that file.
#[derive(Debug, Clone, PartialEq, Eq, Hash)]
pub struct BlockId {
    /// Path of the file, relative to the storage root.
    pub filename: String,
    /// Zero-based block number within the file.
    pub number: u32,
}

impl BlockId {
    /// Builds the identifier of block `number` of `filename`, keeping the name verbatim.
    pub fn new(filename: &str, number: u32) -> (r: BlockId)
        ensures
            r.filename@ == filename@,
            r.number == number,
    {
        BlockId { filename: filename.to_owned(), number }
    }
}

} // verus!
