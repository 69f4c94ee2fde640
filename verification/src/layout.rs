use vstd::prelude::*;

verus! {

/// Where a partition ended up on the disk, in bytes.
#[derive(Debug, PartialEq, Eq)]
pub struct ResolvedPartition {
    pub id: String,
    pub offset: u64,
    pub size: u64,
}

/// What a generated layout hands to its caller.
#[derive(Debug, PartialEq, Eq)]
pub struct LayoutResult {
    pub disk_size: u64,
    pub metadata_chunks: Vec<Chunk>,
    pub resolved_partitions: Vec<ResolvedPartition>,
}

/// A run of disk bytes starting at byte `offset`.
#[derive(Debug, PartialEq, Eq)]
pub struct Chunk {
    pub offset: u64,
    pub data: Vec<u8>,
}

} // verus!
