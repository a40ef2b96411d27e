//! Placement policy: which segment of a pool receives a key.

use vstd::prelude::*;

verus! {

/// Why a key could not be placed.
#[derive(Debug, Clone, Copy, PartialEq, Eq)]
pub enum AllocErr {
    /// The pool has no segment at all.
    NoSegments,
    /// The chosen segment id is not below the pool's segment count.
    OutOfRange(u64, u64),
    /// The segment cannot take that many more bytes.
    SegmentFull(u64),
}

/// Maps a value to a placement decision `O`, or fails with `E`.
pub trait Allocator<V, O, E> {
    fn allocate(&mut self, value: V) -> Result<O, E>;
}

/// The segment that hash-mod-k routing gives `key` among `segments` segments.
pub open spec fn route_of(segments: u64, key: u64) -> Result<u64, AllocErr> {
    if segments == 0 {
        Err(AllocErr::NoSegments)
    } else {
        Ok(key % segments)
    }
}

/// The default policy: a key is its own hash, reduced modulo the segment count.
#[derive(Debug, Clone, Copy)]
pub struct HashModAllocator {
    pub segments: u64,
}

impl HashModAllocator {
    pub fn new(segments: u64) -> (r: HashModAllocator)
        ensures
            r.segments == segments,
    {
        HashModAllocator { segments }
    }

    pub fn route(&self, key: u64) -> (r: Result<u64, AllocErr>)
        ensures
            r == route_of(self.segments, key),
            r.is_ok() ==> r.unwrap() < self.segments,
    {
        if self.segments == 0 {
            Err(AllocErr::NoSegments)
        } else {
            Ok(key % self.segments)
        }
    }
}

impl Allocator<u64, u64, AllocErr> for HashModAllocator {
    fn allocate(&mut self, value: u64) -> Result<u64, AllocErr> {
        self.route(value)
    }
}

} // verus!
