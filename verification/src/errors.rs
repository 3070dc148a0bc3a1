//! Error taxonomy of the storage engine.

use vstd::prelude::*;

verus! {

/// One variant per failure class of the engine.
///
/// - `Encoding`: the codec could not be configured, or the input buffer is
///   beyond what the machine can shard (a capacity check); fatal, not retried.
/// - `Reconstruction`: fewer than `k` shards were present, or the present
///   shards disagree on their length; the object is unavailable or corrupt.
/// - `ShardIo`: a read, write or delete failed for a reason other than the
///   shard being absent; surfaced, never silently swallowed.
/// - `NotFound`: a shard slot was already missing while deleting an object.
///
/// A shard that is merely absent during a get is *not* an error: the store
/// reports it as [`crate::store::ReadOutcome::Absent`] and the codec tolerates
/// up to `m` absences per object.
#[derive(Clone, Copy, Debug, PartialEq, Eq, Structural)]
pub enum StorageError {
    Encoding,
    Reconstruction,
    ShardIo,
    NotFound,
}

} // verus!
