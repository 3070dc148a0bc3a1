//! Shard addressing, and the outcomes a durability layer reports.
//!
//! The store holds one standalone blob per shard.  A shard's blob is addressed
//! by a key derived from the object identifier and the shard index alone —
//! there is no index file, the key and the location are always recomputed.
//! The I/O itself (file or blob reads, writes, deletes) lives outside the
//! engine; it hands the outcomes below back to [`crate::pipeline`].

use crate::digits::padded_digits;
use crate::digits::push_padded_decimal;
use vstd::prelude::*;

verus! {

/// What one attempt to read a shard slot reported.
///
/// Absence is distinguished from every other failure on purpose: up to `m`
/// absent shards per object are expected and tolerable, while any other I/O
/// failure during a get is fatal to that request.
#[derive(Debug)]
pub enum ReadOutcome {
    /// The shard exists and these are its bytes.
    Present(Vec<u8>),
    /// The shard does not exist.
    Absent,
    /// The read failed for some other reason.
    Failed,
}

/// What one attempt to delete a shard slot reported.
#[derive(Clone, Copy, Debug, PartialEq, Eq, Structural)]
pub enum DeleteOutcome {
    /// The shard existed and was removed.
    Removed,
    /// The shard slot was already empty.
    Missing,
    /// The delete failed for some other reason.
    Failed,
}

/// The key of shard `i` of object `id`: the identifier, an underscore, the
/// two-digit zero-padded decimal index, and a `.bin` suffix.
pub open spec fn spec_shard_key(id: Seq<u8>, i: nat) -> Seq<u8> {
    id + seq![0x5fu8] + padded_digits(i) + seq![0x2eu8, 0x62u8, 0x69u8, 0x6eu8]
}

/// Derives the key under which shard `shard_index` of `object_id` is stored.
pub fn shard_key(object_id: &[u8], shard_index: usize) -> (r: Vec<u8>)
    ensures
        r@ == spec_shard_key(object_id@, shard_index as nat),
{
    let mut out: Vec<u8> = Vec::new();
    let mut p: usize = 0;
    while p < object_id.len()
        invariant
            p <= object_id.len(),
            out@ == object_id@.take(p as int),
        decreases object_id.len() - p,
    {
        out.push(object_id[p]);
        p = p + 1;
        assert(out@ =~= object_id@.take(p as int));
    }
    assert(out@ =~= object_id@);
    out.push(0x5f);
    push_padded_decimal(&mut out, shard_index);
    out.push(0x2e);
    out.push(0x62);
    out.push(0x69);
    out.push(0x6e);
    assert(out@ =~= spec_shard_key(object_id@, shard_index as nat));
    out
}

} // verus!
