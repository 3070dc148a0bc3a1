//! The placement resolver: a pure map from shard identity to location.
//!
//! `resolve(id, i)` hashes the object identifier concatenated with the decimal
//! digits of the shard index, and reduces the hash modulo the configured
//! location count.  It is a mathematical function of its arguments — no state,
//! no I/O, no error conditions — so re-deriving a shard's location at get or
//! delete time yields the very location that put used, in any process and at
//! any time.  That determinism is the whole placement index of the system:
//! nothing else records where a shard went, which is also why the location
//! count must never change for objects already written.

use crate::digits::dec_digits;
use crate::digits::push_decimal;
use vstd::prelude::*;

verus! {

/// The offset basis of the 64-bit FNV-1a hash.
pub const FNV_OFFSET: u64 = 0xcbf2_9ce4_8422_2325;

/// The prime of the 64-bit FNV-1a hash.
pub const FNV_PRIME: u64 = 0x0000_0100_0000_01b3;

/// One step of FNV-1a: fold byte `b` into state `h`.
pub open spec fn fnv1a_step(h: u64, b: u8) -> u64 {
    (h ^ (b as u64)).wrapping_mul(FNV_PRIME)
}

/// The 64-bit FNV-1a hash of a byte sequence.
pub open spec fn fnv1a(bytes: Seq<u8>) -> u64
    decreases bytes.len(),
{
    if bytes.len() == 0 {
        FNV_OFFSET
    } else {
        fnv1a_step(fnv1a(bytes.drop_last()), bytes.last())
    }
}

/// The location of shard `i` of object `id` among `n` locations.
pub open spec fn spec_resolve(id: Seq<u8>, i: nat, n: nat) -> nat
    recommends
        n >= 1,
{
    (fnv1a(id + dec_digits(i)) as nat) % n
}

/// Resolves shard identities to one of a fixed number of storage locations.
///
/// The location count is fixed at construction; a deployment that changes it
/// must re-place every existing shard, so distinct counts are distinct
/// resolvers.
#[derive(Clone, Copy, Debug)]
pub struct PlacementResolver {
    pub locations: usize,
}

impl PlacementResolver {
    /// A resolver is usable once it has at least one location to choose from.
    pub open spec fn wf(&self) -> bool {
        self.locations >= 1
    }

    /// Creates a resolver over `locations` storage locations.
    pub fn new(locations: usize) -> (r: PlacementResolver)
        requires
            locations >= 1,
        ensures
            r.locations == locations,
            r.wf(),
    {
        PlacementResolver { locations }
    }

    /// Maps shard `shard_index` of `object_id` to a location.
    ///
    /// The result equals `spec_resolve` of the arguments: two calls with the
    /// same arguments return the same location, at any time, in any process.
    pub fn resolve(&self, object_id: &[u8], shard_index: usize) -> (r: usize)
        requires
            self.wf(),
        ensures
            r == spec_resolve(object_id@, shard_index as nat, self.locations as nat),
            r < self.locations,
    {
        let mut key: Vec<u8> = Vec::new();
        let mut p: usize = 0;
        while p < object_id.len()
            invariant
                p <= object_id.len(),
                key@ == object_id@.take(p as int),
            decreases object_id.len() - p,
        {
            key.push(object_id[p]);
            p = p + 1;
            assert(key@ =~= object_id@.take(p as int));
        }
        assert(key@ =~= object_id@);
        push_decimal(&mut key, shard_index);
        let ghost full = object_id@ + dec_digits(shard_index as nat);
        assert(key@ == full);

        let mut h: u64 = FNV_OFFSET;
        let mut j: usize = 0;
        while j < key.len()
            invariant
                j <= key.len(),
                key@ == full,
                h == fnv1a(full.take(j as int)),
            decreases key.len() - j,
        {
            h = (h ^ (key[j] as u64)).wrapping_mul(FNV_PRIME);
            j = j + 1;
            assert(full.take(j as int).drop_last() =~= full.take(j - 1));
            assert(full.take(j as int).last() == full[j - 1]);
        }
        assert(full.take(key@.len() as int) =~= full);
        (h % (self.locations as u64)) as usize
    }

    /// Resolves the locations of shards `0 .. total` of `object_id` at once.
    pub fn resolve_all(&self, object_id: &[u8], total: usize) -> (r: Vec<usize>)
        requires
            self.wf(),
        ensures
            r@.len() == total,
            forall|i: int|
                0 <= i < total ==> #[trigger] r@[i] == spec_resolve(
                    object_id@,
                    i as nat,
                    self.locations as nat,
                ) && r@[i] < self.locations,
    {
        let mut out: Vec<usize> = Vec::new();
        let mut i: usize = 0;
        while i < total
            invariant
                i <= total,
                self.wf(),
                out@.len() == i,
                forall|t: int|
                    0 <= t < i ==> #[trigger] out@[t] == spec_resolve(
                        object_id@,
                        t as nat,
                        self.locations as nat,
                    ) && out@[t] < self.locations,
            decreases total - i,
        {
            let loc = self.resolve(object_id, i);
            out.push(loc);
            i = i + 1;
        }
        out
    }
}

} // verus!
