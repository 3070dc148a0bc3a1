//! The object pipeline's decision logic: put, get and delete over the
//! resolver, the codec and a shard store.
//!
//! The pipeline is request-scoped and stateless.  Put encodes and writes all
//! `k + m` shards; get reads all `k + m` slots and decodes; delete removes
//! the `k + m` slots in order.  The I/O itself is the store's business — the
//! functions here compute the placement plan that every operation walks,
//! classify the outcomes the store reports, and carry the codec's contract
//! across: a failed read is fatal, an absence is tolerated up to `m` times,
//! a partial put is reported shard by shard rather than hidden.

use crate::codec::concat_rows;
use crate::codec::present_count;
use crate::codec::rows_sized;
use crate::codec::slot_views;
use crate::codec::slots_have_len;
use crate::codec::slots_match;
use crate::codec::uniform_present;
use crate::codec::ShardCodec;
use crate::errors::StorageError;
use crate::placement::spec_resolve;
use crate::placement::PlacementResolver;
use crate::store::shard_key;
use crate::store::spec_shard_key;
use crate::store::DeleteOutcome;
use crate::store::ReadOutcome;
use vstd::prelude::*;

verus! {

/// Where one shard goes: its index, its location, and its storage key.
#[derive(Debug)]
pub struct ShardTarget {
    pub shard_index: usize,
    pub location: usize,
    pub key: Vec<u8>,
}

/// Computes the placement plan of an object: for each shard index
/// `0 .. k + m`, the location the resolver assigns and the key under which
/// the shard is stored.  Put, get and delete all walk this one plan, which
/// is how they find the same shards again without any persisted index.
pub fn plan_shards(codec: &ShardCodec, resolver: &PlacementResolver, object_id: &[u8]) -> (r: Vec<
    ShardTarget,
>)
    requires
        codec.wf(),
        resolver.wf(),
    ensures
        r@.len() == codec.spec_total(),
        forall|i: int|
            0 <= i < r@.len() ==> (#[trigger] r@[i]).shard_index == i && r@[i].location
                == spec_resolve(object_id@, i as nat, resolver.locations as nat) && r@[i].key@
                == spec_shard_key(object_id@, i as nat),
{
    let total = codec.total_shards();
    let mut out: Vec<ShardTarget> = Vec::new();
    let mut i: usize = 0;
    while i < total
        invariant
            i <= total,
            resolver.wf(),
            out@.len() == i,
            forall|t: int|
                0 <= t < i ==> (#[trigger] out@[t]).shard_index == t && out@[t].location
                    == spec_resolve(object_id@, t as nat, resolver.locations as nat) && out@[t].key@
                    == spec_shard_key(object_id@, t as nat),
        decreases total - i,
    {
        let location = resolver.resolve(object_id, i);
        let key = shard_key(object_id, i);
        out.push(ShardTarget { shard_index: i, location, key });
        i = i + 1;
    }
    out
}

/// Some read of this request failed for a reason other than absence.
pub open spec fn read_failed(reads: Seq<ReadOutcome>) -> bool {
    exists|i: int| 0 <= i < reads.len() && (#[trigger] reads[i]) is Failed
}

/// The slot a read outcome induces: present bytes stay, everything else is
/// an absence.
pub open spec fn induced_slots(reads: Seq<ReadOutcome>) -> Seq<Option<Seq<u8>>> {
    Seq::new(
        reads.len(),
        |i: int|
            match reads[i] {
                ReadOutcome::Present(b) => Some(b@),
                ReadOutcome::Absent => None,
                ReadOutcome::Failed => None,
            },
    )
}

/// How one read outcome and one decoder slot correspond: a present read is
/// that shard, an absent read is an absent slot.
pub open spec fn slot_of_read(o: ReadOutcome, s: Option<Vec<u8>>) -> bool {
    match o {
        ReadOutcome::Present(b) => s == Some(b),
        ReadOutcome::Absent => s is None,
        ReadOutcome::Failed => s is None,
    }
}

/// Turns the read outcomes of one get into decoder slots, in shard order.
/// Any failed read is fatal to the request and surfaces as a shard I/O
/// error; absences are not errors and become absent slots.
pub fn assemble_slots(reads: Vec<ReadOutcome>) -> (r: Result<
    Vec<Option<Vec<u8>>>,
    StorageError,
>)
    ensures
        ({
            match r {
                Ok(slots) => {
                    &&& !read_failed(reads@)
                    &&& slots@.len() == reads@.len()
                    &&& forall|i: int|
                        0 <= i < reads@.len() ==> slot_of_read(reads@[i], #[trigger] slots@[i])
                },
                Err(e) => {
                    &&& e == StorageError::ShardIo
                    &&& read_failed(reads@)
                },
            }
        }),
{
    let ghost r0 = reads@;
    let mut reads = reads;
    let mut slots: Vec<Option<Vec<u8>>> = Vec::new();
    let mut failed = false;
    while reads.len() > 0
        invariant
            slots@.len() + reads@.len() == r0.len(),
            reads@ == r0.skip(slots@.len() as int),
            forall|j: int| 0 <= j < slots@.len() ==> slot_of_read(r0[j], #[trigger] slots@[j]),
            failed <==> exists|j: int| 0 <= j < slots@.len() && (#[trigger] r0[j]) is Failed,
        decreases reads@.len(),
    {
        let ghost done = slots@.len() as int;
        let o = reads.remove(0);
        proof {
            assert(o == r0[done]);
            assert(reads@ =~= r0.skip(done + 1));
        }
        match o {
            ReadOutcome::Present(b) => {
                slots.push(Some(b));
            },
            ReadOutcome::Absent => {
                slots.push(None);
            },
            ReadOutcome::Failed => {
                failed = true;
                slots.push(None);
            },
        }
    }
    if failed {
        return Err(StorageError::ShardIo);
    }
    Ok(slots)
}

/// The get pipeline's decision core: classify the `k + m` read outcomes of
/// one object and reconstruct it.  A failed read is fatal; otherwise the
/// outcomes become decoder slots and [`ShardCodec::decode`]'s contract holds
/// of the result over those slots — absences tolerated up to `m`, a
/// reconstruction error beyond that, never partial data.
pub fn recover_object(codec: &ShardCodec, reads: Vec<ReadOutcome>) -> (r: Result<
    Vec<u8>,
    StorageError,
>)
    requires
        codec.wf(),
        reads@.len() == codec.spec_total(),
    ensures
        ({
            let k = codec.data_shards as nat;
            let m = codec.parity_shards as nat;
            let s = induced_slots(reads@);
            match r {
                Ok(out) => {
                    &&& !read_failed(reads@)
                    &&& present_count(s) >= k
                    &&& uniform_present(s)
                    &&& forall|i: int|
                        0 <= i < s.len() && s[i] is Some ==> out@.len() == k * (
                        #[trigger] s[i])->0.len()
                    &&& forall|data: Seq<Seq<u8>>, l: nat|
                        #![trigger slots_match(k, m, data, s), rows_sized(data, k, l)]
                        slots_match(k, m, data, s) && rows_sized(data, k, l) && slots_have_len(s, l)
                            ==> out@ == concat_rows(data, k as int)
                },
                Err(e) => {
                    &&& (read_failed(reads@) ==> e == StorageError::ShardIo)
                    &&& (!read_failed(reads@) ==> e == StorageError::Reconstruction && (
                    present_count(s) < k || !uniform_present(s)))
                },
            }
        }),
{
    let ghost s = induced_slots(reads@);
    let slots = match assemble_slots(reads) {
        Ok(slots) => slots,
        Err(e) => {
            return Err(e);
        },
    };
    proof {
        assert(slot_views(slots@) =~= s);
    }
    let out = match codec.decode(slots) {
        Ok(out) => out,
        Err(e) => {
            return Err(e);
        },
    };
    proof {
        let k = codec.data_shards as nat;
        let m = codec.parity_shards as nat;
        assert forall|data: Seq<Seq<u8>>, l: nat|
            slots_match(k, m, data, s) && rows_sized(data, k, l) && slots_have_len(
                s,
                l,
            ) implies out@ == concat_rows(data, codec.data_shards as int) by {
            assert(slots_match(k, m, data, slot_views(slots@)));
            assert(slots_have_len(slot_views(slots@), l));
        }
    }
    Ok(out)
}

/// Which of the `k + m` write attempts of one put failed, in index order.
///
/// All writes are attempted; failures are enumerated rather than hidden, and
/// shards already written stay in place — there is no rollback, and a later
/// get of a partially written object simply sees the missing shards as
/// absences.
#[derive(Debug)]
pub struct PutReport {
    pub failed: Vec<usize>,
}

impl PutReport {
    /// A put succeeded exactly when no shard write failed.
    pub fn succeeded(&self) -> (r: bool)
        ensures
            r <==> self.failed@.len() == 0,
    {
        self.failed.len() == 0
    }
}

/// The indices before `i` whose write did not succeed, in ascending order.
pub open spec fn spec_failed_indices(results: Seq<bool>, i: int) -> Seq<int>
    decreases i,
{
    if i <= 0 {
        Seq::empty()
    } else if results[i - 1] {
        spec_failed_indices(results, i - 1)
    } else {
        spec_failed_indices(results, i - 1).push(i - 1)
    }
}

/// Summarizes the write attempts of one put, one flag per shard index, into
/// the report of which indices failed.
pub fn summarize_put(results: &Vec<bool>) -> (r: PutReport)
    ensures
        r.failed@.map_values(|v: usize| v as int) == spec_failed_indices(
            results@,
            results@.len() as int,
        ),
        r.failed@.len() == 0 <==> forall|i: int| 0 <= i < results@.len() ==> results@[i],
{
    let mut failed: Vec<usize> = Vec::new();
    let mut i: usize = 0;
    while i < results.len()
        invariant
            i <= results@.len(),
            failed@.map_values(|v: usize| v as int) == spec_failed_indices(results@, i as int),
            failed@.len() == 0 <==> forall|t: int| 0 <= t < i ==> results@[t],
        decreases results@.len() - i,
    {
        if !results[i] {
            failed.push(i);
            assert(failed@.map_values(|v: usize| v as int) =~= spec_failed_indices(
                results@,
                i + 1,
            ));
        } else {
            assert(failed@.map_values(|v: usize| v as int) =~= spec_failed_indices(
                results@,
                i + 1,
            ));
        }
        i = i + 1;
    }
    PutReport { failed }
}

/// The delete policy: the `k + m` shard slots are deleted in index order and
/// the operation stops at the first slot that was not removed — a slot that
/// was already missing surfaces as `NotFound`, any other failure as
/// `ShardIo` — leaving later slots untouched.  Only a delete with every slot
/// removed reports success.
pub fn summarize_delete(outcomes: &Vec<DeleteOutcome>) -> (r: Result<(), StorageError>)
    ensures
        r is Ok <==> forall|i: int| 0 <= i < outcomes@.len() ==> (#[trigger] outcomes@[i]) is Removed,
        r matches Err(e) ==> exists|j: int|
            0 <= j < outcomes@.len() && !((#[trigger] outcomes@[j]) is Removed) && (forall|t: int|
                0 <= t < j ==> (#[trigger] outcomes@[t]) is Removed) && e == (
            if outcomes@[j] is Missing {
                StorageError::NotFound
            } else {
                StorageError::ShardIo
            }),
{
    let mut i: usize = 0;
    while i < outcomes.len()
        invariant
            i <= outcomes@.len(),
            forall|t: int| 0 <= t < i ==> (#[trigger] outcomes@[t]) is Removed,
        decreases outcomes@.len() - i,
    {
        match outcomes[i] {
            DeleteOutcome::Removed => {},
            DeleteOutcome::Missing => {
                return Err(StorageError::NotFound);
            },
            DeleteOutcome::Failed => {
                return Err(StorageError::ShardIo);
            },
        }
        i = i + 1;
    }
    Ok(())
}

} // verus!
