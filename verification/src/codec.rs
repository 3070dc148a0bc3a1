//! The erasure codec: systematic Reed-Solomon coding of byte buffers.
//!
//! Encoding splits a buffer into `k` contiguous data shards of equal length
//! `shard_size` (the last one zero-padded on its tail), and appends `m` parity
//! shards computed over GF(256) so that any `k` of the `k + m` shards
//! determine all of them.  Decoding takes `k + m` slots, each a present shard
//! or an absence, recomputes every absent slot from the present ones, and
//! returns the concatenation of the `k` data shards — exactly
//! `k * shard_size` bytes, including the tail padding, which the caller trims
//! with the object's true length.
//!
//! The finite-field work itself is done by the `reed_solomon_erasure` crate
//! behind the two trusted wrappers [`rs_fill_parity`] and [`rs_reconstruct`];
//! the parity rows are named by the uninterpreted function [`rs_parity`], and
//! everything around the two calls is verified.

use crate::errors::StorageError;
use vstd::arithmetic::div_mod::lemma_fundamental_div_mod;
use vstd::prelude::*;

verus! {

/// The number of bytes in every shard of a `len`-byte buffer split `k` ways:
/// the ceiling of `len / k`.
pub open spec fn shard_size(len: nat, k: nat) -> nat
    recommends
        k >= 1,
{
    (((len + k - 1) as int) / (k as int)) as nat
}

/// Ceiling division bounds: `k * shard_size(len, k)` is the least multiple
/// of `k` that reaches `len` — at least `len`, and less than `len + k`.
pub proof fn lemma_shard_size_bounds(len: nat, k: nat)
    requires
        k >= 1,
    ensures
        len <= k * shard_size(len, k),
        k * shard_size(len, k) < len + k,
        len == 0 ==> shard_size(len, k) == 0,
        len >= 1 ==> shard_size(len, k) >= 1,
{
    let x = (len + k - 1) as int;
    let d = k as int;
    lemma_fundamental_div_mod(x, d);
    vstd::arithmetic::div_mod::lemma_mod_bound(x, d);
    let q = x / d;
    let r = x % d;
    assert(x == d * q + r);
    assert(0 <= r < d);
    assert(q >= 0) by (nonlinear_arith)
        requires
            x == d * q + r,
            x >= 0,
            0 <= r < d,
    ;
    assert(shard_size(len, k) == q);
    assert(k * shard_size(len, k) == d * q);
    if len == 0 {
        assert(q == 0) by (nonlinear_arith)
            requires
                d >= 1,
                q >= 0,
                d * q + r == d - 1,
                r >= 0,
        ;
    }
    if len >= 1 {
        assert(q >= 1) by (nonlinear_arith)
            requires
                q >= 0,
                d * q >= 1,
        ;
    }
}

/// The buffer zero-padded on its tail to `k * shard_size` bytes.
pub open spec fn padded(buf: Seq<u8>, k: nat) -> Seq<u8>
    recommends
        k >= 1,
{
    buf + Seq::new((k * shard_size(buf.len(), k) - buf.len()) as nat, |i: int| 0u8)
}

/// Shape of the padded buffer: its length, its copied prefix, its zero tail.
pub proof fn lemma_padded(buf: Seq<u8>, k: nat)
    requires
        k >= 1,
    ensures
        padded(buf, k).len() == k * shard_size(buf.len(), k),
        forall|t: int| 0 <= t < buf.len() ==> padded(buf, k)[t] == buf[t],
        forall|t: int| buf.len() <= t < padded(buf, k).len() ==> padded(buf, k)[t] == 0u8,
        padded(buf, k).take(buf.len() as int) == buf,
{
    lemma_shard_size_bounds(buf.len(), k);
    assert(padded(buf, k).take(buf.len() as int) =~= buf);
}

/// The `k` data shards of a buffer: contiguous `shard_size`-byte slices of the
/// padded buffer.
pub open spec fn data_rows(buf: Seq<u8>, k: nat) -> Seq<Seq<u8>> {
    Seq::new(
        k as nat,
        |i: int|
            padded(buf, k).subrange(
                i * (shard_size(buf.len(), k) as int),
                (i + 1) * (shard_size(buf.len(), k) as int),
            ),
    )
}

/// `rows` is a table of exactly `n` rows of `l` bytes each.
pub open spec fn rows_sized(rows: Seq<Seq<u8>>, n: nat, l: nat) -> bool {
    rows.len() == n && forall|i: int| 0 <= i < rows.len() ==> (#[trigger] rows[i]).len() == l
}

/// The data shards of a buffer form a `k` by `shard_size` table, and row `i`
/// is the slice of the padded buffer starting at `i * shard_size`.
pub proof fn lemma_data_rows_sized(buf: Seq<u8>, k: nat)
    requires
        k >= 1,
    ensures
        rows_sized(data_rows(buf, k), k, shard_size(buf.len(), k)),
{
    let l = shard_size(buf.len(), k) as int;
    lemma_padded(buf, k);
    assert forall|i: int| 0 <= i < k implies (#[trigger] data_rows(buf, k)[i]).len()
        == shard_size(buf.len(), k) by {
        assert(0 <= i * l && i * l + l == (i + 1) * l && (i + 1) * l <= k * l) by (nonlinear_arith)
            requires
                0 <= i < k,
                0 <= l,
        ;
    }
}

/// The first `n` rows of a table, concatenated in order.
pub open spec fn concat_rows(rows: Seq<Seq<u8>>, n: int) -> Seq<u8>
    decreases n,
{
    if n <= 0 {
        Seq::empty()
    } else {
        concat_rows(rows, n - 1) + rows[n - 1]
    }
}

/// Concatenating `n` rows of `l` bytes each yields `n * l` bytes.
pub proof fn lemma_concat_rows_len(rows: Seq<Seq<u8>>, n: int, l: nat)
    requires
        0 <= n,
        forall|i: int| 0 <= i < n ==> (#[trigger] rows[i]).len() == l,
    ensures
        concat_rows(rows, n).len() == n * l,
    decreases n,
{
    if n > 0 {
        lemma_concat_rows_len(rows, n - 1, l);
        assert((n - 1) * l + l == n * l) by (nonlinear_arith);
    } else {
        assert(n * l == 0) by (nonlinear_arith)
            requires
                n == 0,
        ;
    }
}

/// Tables that agree on their first `n` rows concatenate to the same bytes.
pub proof fn lemma_concat_rows_congruent(a: Seq<Seq<u8>>, b: Seq<Seq<u8>>, n: int)
    requires
        forall|i: int| 0 <= i < n ==> a[i] == b[i],
    ensures
        concat_rows(a, n) == concat_rows(b, n),
    decreases n,
{
    if n > 0 {
        lemma_concat_rows_congruent(a, b, n - 1);
    }
}

/// The first `n` data shards concatenated are the first `n * shard_size`
/// bytes of the padded buffer.
pub proof fn lemma_concat_data_rows(buf: Seq<u8>, k: nat, n: int)
    requires
        k >= 1,
        0 <= n <= k,
    ensures
        concat_rows(data_rows(buf, k), n) == padded(buf, k).take(
            n * (shard_size(buf.len(), k) as int),
        ),
    decreases n,
{
    let l = shard_size(buf.len(), k) as int;
    let pb = padded(buf, k);
    lemma_padded(buf, k);
    assert(0 <= n * l <= k * l) by (nonlinear_arith)
        requires
            0 <= n <= k,
            0 <= l,
    ;
    if n == 0 {
        assert(n * l == 0) by (nonlinear_arith)
            requires
                n == 0,
        ;
        assert(concat_rows(data_rows(buf, k), 0) =~= pb.take(0));
    } else {
        lemma_concat_data_rows(buf, k, n - 1);
        assert((n - 1) * l + l == n * l) by (nonlinear_arith);
        assert(0 <= (n - 1) * l) by (nonlinear_arith)
            requires
                1 <= n,
                0 <= l,
        ;
        assert(data_rows(buf, k)[n - 1] == pb.subrange((n - 1) * l, n * l));
        assert(pb.take((n - 1) * l) + pb.subrange((n - 1) * l, n * l) =~= pb.take(n * l));
    }
}

/// The names of the parity rows that the Reed-Solomon code assigns to `k`
/// data rows, extended by `m`: a function of the data rows alone.
pub uninterp spec fn rs_parity(k: nat, m: nat, data: Seq<Seq<u8>>) -> Seq<Seq<u8>>;

/// The full codeword of a data table: the data rows followed by their parity
/// rows.
pub open spec fn codeword(k: nat, m: nat, data: Seq<Seq<u8>>) -> Seq<Seq<u8>> {
    data + rs_parity(k, m, data)
}

/// The views of a vector of byte rows.
pub open spec fn rows_views(rows: Seq<Vec<u8>>) -> Seq<Seq<u8>> {
    Seq::new(rows.len(), |i: int| rows[i]@)
}

/// The views of a vector of optional byte rows: a present slot keeps its
/// bytes, an absent one stays absent.
pub open spec fn slot_views(slots: Seq<Option<Vec<u8>>>) -> Seq<Option<Seq<u8>>> {
    Seq::new(
        slots.len(),
        |i: int|
            if slots[i] is Some {
                Some(slots[i]->0@)
            } else {
                None
            },
    )
}

/// How many of the slots are present.
pub open spec fn present_count(s: Seq<Option<Seq<u8>>>) -> nat
    decreases s.len(),
{
    if s.len() == 0 {
        0
    } else {
        present_count(s.drop_last()) + if s.last() is Some {
            1nat
        } else {
            0nat
        }
    }
}

/// Every present slot holds exactly `l` bytes.
pub open spec fn slots_have_len(s: Seq<Option<Seq<u8>>>, l: nat) -> bool {
    forall|i: int| 0 <= i < s.len() && s[i] is Some ==> (#[trigger] s[i])->0.len() == l
}

/// Any two present slots hold the same number of bytes.
pub open spec fn uniform_present(s: Seq<Option<Seq<u8>>>) -> bool {
    forall|i: int, j: int|
        #![trigger s[i], s[j]]
        0 <= i < s.len() && 0 <= j < s.len() && s[i] is Some && s[j] is Some ==> s[i]->0.len()
            == s[j]->0.len()
}

/// Every present slot agrees with the codeword of the data table `data`.
pub open spec fn slots_match(k: nat, m: nat, data: Seq<Seq<u8>>, s: Seq<Option<Seq<u8>>>) -> bool {
    forall|i: int|
        0 <= i < s.len() && s[i] is Some ==> (#[trigger] s[i])->0 == codeword(k, m, data)[i]
}

/// The rows held by fully reconstructed slots.
pub open spec fn recovered_rows(slots: Seq<Option<Vec<u8>>>) -> Seq<Seq<u8>> {
    Seq::new(slots.len(), |i: int| slots[i]->0@)
}

/// Counting present slots, one slot at a time.
pub proof fn lemma_present_count_take(s: Seq<Option<Seq<u8>>>, i: int)
    requires
        0 <= i < s.len(),
    ensures
        present_count(s.take(i + 1)) == present_count(s.take(i)) + if s[i] is Some {
            1nat
        } else {
            0nat
        },
{
    assert(s.take(i + 1).drop_last() =~= s.take(i));
    assert(s.take(i + 1).last() == s[i]);
}

/// A slot sequence with nothing present counts zero present slots.
pub proof fn lemma_present_count_none(s: Seq<Option<Seq<u8>>>)
    requires
        forall|j: int| 0 <= j < s.len() ==> !((#[trigger] s[j]) is Some),
    ensures
        present_count(s) == 0,
    decreases s.len(),
{
    if s.len() > 0 {
        assert forall|j: int| 0 <= j < s.drop_last().len() implies !(
        (#[trigger] s.drop_last()[j]) is Some) by {
            assert(s.drop_last()[j] == s[j]);
        }
        lemma_present_count_none(s.drop_last());
    }
}

/// A slot sequence with everything present counts every slot.
pub proof fn lemma_present_count_all(s: Seq<Option<Seq<u8>>>)
    requires
        forall|j: int| 0 <= j < s.len() ==> (#[trigger] s[j]) is Some,
    ensures
        present_count(s) == s.len(),
    decreases s.len(),
{
    if s.len() > 0 {
        assert forall|j: int| 0 <= j < s.drop_last().len() implies (
        #[trigger] s.drop_last()[j]) is Some by {
            assert(s.drop_last()[j] == s[j]);
        }
        lemma_present_count_all(s.drop_last());
    }
}

/// Relies on `reed_solomon_erasure::galois_8::ReedSolomon::{new, encode}`:
/// with `1 <= k`, `1 <= m`, `k + m <= 256` and exactly `k + m` rows of one
/// nonzero common length, both calls succeed, the `k` data rows are left
/// unchanged, and the last `m` rows are overwritten with the Reed-Solomon
/// parity of the data rows — a function of the data rows alone, here named
/// [`rs_parity`].
#[verifier::external_body]
fn rs_fill_parity(k: usize, m: usize, shards: &mut Vec<Vec<u8>>) -> (r: Result<(), StorageError>)
    requires
        1 <= k,
        1 <= m,
        k + m <= 256,
        old(shards)@.len() == k + m,
        forall|i: int|
            0 <= i < k + m ==> (#[trigger] old(shards)@[i])@.len() == old(shards)@[0]@.len(),
        old(shards)@[0]@.len() >= 1,
    ensures
        r is Ok,
        final(shards)@.len() == k + m,
        forall|i: int| 0 <= i < k ==> final(shards)@[i] == old(shards)@[i],
        forall|i: int|
            k <= i < k + m ==> (#[trigger] final(shards)@[i])@.len() == old(shards)@[0]@.len(),
        rows_views(final(shards)@).subrange(k as int, k + m) == rs_parity(
            k as nat,
            m as nat,
            rows_views(old(shards)@).subrange(0, k as int),
        ),
{
    let rs = match reed_solomon_erasure::galois_8::ReedSolomon::new(k, m) {
        Ok(rs) => rs,
        Err(_) => return Err(StorageError::Encoding),
    };
    match rs.encode(shards.as_mut_slice()) {
        Ok(()) => Ok(()),
        Err(_) => Err(StorageError::Encoding),
    }
}

/// Relies on `reed_solomon_erasure::galois_8::ReedSolomon::{new, reconstruct}`:
/// with `1 <= k`, `1 <= m`, `k + m <= 256`, exactly `k + m` slots, at least
/// `k` of them present, and every present slot of one nonzero length
/// `shard_len`, both calls succeed, present slots are left unchanged, and
/// every absent slot is filled with a `shard_len`-byte row; when the present
/// slots agree with the Reed-Solomon codeword of some `k`-row data table, the
/// filled slots agree with that same codeword — any `k` of its `k + m` rows
/// determine the rest.
#[verifier::external_body]
fn rs_reconstruct(k: usize, m: usize, shard_len: usize, slots: &mut Vec<Option<Vec<u8>>>) -> (r:
    Result<(), StorageError>)
    requires
        1 <= k,
        1 <= m,
        k + m <= 256,
        1 <= shard_len,
        old(slots)@.len() == k + m,
        present_count(slot_views(old(slots)@)) >= k,
        slots_have_len(slot_views(old(slots)@), shard_len as nat),
    ensures
        r is Ok,
        final(slots)@.len() == k + m,
        forall|i: int|
            0 <= i < k + m && old(slots)@[i] is Some ==> final(slots)@[i] == old(slots)@[i],
        forall|i: int|
            0 <= i < k + m ==> (#[trigger] final(slots)@[i]) is Some
                && final(slots)@[i]->0@.len() == shard_len,
        forall|data: Seq<Seq<u8>>|
            #[trigger] slots_match(k as nat, m as nat, data, slot_views(old(slots)@)) && rows_sized(
                data,
                k as nat,
                shard_len as nat,
            ) ==> slots_match(k as nat, m as nat, data, slot_views(final(slots)@)),
{
    let rs = match reed_solomon_erasure::galois_8::ReedSolomon::new(k, m) {
        Ok(rs) => rs,
        Err(_) => return Err(StorageError::Reconstruction),
    };
    match rs.reconstruct(slots.as_mut_slice()) {
        Ok(()) => Ok(()),
        Err(_) => Err(StorageError::Reconstruction),
    }
}

/// The stateless erasure codec for a fixed shard configuration.
#[derive(Clone, Copy, Debug)]
pub struct ShardCodec {
    pub data_shards: usize,
    pub parity_shards: usize,
}

impl ShardCodec {
    /// A codec is usable with at least one data and one parity shard, and at
    /// most 256 shards in all (the order of GF(256)).
    pub open spec fn wf(&self) -> bool {
        1 <= self.data_shards && 1 <= self.parity_shards && self.data_shards + self.parity_shards
            <= 256
    }

    /// The total number of shards per object.
    pub open spec fn spec_total(&self) -> int {
        self.data_shards + self.parity_shards
    }

    /// Creates a codec with `data_shards` data and `parity_shards` parity
    /// shards per object, rejecting configurations the field cannot carry.
    pub fn new(data_shards: usize, parity_shards: usize) -> (r: Result<ShardCodec, StorageError>)
        ensures
            r is Ok <==> (1 <= data_shards && 1 <= parity_shards && data_shards + parity_shards
                <= 256),
            r matches Ok(c) ==> c.data_shards == data_shards && c.parity_shards == parity_shards
                && c.wf(),
            r matches Err(e) ==> e == StorageError::Encoding,
    {
        if data_shards == 0 || parity_shards == 0 || data_shards > 256 || parity_shards > 256
            - data_shards {
            Err(StorageError::Encoding)
        } else {
            Ok(ShardCodec { data_shards, parity_shards })
        }
    }

    /// The number of shards of each kind and in total, as callers size their
    /// loops by them.
    pub fn total_shards(&self) -> (r: usize)
        requires
            self.wf(),
        ensures
            r == self.spec_total(),
    {
        self.data_shards + self.parity_shards
    }

    /// Encodes a buffer into `k + m` shards of `shard_size(len, k)` bytes:
    /// the `k` data shards are the padded buffer in order, and when the
    /// shards are nonempty the whole result is the Reed-Solomon codeword of
    /// the data shards.  The one error is a capacity check: a buffer so large
    /// that the padded length cannot be addressed.
    pub fn encode(&self, buffer: &[u8]) -> (r: Result<Vec<Vec<u8>>, StorageError>)
        requires
            self.wf(),
        ensures
            ({
                let k = self.data_shards as nat;
                let m = self.parity_shards as nat;
                let l = shard_size(buffer@.len(), k);
                match r {
                    Ok(shards) => {
                        &&& buffer@.len() + k - 1 <= usize::MAX
                        &&& shards@.len() == k + m
                        &&& forall|i: int|
                            0 <= i < k + m ==> (#[trigger] shards@[i])@.len() == l
                        &&& forall|i: int|
                            0 <= i < k ==> (#[trigger] shards@[i])@ == data_rows(buffer@, k)[i]
                        &&& l >= 1 ==> rows_views(shards@) == codeword(k, m, data_rows(buffer@, k))
                    },
                    Err(e) => {
                        &&& e == StorageError::Encoding
                        &&& buffer@.len() + k - 1 > usize::MAX
                    },
                }
            }),
    {
        let k = self.data_shards;
        let m = self.parity_shards;
        if buffer.len() > usize::MAX - k + 1 {
            return Err(StorageError::Encoding);
        }
        let l = if buffer.len() == 0 {
            0
        } else {
            (buffer.len() - 1) / k + 1
        };
        proof {
            lemma_shard_size_bounds(buffer@.len(), k as nat);
            if buffer@.len() >= 1 {
                lemma_fundamental_div_mod((buffer@.len() - 1) as int, k as int);
                lemma_fundamental_div_mod((buffer@.len() + k - 1) as int, k as int);
                assert(l == shard_size(buffer@.len(), k as nat)) by (nonlinear_arith)
                    requires
                        k >= 1,
                        buffer@.len() >= 1,
                        l == ((buffer@.len() - 1) as int) / (k as int) + 1,
                        shard_size(buffer@.len(), k as nat) == ((buffer@.len() + k - 1) as int) / (
                        k as int),
                ;
            }
            lemma_padded(buffer@, k as nat);
            lemma_data_rows_sized(buffer@, k as nat);
        }
        let ghost pb = padded(buffer@, k as nat);
        let ghost rows = data_rows(buffer@, k as nat);

        let mut shards: Vec<Vec<u8>> = Vec::new();
        let mut i: usize = 0;
        while i < k
            invariant
                i <= k,
                1 <= k,
                l == shard_size(buffer@.len(), k as nat),
                buffer@.len() + k - 1 <= usize::MAX,
                k * l <= buffer@.len() + k - 1,
                pb == padded(buffer@, k as nat),
                rows == data_rows(buffer@, k as nat),
                pb.len() == k * l,
                pb.take(buffer@.len() as int) == buffer@,
                forall|t: int| buffer@.len() <= t < pb.len() ==> pb[t] == 0u8,
                shards@.len() == i,
                forall|t: int| 0 <= t < i ==> (#[trigger] shards@[t])@ == rows[t],
                forall|t: int| 0 <= t < i ==> (#[trigger] shards@[t])@.len() == l,
            decreases k - i,
        {
            proof {
                assert(0 <= (i as int) * (l as int) && (i as int) * (l as int) + l == (i + 1) * (
                l as int) && (i + 1) * (l as int) <= (k as int) * (l as int)) by (nonlinear_arith)
                    requires
                        0 <= i < k,
                        0 <= l,
                ;
            }
            let start = i * l;
            let mut row: Vec<u8> = Vec::new();
            let mut p: usize = 0;
            while p < l
                invariant
                    p <= l,
                    start == i * l,
                    start + l <= pb.len(),
                    buffer@.len() <= pb.len(),
                    pb.len() <= usize::MAX,
                    pb.take(buffer@.len() as int) == buffer@,
                    forall|t: int| buffer@.len() <= t < pb.len() ==> pb[t] == 0u8,
                    row@.len() == p,
                    row@ == pb.subrange(start as int, start + p),
                decreases l - p,
            {
                let idx = start + p;
                let b = if idx < buffer.len() {
                    buffer[idx]
                } else {
                    0u8
                };
                proof {
                    if idx < buffer@.len() {
                        assert(pb[idx as int] == pb.take(buffer@.len() as int)[idx as int]);
                    }
                    assert(pb[idx as int] == b);
                }
                row.push(b);
                p = p + 1;
                assert(row@ =~= pb.subrange(start as int, start + p));
            }
            assert(row@ == rows[i as int]);
            shards.push(row);
            i = i + 1;
        }

        let mut t: usize = 0;
        while t < m
            invariant
                t <= m,
                1 <= k,
                shards@.len() == k + t,
                l == shard_size(buffer@.len(), k as nat),
                buffer@.len() + k - 1 <= usize::MAX,
                rows == data_rows(buffer@, k as nat),
                forall|j: int| 0 <= j < k ==> (#[trigger] shards@[j])@ == rows[j],
                forall|j: int| 0 <= j < k ==> (#[trigger] shards@[j])@.len() == l,
                forall|j: int| k <= j < k + t ==> (#[trigger] shards@[j])@.len() == l,
            decreases m - t,
        {
            let mut zrow: Vec<u8> = Vec::new();
            while zrow.len() < l
                invariant
                    zrow@.len() <= l,
                decreases l - zrow.len(),
            {
                zrow.push(0u8);
            }
            shards.push(zrow);
            t = t + 1;
        }

        if l == 0 {
            return Ok(shards);
        }

        let ghost before = shards@;
        match rs_fill_parity(k, m, &mut shards) {
            Ok(()) => {},
            Err(e) => {
                return Err(e);
            },
        }
        proof {
            assert(rows_views(before).subrange(0, k as int) =~= rows);
            assert(rows_views(shards@) =~= codeword(
                k as nat,
                m as nat,
                data_rows(buffer@, k as nat),
            ));
        }
        Ok(shards)
    }

    /// Decodes an object from `k + m` slots, each a present shard or an
    /// absence.  Decoding succeeds exactly when at least `k` slots are
    /// present and all present slots share one length `l` — so it fails with
    /// a reconstruction error whenever more than `m` shards are lost, and
    /// never returns partial data.  On success the result holds `k * l`
    /// bytes, and whenever the present slots agree with the codeword of a
    /// `k`-row data table of row length `l` — as every subset of an encoded
    /// object's shards does — the result is exactly that table's rows in
    /// order, tail padding included.
    pub fn decode(&self, slots: Vec<Option<Vec<u8>>>) -> (r: Result<Vec<u8>, StorageError>)
        requires
            self.wf(),
            slots@.len() == self.spec_total(),
        ensures
            ({
                let k = self.data_shards as nat;
                let m = self.parity_shards as nat;
                let s = slot_views(slots@);
                match r {
                    Ok(out) => {
                        &&& present_count(s) >= k
                        &&& uniform_present(s)
                        &&& forall|i: int|
                            0 <= i < s.len() && s[i] is Some ==> out@.len() == k * (
                            #[trigger] s[i])->0.len()
                        &&& forall|data: Seq<Seq<u8>>, l: nat|
                            #![trigger slots_match(k, m, data, s), rows_sized(data, k, l)]
                            slots_match(k, m, data, s) && rows_sized(data, k, l) && slots_have_len(
                                s,
                                l,
                            ) ==> out@ == concat_rows(data, k as int)
                    },
                    Err(e) => {
                        &&& e == StorageError::Reconstruction
                        &&& (present_count(s) < k || !uniform_present(s))
                    },
                }
            }),
    {
        let k = self.data_shards;
        let m = self.parity_shards;
        let n = k + m;
        let ghost s0 = slot_views(slots@);

        let mut count: usize = 0;
        let mut len_opt: Option<usize> = None;
        let mut consistent = true;
        let mut i: usize = 0;
        while i < n
            invariant
                i <= n,
                n == slots@.len(),
                s0 == slot_views(slots@),
                count == present_count(s0.take(i as int)),
                count <= i,
                len_opt is None ==> forall|j: int| 0 <= j < i ==> !((#[trigger] s0[j]) is Some),
                len_opt matches Some(l0) ==> exists|j: int|
                    0 <= j < i && (#[trigger] s0[j]) is Some && s0[j]->0.len() == l0,
                consistent ==> forall|j: int|
                    0 <= j < i && (#[trigger] s0[j]) is Some ==> len_opt is Some && s0[j]->0.len()
                        == len_opt->0,
                !consistent ==> !uniform_present(s0),
            decreases n - i,
        {
            match &slots[i] {
                Some(v) => {
                    proof {
                        assert(s0[i as int] is Some && s0[i as int]->0 == v@);
                    }
                    count = count + 1;
                    match len_opt {
                        None => {
                            len_opt = Some(v.len());
                        },
                        Some(l0) => {
                            if v.len() != l0 {
                                proof {
                                    let j = choose|j: int|
                                        0 <= j < i && (#[trigger] s0[j]) is Some && s0[j]->0.len()
                                            == l0;
                                    assert(s0[j] is Some && s0[i as int] is Some && s0[j]->0.len()
                                        != s0[i as int]->0.len());
                                    assert(!uniform_present(s0));
                                }
                                consistent = false;
                            }
                        },
                    }
                },
                None => {
                    proof {
                        assert(!(s0[i as int] is Some));
                    }
                },
            }
            proof {
                lemma_present_count_take(s0, i as int);
            }
            i = i + 1;
        }
        proof {
            assert(s0.take(n as int) =~= s0);
        }

        if count < k || !consistent {
            return Err(StorageError::Reconstruction);
        }

        let l0 = match len_opt {
            Some(l0) => l0,
            None => {
                proof {
                    lemma_present_count_none(s0);
                }
                0
            },
        };

        if l0 == 0 {
            let out: Vec<u8> = Vec::new();
            proof {
                assert((self.data_shards as int) * 0 == 0) by (nonlinear_arith);
                assert forall|i2: int| 0 <= i2 < s0.len() && s0[i2] is Some implies out@.len() == (
                self.data_shards as nat) * (s0[i2])->0.len() by {
                    assert(s0[i2]->0.len() == l0);
                }
                assert forall|data: Seq<Seq<u8>>, l: nat|
                    slots_match(
                        self.data_shards as nat,
                        self.parity_shards as nat,
                        data,
                        s0,
                    ) && rows_sized(data, self.data_shards as nat, l) && slots_have_len(
                        s0,
                        l,
                    ) implies out@ == concat_rows(data, self.data_shards as int) by {
                    let j = choose|j: int|
                        0 <= j < n && (#[trigger] s0[j]) is Some && s0[j]->0.len() == l0;
                    assert(l == 0);
                    lemma_concat_rows_len(data, self.data_shards as int, l);
                    assert((self.data_shards as int) * 0 == 0) by (nonlinear_arith);
                    assert(out@ =~= concat_rows(data, self.data_shards as int));
                }
            }
            return Ok(out);
        }

        let mut work = slots;
        let ghost w0 = work@;
        match rs_reconstruct(k, m, l0, &mut work) {
            Ok(()) => {},
            Err(_) => {
                return Err(StorageError::Reconstruction);
            },
        }

        let ghost wr = work@;
        let mut out: Vec<u8> = Vec::new();
        let mut d: usize = 0;
        while d < k
            invariant
                d <= k,
                k <= wr.len(),
                work@ == wr,
                forall|j: int|
                    0 <= j < wr.len() ==> (#[trigger] wr[j]) is Some && wr[j]->0@.len() == l0,
                out@ == concat_rows(recovered_rows(wr), d as int),
            decreases k - d,
        {
            match &work[d] {
                Some(v) => {
                    proof {
                        assert(v@ == wr[d as int]->0@);
                    }
                    let mut p: usize = 0;
                    while p < v.len()
                        invariant
                            p <= v@.len(),
                            d < k <= wr.len(),
                            v@ == wr[d as int]->0@,
                            out@ == concat_rows(recovered_rows(wr), d as int) + v@.take(p as int),
                        decreases v.len() - p,
                    {
                        out.push(v[p]);
                        p = p + 1;
                        assert(out@ =~= concat_rows(recovered_rows(wr), d as int) + v@.take(
                            p as int,
                        ));
                    }
                    proof {
                        assert(v@.take(v@.len() as int) =~= v@);
                        assert(recovered_rows(wr)[d as int] == v@);
                        assert(out@ =~= concat_rows(recovered_rows(wr), d + 1));
                    }
                },
                None => {},
            }
            d = d + 1;
        }

        proof {
            let k_nat = self.data_shards as nat;
            let m_nat = self.parity_shards as nat;
            assert forall|j: int| 0 <= j < k_nat implies (#[trigger] recovered_rows(wr)[j]).len()
                == l0 by {}
            lemma_concat_rows_len(recovered_rows(wr), k as int, l0 as nat);
            assert forall|i2: int| 0 <= i2 < s0.len() && s0[i2] is Some implies out@.len() == k_nat
                * (s0[i2])->0.len() by {
                assert(s0[i2]->0.len() == l0);
            }
            assert forall|data: Seq<Seq<u8>>, l: nat|
                slots_match(k_nat, m_nat, data, s0) && rows_sized(data, k_nat, l) && slots_have_len(
                    s0,
                    l,
                ) implies out@ == concat_rows(data, k as int) by {
                let j = choose|j: int|
                    0 <= j < n && (#[trigger] s0[j]) is Some && s0[j]->0.len() == l0;
                assert(l == l0);
                assert(slots_match(k_nat, m_nat, data, slot_views(w0)));
                assert(rows_sized(data, k_nat, l0 as nat));
                assert(slots_match(k_nat, m_nat, data, slot_views(wr)));
                assert forall|t: int| 0 <= t < k_nat implies recovered_rows(wr)[t] == data[t] by {
                    assert(slot_views(wr)[t] is Some);
                    assert(slot_views(wr)[t]->0 == codeword(k_nat, m_nat, data)[t]);
                    assert(codeword(k_nat, m_nat, data)[t] == data[t]);
                }
                lemma_concat_rows_congruent(recovered_rows(wr), data, k as int);
            }
        }
        Ok(out)
    }
}

/// Erasure tolerance: losing shards of an encoded object down to any `k`
/// present ones is harmless.  Slots that keep at least `k` rows of a buffer's
/// codeword — every present slot the matching row, of `shard_size` bytes —
/// satisfy every success condition of [`ShardCodec::decode`], and the data
/// table that the codeword carries concatenates and trims back to the buffer
/// exactly.  Which rows survive does not matter; only their number does.
pub proof fn lemma_erasure_tolerance(buf: Seq<u8>, k: nat, m: nat, s: Seq<Option<Seq<u8>>>)
    requires
        1 <= k,
        s.len() == k + m,
        present_count(s) >= k,
        forall|i: int|
            0 <= i < s.len() && (#[trigger] s[i]) is Some ==> s[i]->0 == codeword(
                k,
                m,
                data_rows(buf, k),
            )[i],
        forall|i: int|
            0 <= i < s.len() && (#[trigger] s[i]) is Some ==> s[i]->0.len() == shard_size(
                buf.len(),
                k,
            ),
    ensures
        slots_match(k, m, data_rows(buf, k), s),
        rows_sized(data_rows(buf, k), k, shard_size(buf.len(), k)),
        slots_have_len(s, shard_size(buf.len(), k)),
        uniform_present(s),
        concat_rows(data_rows(buf, k), k as int).len() == k * shard_size(buf.len(), k),
        concat_rows(data_rows(buf, k), k as int).take(buf.len() as int) == buf,
{
    lemma_data_rows_sized(buf, k);
    lemma_concat_rows_len(data_rows(buf, k), k as int, shard_size(buf.len(), k));
    lemma_concat_data_rows(buf, k, k as int);
    lemma_padded(buf, k);
    assert(padded(buf, k).take((k as int) * (shard_size(buf.len(), k) as int)) =~= padded(buf, k));
}

/// Round trip: with every row of a buffer's codeword present, decoding
/// recovers the buffer — erasure tolerance with nothing absent.
pub proof fn lemma_round_trip(buf: Seq<u8>, k: nat, m: nat, s: Seq<Option<Seq<u8>>>)
    requires
        1 <= k,
        s.len() == k + m,
        forall|i: int|
            0 <= i < s.len() ==> (#[trigger] s[i]) is Some && s[i]->0 == codeword(
                k,
                m,
                data_rows(buf, k),
            )[i] && s[i]->0.len() == shard_size(buf.len(), k),
    ensures
        present_count(s) == k + m,
        slots_match(k, m, data_rows(buf, k), s),
        rows_sized(data_rows(buf, k), k, shard_size(buf.len(), k)),
        slots_have_len(s, shard_size(buf.len(), k)),
        uniform_present(s),
        concat_rows(data_rows(buf, k), k as int).len() == k * shard_size(buf.len(), k),
        concat_rows(data_rows(buf, k), k as int).take(buf.len() as int) == buf,
{
    lemma_present_count_all(s);
    lemma_erasure_tolerance(buf, k, m, s);
}

} // verus!
