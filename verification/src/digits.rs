//! Decimal rendering of small integers as ASCII bytes.
//!
//! Shard indices appear in two derived byte strings: the key under which a
//! shard is stored (with a two-digit zero-padded index) and the input of the
//! placement hash (with an unpadded index).  Both are built from the digit
//! sequence defined here.

use vstd::prelude::*;

verus! {

/// The ASCII decimal digits of `n`, most significant first, no padding.
pub open spec fn dec_digits(n: nat) -> Seq<u8>
    decreases n,
{
    if n < 10 {
        seq![(0x30 + n) as u8]
    } else {
        dec_digits(n / 10).push((0x30 + n % 10) as u8)
    }
}

/// The ASCII decimal digits of `i`, zero-padded on the left to two digits.
pub open spec fn padded_digits(i: nat) -> Seq<u8> {
    if i < 10 {
        seq![0x30u8] + dec_digits(i)
    } else {
        dec_digits(i)
    }
}

/// Appends the ASCII decimal digits of `n` to `out`.
pub fn push_decimal(out: &mut Vec<u8>, n: usize)
    ensures
        final(out)@ == old(out)@ + dec_digits(n as nat),
    decreases n,
{
    if n < 10 {
        out.push(0x30 + n as u8);
    } else {
        push_decimal(out, n / 10);
        out.push(0x30 + (n % 10) as u8);
    }
    assert(out@ =~= old(out)@ + dec_digits(n as nat));
}

/// Appends the two-digit zero-padded ASCII decimal digits of `i` to `out`.
pub fn push_padded_decimal(out: &mut Vec<u8>, i: usize)
    ensures
        final(out)@ == old(out)@ + padded_digits(i as nat),
{
    if i < 10 {
        out.push(0x30);
    }
    push_decimal(out, i);
    assert(out@ =~= old(out)@ + padded_digits(i as nat));
}

} // verus!
