//! Packed bit storage.
//!
//! The bits of a hash are kept in a boxed bit slice of the `bitvec` crate,
//! eight to the byte. What the slice holds is known here by the name
//! `stored_bits` alone; the three functions below are the only ones that
//! reach into it, and what they state of it is taken on trust.

use bitvec::boxed::BitBox;
use bitvec::order::Lsb0;
use vstd::prelude::*;

verus! {

/// A fixed run of bits, packed eight to the byte in a `bitvec::boxed::BitBox`.
#[derive(Debug)]
#[verifier::external_body]
pub struct PackedBits {
    inner: BitBox<u8, Lsb0>,
}

/// The bits that a packed run holds, first to last.
pub uninterp spec fn stored_bits(b: PackedBits) -> Seq<bool>;

/// Collecting an iterator of `bool` into a `BitBox` (its `FromIterator`):
/// the box holds the bits that the iterator gave, in their order. A box
/// holds at most an eighth of `usize::MAX` bits; beyond that the collecting
/// panics.
#[verifier::external_body]
pub(crate) fn pack(bits: &Vec<bool>) -> (b: PackedBits)
    requires
        bits@.len() <= usize::MAX / 8,
    ensures
        stored_bits(b) == bits@,
{
    PackedBits { inner: bits.iter().copied().collect() }
}

/// `BitSlice::len`, reached through the box: the number of bits held.
#[verifier::external_body]
pub(crate) fn bit_count(b: &PackedBits) -> (n: usize)
    ensures
        n == stored_bits(*b).len(),
{
    b.inner.len()
}

/// Indexing a `BitSlice` by a `usize`, reached through the box: the bit at
/// place `i`. An index beyond the last bit panics.
#[verifier::external_body]
pub(crate) fn bit_at(b: &PackedBits, i: usize) -> (bit: bool)
    requires
        i < stored_bits(*b).len(),
    ensures
        bit == stored_bits(*b)[i as int],
{
    b.inner[i]
}

} // verus!
