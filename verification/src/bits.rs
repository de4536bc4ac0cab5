//! Growable bit sequences, backed by `bitvec::vec::BitVec`.
use vstd::prelude::*;
use bitvec::vec::BitVec;

verus! {

/// A growable sequence of bits. The `BitVec` it holds is hidden from Verus
/// (Verus does not accept a declaration of `BitVec` itself, whose generic
/// parameters are bounded by bitvec's own traits); `bitvec_bits` names what it
/// holds.
#[verifier::external_body]
pub struct Bits {
    inner: BitVec,
}

/// The bits that a `Bits` holds, first bit first.
pub uninterp spec fn bitvec_bits(v: Bits) -> Seq<bool>;

/// The largest number of bits that a `BitVec` of `usize` elements can hold
/// (`BitSlice::MAX_BITS`, that is `usize::MAX >> 3`).
pub open spec fn max_bits() -> nat {
    (usize::MAX / 8) as nat
}

/// `BitVec::new`: an empty bit-vector.
#[verifier::external_body]
pub(crate) fn bitvec_new() -> (r: Bits)
    ensures
        bitvec_bits(r) == Seq::<bool>::empty(),
{
    Bits { inner: BitVec::new() }
}

/// `BitVec::push`: appends one bit. It panics when the new length would exceed
/// `BitSlice::MAX_BITS`, which `requires` rules out.
#[verifier::external_body]
pub(crate) fn bitvec_push(v: &mut Bits, bit: bool)
    requires
        bitvec_bits(*old(v)).len() < max_bits(),
    ensures
        bitvec_bits(*final(v)) == bitvec_bits(*old(v)).push(bit),
{
    v.inner.push(bit)
}

/// `BitVec::len`: the number of bits held.
#[verifier::external_body]
pub(crate) fn bitvec_len(v: &Bits) -> (r: usize)
    ensures
        r == bitvec_bits(*v).len(),
{
    v.inner.len()
}

/// Indexing a `BitVec` with `[i]`: the bit at position `i`. It panics when
/// `i` is out of bounds, which `requires` rules out.
#[verifier::external_body]
pub(crate) fn bitvec_get(v: &Bits, i: usize) -> (r: bool)
    requires
        i < bitvec_bits(*v).len(),
    ensures
        r == bitvec_bits(*v)[i as int],
{
    v.inner[i]
}

} // verus!
