//! Trusted boundary around `bit_vec::BitVec`, the bit container that backs
//! the frame bitmap. Each wrapper states over `bit_vec_view` what the
//! corresponding `bit_vec` method does, as its source shows.

use vstd::prelude::*;

verus! {

#[verifier::external_type_specification]
#[verifier::external_body]
#[verifier::reject_recursive_types(B)]
pub struct ExBitVec<B>(bit_vec::BitVec<B>);

/// The bits a `bit_vec::BitVec` holds, lowest index first.
pub uninterp spec fn bit_vec_view(v: bit_vec::BitVec<u32>) -> Seq<bool>;

/// Relies on bit_vec::BitVec::from_elem: a vector of `nbits` bits, each set
/// to the given value.
#[verifier::external_body]
pub(crate) fn bits_from_elem(nbits: usize, bit: bool) -> (r: bit_vec::BitVec<u32>)
    ensures
        bit_vec_view(r).len() == nbits,
        forall|i: int| 0 <= i < nbits ==> bit_vec_view(r)[i] == bit,
{
    bit_vec::BitVec::from_elem(nbits, bit)
}

/// Relies on bit_vec::BitVec::len: the number of bits held.
#[verifier::external_body]
pub(crate) fn bits_len(v: &bit_vec::BitVec<u32>) -> (n: usize)
    ensures
        n == bit_vec_view(*v).len(),
{
    v.len()
}

/// Relies on bit_vec::BitVec::get: `Some(bit i)` whenever `i` is in bounds.
#[verifier::external_body]
pub(crate) fn bits_get(v: &bit_vec::BitVec<u32>, i: usize) -> (b: bool)
    requires
        i < bit_vec_view(*v).len(),
    ensures
        b == bit_vec_view(*v)[i as int],
{
    v.get(i).unwrap_or(false)
}

/// Relies on bit_vec::BitVec::set: writes bit `i`, leaving every other bit
/// and the length unchanged; panics only when `i` is out of bounds, which the
/// precondition rules out.
#[verifier::external_body]
pub(crate) fn bits_set(v: &mut bit_vec::BitVec<u32>, i: usize, x: bool)
    requires
        i < bit_vec_view(*old(v)).len(),
    ensures
        bit_vec_view(*final(v)) == bit_vec_view(*old(v)).update(i as int, x),
{
    v.set(i, x)
}

} // verus!
