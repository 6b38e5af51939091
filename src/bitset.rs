//! The set of page indices kept in a `uniset::BitSet`.
use vstd::prelude::*;
use uniset::BitSet;

verus! {

#[verifier::external_type_specification]
#[verifier::external_body]
pub struct ExBitSet(uniset::BitSet);

/// The positions set in a bit set.
pub uninterp spec fn bits_of(b: BitSet) -> Set<nat>;

/// Relies on `BitSet::new`: a new set holds no position.
#[verifier::external_body]
pub(crate) fn new_bits() -> (r: BitSet)
    ensures
        bits_of(r) == Set::<nat>::empty(),
{
    BitSet::new()
}

/// Relies on `BitSet::set`: adds one position, growing the set as needed.
#[verifier::external_body]
pub(crate) fn set_bit(b: &mut BitSet, position: usize)
    requires
        position < usize::MAX,
    ensures
        bits_of(*final(b)) == bits_of(*old(b)).insert(position as nat),
{
    b.set(position)
}

/// Relies on `BitSet::clear`: removes one position; one past the capacity is not there.
#[verifier::external_body]
pub(crate) fn clear_bit(b: &mut BitSet, position: usize)
    ensures
        bits_of(*final(b)) == bits_of(*old(b)).remove(position as nat),
{
    b.clear(position)
}

/// Relies on `BitSet::test`: whether a position is set.
#[verifier::external_body]
pub(crate) fn test_bit(b: &BitSet, position: usize) -> (r: bool)
    ensures
        r == bits_of(*b).contains(position as nat),
{
    b.test(position)
}

/// Relies on `BitSet::reserve`: makes room without changing what is set.
#[verifier::external_body]
pub(crate) fn reserve_bits(b: &mut BitSet, cap: usize)
    ensures
        bits_of(*final(b)) == bits_of(*old(b)),
{
    b.reserve(cap)
}

} // verus!
