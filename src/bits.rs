//! Facts about single bits of a 64-bit word.
use vstd::prelude::*;
use vstd::std_specs::bits::*;

verus! {

/// Bit `i` of `a` is set.
pub open spec fn bit(a: u64, i: u64) -> bool {
    (a >> i) & 1u64 == 1u64
}

/// Setting bit `t` changes bit `t` alone.
pub proof fn lemma_set_bit(a: u64, t: u64, i: u64)
    requires
        t < 64,
        i < 64,
    ensures
        bit(a | (1u64 << t), i) == (bit(a, i) || i == t),
{
    assert(((a | (1u64 << t)) >> i) & 1u64 == 1u64 <==> ((a >> i) & 1u64 == 1u64 || i == t))
        by (bit_vector)
        requires
            t < 64,
            i < 64,
    ;
}

/// Clearing bit `t` changes bit `t` alone.
pub proof fn lemma_clear_bit(a: u64, t: u64, i: u64)
    requires
        t < 64,
        i < 64,
    ensures
        bit(a & !(1u64 << t), i) == (bit(a, i) && i != t),
{
    assert(((a & !(1u64 << t)) >> i) & 1u64 == 1u64 <==> ((a >> i) & 1u64 == 1u64 && i != t))
        by (bit_vector)
        requires
            t < 64,
            i < 64,
    ;
}

/// The single-bit mask `1 << t` tests bit `t`.
pub proof fn lemma_mask_test(a: u64, t: u64)
    requires
        t < 64,
    ensures
        (a & (1u64 << t) == 0) == !bit(a, t),
{
    assert((a & (1u64 << t) == 0) <==> !((a >> t) & 1u64 == 1u64)) by (bit_vector)
        requires
            t < 64,
    ;
}

/// A zero word has no bit set, and a word with no bit among the low 64 set is zero.
pub proof fn lemma_zero_bits(a: u64)
    ensures
        (a == 0) <==> (forall|i: u64| i < 64 ==> !#[trigger] bit(a, i)),
{
    if a != 0 {
        broadcast use axiom_u64_trailing_zeros;

        let z = a.trailing_zeros() as u64;
        assert(bit(a, z));
    }
    assert forall|i: u64| a == 0 && i < 64 implies !#[trigger] bit(a, i) by {
        assert(((0u64 >> i) & 1u64) == 0u64) by (bit_vector);
    }
}

/// `a & (a - 1)` clears the lowest set bit of a nonzero `a`.
pub proof fn lemma_clear_lowest(a: u64)
    requires
        a != 0,
    ensures
        a.trailing_zeros() < 64,
        a & vstd::prelude::sub(a, 1) == a & !(1u64 << (a.trailing_zeros() as u64)),
        bit(a, a.trailing_zeros() as u64),
{
    broadcast use axiom_u64_trailing_zeros;

    let z = a.trailing_zeros() as u64;
    assert(a << vstd::prelude::sub(64, z) == 0);
    assert(a & vstd::prelude::sub(a, 1) == a & !(1u64 << z)) by (bit_vector)
        requires
            a != 0,
            z < 64,
            (a >> z) & 1u64 == 1u64,
            a << vstd::prelude::sub(64, z) == 0,
    ;
}

/// What `trailing_ones` says of single bits.
pub proof fn lemma_trailing_ones(a: u64)
    ensures
        a.trailing_ones() <= 64,
        a.trailing_ones() < 64 ==> !bit(a, a.trailing_ones() as u64),
        forall|j: u64| j < a.trailing_ones() ==> #[trigger] bit(a, j),
{
    broadcast use axiom_u64_trailing_ones;

}

} // verus!
