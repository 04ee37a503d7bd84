use vstd::prelude::*;

verus! {

/// Bit `t` of the basis index `i` (qubit `t` is bit `t`, little-endian).
pub open spec fn bit_of(i: u64, t: u64) -> u64 {
    (i >> t) & 1
}

/// The basis index `i` with bit `t` replaced by `j` (0 or 1).
pub open spec fn with_bit(i: u64, t: u64, j: u64) -> u64 {
    (i & !(1u64 << t)) | (j << t)
}

pub proof fn lemma_bit_of_le_1(i: u64, t: u64)
    by (bit_vector)
    ensures
        bit_of(i, t) <= 1,
{
}

pub proof fn lemma_with_bit_in_range(i: u64, t: u64, j: u64, n: u64)
    by (bit_vector)
    requires
        n < 64,
        t < n,
        j <= 1,
        i < (1u64 << n),
    ensures
        with_bit(i, t, j) < (1u64 << n),
{
}

pub proof fn lemma_with_bit_own(i: u64, t: u64)
    by (bit_vector)
    requires
        t < 64,
    ensures
        with_bit(i, t, bit_of(i, t)) == i,
{
}

pub proof fn lemma_swap_bits_twice(i: u64, j: u64, k: u64, q0: u64, q1: u64)
    by (bit_vector)
    requires
        q0 < 64,
        q1 < 64,
        q0 != q1,
        j == with_bit(with_bit(i, q0, bit_of(i, q1)), q1, bit_of(i, q0)),
        k == with_bit(with_bit(j, q0, bit_of(j, q1)), q1, bit_of(j, q0)),
    ensures
        k == i,
{
}

pub proof fn lemma_flip_twice(i: u64, j: u64, k: u64, q0: u64, q1: u64)
    by (bit_vector)
    requires
        q0 < 64,
        q1 < 64,
        q0 != q1,
        j == with_bit(with_bit(i, q0, bit_of(i, q0)), q1, bit_of(i, q1) ^ bit_of(i, q0)),
        k == with_bit(with_bit(j, q0, bit_of(j, q0)), q1, bit_of(j, q1) ^ bit_of(j, q0)),
    ensures
        k == i,
{
}

} // verus!
