use vstd::prelude::*;
use crate::apply::{apply_two_spec, two_out, two_source};
use crate::bits::{
    bit_of, with_bit, lemma_bit_of_le_1, lemma_with_bit_in_range, lemma_swap_bits_twice,
    lemma_flip_twice,
};
use crate::gates::{Coef, coef_mul, permutation_spec, swap_perm, cnot_perm, swap_spec, cnot_spec};
use crate::omega::{Zw, zw_add, zw_zero, zw_times_omega_pow};
use crate::state::dim_of;

verus! {

/// Row `2 * bit q0 + bit q1` of a permutation matrix picks the one input at column
/// `perm(row)`.
proof fn lemma_permutation_out(v: Seq<Zw>, perm: spec_fn(int) -> int, q0: u64, q1: u64, i: u64)
    requires
        forall|r: int| 0 <= r < 4 ==> 0 <= #[trigger] perm(r) < 4,
    ensures
        two_out(v, permutation_spec(perm), q0, q1, i) == v[two_source(
            i,
            q0,
            q1,
            perm(2 * bit_of(i, q0) + bit_of(i, q1)) as u64,
        ) as int],
{
    lemma_bit_of_le_1(i, q0);
    lemma_bit_of_le_1(i, q1);
    let r = 2 * bit_of(i, q0) + bit_of(i, q1);
    let m = permutation_spec(perm);
    assert forall|x: Zw| #[trigger] coef_mul(Coef::Omega(0), x) == x by {
        assert(zw_times_omega_pow(x, 0) == x);
    }
    assert forall|x: Zw| #[trigger] coef_mul(Coef::Zero, x) == zw_zero() by {}
    assert forall|x: Zw| #[trigger] zw_add(x, zw_zero()) == x && zw_add(zw_zero(), x) == x by {}
    assert(0 <= perm(r) < 4);
    assert(m.entries@ == seq![
        if perm(0) == 0 { Coef::Omega(0) } else { Coef::Zero },
        if perm(0) == 1 { Coef::Omega(0) } else { Coef::Zero },
        if perm(0) == 2 { Coef::Omega(0) } else { Coef::Zero },
        if perm(0) == 3 { Coef::Omega(0) } else { Coef::Zero },
        if perm(1) == 0 { Coef::Omega(0) } else { Coef::Zero },
        if perm(1) == 1 { Coef::Omega(0) } else { Coef::Zero },
        if perm(1) == 2 { Coef::Omega(0) } else { Coef::Zero },
        if perm(1) == 3 { Coef::Omega(0) } else { Coef::Zero },
        if perm(2) == 0 { Coef::Omega(0) } else { Coef::Zero },
        if perm(2) == 1 { Coef::Omega(0) } else { Coef::Zero },
        if perm(2) == 2 { Coef::Omega(0) } else { Coef::Zero },
        if perm(2) == 3 { Coef::Omega(0) } else { Coef::Zero },
        if perm(3) == 0 { Coef::Omega(0) } else { Coef::Zero },
        if perm(3) == 1 { Coef::Omega(0) } else { Coef::Zero },
        if perm(3) == 2 { Coef::Omega(0) } else { Coef::Zero },
        if perm(3) == 3 { Coef::Omega(0) } else { Coef::Zero },
    ]);
}

/// Swap on (q0, q1) moves the amplitude of each basis state to the basis state
/// with bits q0 and q1 exchanged.
pub proof fn lemma_swap_exchanges_bits(v: Seq<Zw>, q0: u64, q1: u64, i: u64)
    requires
        i < v.len(),
    ensures
        apply_two_spec(v, swap_spec(), q0, q1)[i as int] == v[with_bit(
            with_bit(i, q0, bit_of(i, q1)),
            q1,
            bit_of(i, q0),
        ) as int],
{
    lemma_bit_of_le_1(i, q0);
    lemma_bit_of_le_1(i, q1);
    lemma_permutation_out(v, |r: int| swap_perm(r), q0, q1, i);
}

/// Applying Swap to the same pair of qubits twice gives back the state.
pub proof fn lemma_swap_involution(v: Seq<Zw>, n: u64, q0: u64, q1: u64)
    requires
        n <= 58,
        q0 < n,
        q1 < n,
        q0 != q1,
        v.len() == dim_of(n as nat),
    ensures
        apply_two_spec(apply_two_spec(v, swap_spec(), q0, q1), swap_spec(), q0, q1) == v,
{
    let once = apply_two_spec(v, swap_spec(), q0, q1);
    let twice = apply_two_spec(once, swap_spec(), q0, q1);
    assert forall|k: int| 0 <= k < v.len() implies #[trigger] twice[k] == v[k] by {
        let i = k as u64;
        lemma_bit_of_le_1(i, q0);
        lemma_bit_of_le_1(i, q1);
        lemma_permutation_out(once, |r: int| swap_perm(r), q0, q1, i);
        let j = with_bit(with_bit(i, q0, bit_of(i, q1)), q1, bit_of(i, q0));
        lemma_with_bit_in_range(i, q0, bit_of(i, q1), n);
        lemma_with_bit_in_range(with_bit(i, q0, bit_of(i, q1)), q1, bit_of(i, q0), n);
        lemma_bit_of_le_1(j, q0);
        lemma_bit_of_le_1(j, q1);
        lemma_permutation_out(v, |r: int| swap_perm(r), q0, q1, j);
        let kk = with_bit(with_bit(j, q0, bit_of(j, q1)), q1, bit_of(j, q0));
        lemma_swap_bits_twice(i, j, kk, q0, q1);
    }
    assert(twice =~= v);
}

proof fn lemma_xor_bits(b0: u64, b1: u64)
    by (bit_vector)
    requires
        b0 <= 1,
        b1 <= 1,
    ensures
        b0 == 0 ==> b1 ^ b0 == b1,
        b0 == 1 ==> b1 ^ b0 == 1 - b1,
{
}

/// Applying CNOT with the same control and target twice gives back the state.
pub proof fn lemma_cnot_involution(v: Seq<Zw>, n: u64, q0: u64, q1: u64)
    requires
        n <= 58,
        q0 < n,
        q1 < n,
        q0 != q1,
        v.len() == dim_of(n as nat),
    ensures
        apply_two_spec(apply_two_spec(v, cnot_spec(), q0, q1), cnot_spec(), q0, q1) == v,
{
    let once = apply_two_spec(v, cnot_spec(), q0, q1);
    let twice = apply_two_spec(once, cnot_spec(), q0, q1);
    assert forall|k: int| 0 <= k < v.len() implies #[trigger] twice[k] == v[k] by {
        let i = k as u64;
        lemma_bit_of_le_1(i, q0);
        lemma_bit_of_le_1(i, q1);
        lemma_xor_bits(bit_of(i, q0), bit_of(i, q1));
        lemma_permutation_out(once, |r: int| cnot_perm(r), q0, q1, i);
        let j = with_bit(with_bit(i, q0, bit_of(i, q0)), q1, bit_of(i, q1) ^ bit_of(i, q0));
        lemma_with_bit_in_range(i, q0, bit_of(i, q0), n);
        lemma_with_bit_in_range(with_bit(i, q0, bit_of(i, q0)), q1, bit_of(i, q1) ^ bit_of(i, q0), n);
        lemma_bit_of_le_1(j, q0);
        lemma_bit_of_le_1(j, q1);
        lemma_xor_bits(bit_of(j, q0), bit_of(j, q1));
        lemma_permutation_out(v, |r: int| cnot_perm(r), q0, q1, j);
        let kk = with_bit(with_bit(j, q0, bit_of(j, q0)), q1, bit_of(j, q1) ^ bit_of(j, q0));
        lemma_flip_twice(i, j, kk, q0, q1);
    }
    assert(twice =~= v);
}

} // verus!
