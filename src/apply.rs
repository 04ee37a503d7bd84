use vstd::prelude::*;
use crate::bits::{bit_of, with_bit, lemma_bit_of_le_1, lemma_with_bit_in_range};
use crate::gates::{Matrix2, Matrix4, coef_mul, coef_times};
use crate::omega::{Amp, Zw, zw_add, zw_fits, wide_add, narrow, AMP_BOUND};
use crate::state::{StateVector, SimError, dim_of};

verus! {

/// Output amplitude `i` of a one-qubit gate on qubit `t`: row `bit t of i` of the
/// matrix against the two inputs that differ from `i` in bit `t` only.
pub open spec fn single_out(v: Seq<Zw>, m: Matrix2, t: u64, i: u64) -> Zw {
    let b = bit_of(i, t) as int;
    zw_add(
        coef_mul(m.entry(b, 0), v[with_bit(i, t, 0) as int]),
        coef_mul(m.entry(b, 1), v[with_bit(i, t, 1) as int]),
    )
}

/// The numerators after a one-qubit gate on qubit `t`.
pub open spec fn apply_single_spec(v: Seq<Zw>, m: Matrix2, t: u64) -> Seq<Zw> {
    Seq::new(v.len(), |i: int| single_out(v, m, t, i as u64))
}

/// The source index of column `c` for output `i` of a two-qubit gate on (q0, q1):
/// the high bit of `c` goes to `q0`, the low bit to `q1`.
pub open spec fn two_source(i: u64, q0: u64, q1: u64, c: u64) -> u64 {
    with_bit(with_bit(i, q0, c / 2), q1, c % 2)
}

/// Output amplitude `i` of a two-qubit gate on (q0, q1).
pub open spec fn two_out(v: Seq<Zw>, m: Matrix4, q0: u64, q1: u64, i: u64) -> Zw {
    let r = 2 * bit_of(i, q0) + bit_of(i, q1);
    zw_add(
        zw_add(
            coef_mul(m.entry(r, 0), v[two_source(i, q0, q1, 0) as int]),
            coef_mul(m.entry(r, 1), v[two_source(i, q0, q1, 1) as int]),
        ),
        zw_add(
            coef_mul(m.entry(r, 2), v[two_source(i, q0, q1, 2) as int]),
            coef_mul(m.entry(r, 3), v[two_source(i, q0, q1, 3) as int]),
        ),
    )
}

/// The numerators after a two-qubit gate on (q0, q1).
pub open spec fn apply_two_spec(v: Seq<Zw>, m: Matrix4, q0: u64, q1: u64) -> Seq<Zw> {
    Seq::new(v.len(), |i: int| two_out(v, m, q0, q1, i as u64))
}

/// Every numerator fits in 64-bit coefficients, and so does the scale.
pub open spec fn representable(v: Seq<Zw>, root2_exp: int) -> bool {
    &&& root2_exp <= u64::MAX
    &&& forall|i: int| 0 <= i < v.len() ==> zw_fits(#[trigger] v[i])
}

/// What a gate application that returns `r` owes: the exact result when it is
/// representable, else `Overflow`.
pub open spec fn gate_result(
    r: Result<StateVector, SimError>,
    state: StateVector,
    v: Seq<Zw>,
    root2_exp: int,
) -> bool {
    &&& r is Ok <==> representable(v, root2_exp)
    &&& r matches Err(e) ==> e == SimError::Overflow
    &&& r matches Ok(s) ==> {
        &&& s.wf()
        &&& s.num_qubits == state.num_qubits
        &&& s.root2_exp == root2_exp
        &&& s.amps_view() == v
    }
}

/// Applies a one-qubit gate to qubit `target`, sweeping every output index.
pub fn apply_single_qubit_gate(state: &StateVector, gate: &Matrix2, target: usize) -> (r: Result<
    StateVector,
    SimError,
>)
    requires
        state.wf(),
        gate.wf(),
        target < state.num_qubits,
    ensures
        gate_result(
            r,
            *state,
            apply_single_spec(state.amps_view(), *gate, target as u64),
            state.root2_exp + gate.root2_exp,
        ),
{
    let ghost v = state.amps_view();
    let ghost spec_out = apply_single_spec(v, *gate, target as u64);
    if state.root2_exp > u64::MAX - gate.root2_exp {
        return Err(SimError::Overflow);
    }
    let dim = state.amps.len();
    let n = state.num_qubits as u64;
    let t = target as u64;
    let mut out: Vec<Amp> = Vec::with_capacity(dim);
    while out.len() < dim
        invariant
            state.wf(),
            gate.wf(),
            v == state.amps_view(),
            spec_out == apply_single_spec(v, *gate, t),
            dim == state.amps@.len(),
            dim == dim_of(n as nat),
            n == state.num_qubits,
            t < n,
            t == target as u64,
            out@.len() <= dim,
            forall|k: int| 0 <= k < out@.len() ==> (#[trigger] out@[k])@ == spec_out[k],
        decreases dim - out@.len(),
    {
        let i = out.len();
        let iu = i as u64;
        let b = (iu >> t) & 1;
        let s0 = (iu & !(1u64 << t)) | (0u64 << t);
        let s1 = (iu & !(1u64 << t)) | (1u64 << t);
        proof {
            lemma_bit_of_le_1(iu, t);
            lemma_with_bit_in_range(iu, t, 0, n);
            lemma_with_bit_in_range(iu, t, 1, n);
        }
        let e0 = gate.entries[(2 * b) as usize];
        let e1 = gate.entries[(2 * b + 1) as usize];
        let w = wide_add(
            coef_times(e0, state.amps[s0 as usize]),
            coef_times(e1, state.amps[s1 as usize]),
            Ghost(AMP_BOUND as int),
        );
        assert(w@ == spec_out[i as int]);
        match narrow(w) {
            Some(a) => out.push(a),
            None => {
                assert(!zw_fits(spec_out[i as int]));
                return Err(SimError::Overflow);
            },
        }
    }
    let s = StateVector { amps: out, num_qubits: state.num_qubits, root2_exp: state.root2_exp + gate.root2_exp };
    assert(s.amps_view() =~= spec_out);
    Ok(s)
}

/// The source index of column `c` for output `i` of a two-qubit gate.
fn two_source_index(i: u64, q0: u64, q1: u64, c: u64, n: Ghost<u64>) -> (r: u64)
    requires
        n@ < 64,
        q0 < n@,
        q1 < n@,
        c < 4,
        i < (1u64 << n@),
    ensures
        r == two_source(i, q0, q1, c),
        r < (1u64 << n@),
{
    let hi = c / 2;
    let lo = c % 2;
    let a = (i & !(1u64 << q0)) | (hi << q0);
    proof {
        lemma_with_bit_in_range(i, q0, hi, n@);
        lemma_with_bit_in_range(a, q1, lo, n@);
    }
    (a & !(1u64 << q1)) | (lo << q1)
}

/// Applies a two-qubit gate to the ordered pair (`q0`, `q1`) of distinct qubits.
pub fn apply_two_qubit_gate(state: &StateVector, gate: &Matrix4, q0: usize, q1: usize) -> (r: Result<
    StateVector,
    SimError,
>)
    requires
        state.wf(),
        gate.wf(),
        q0 < state.num_qubits,
        q1 < state.num_qubits,
        q0 != q1,
    ensures
        gate_result(
            r,
            *state,
            apply_two_spec(state.amps_view(), *gate, q0 as u64, q1 as u64),
            state.root2_exp + gate.root2_exp,
        ),
{
    let ghost v = state.amps_view();
    let ghost spec_out = apply_two_spec(v, *gate, q0 as u64, q1 as u64);
    if state.root2_exp > u64::MAX - gate.root2_exp {
        return Err(SimError::Overflow);
    }
    let dim = state.amps.len();
    let n = state.num_qubits as u64;
    let c0 = q0 as u64;
    let c1 = q1 as u64;
    let mut out: Vec<Amp> = Vec::with_capacity(dim);
    while out.len() < dim
        invariant
            state.wf(),
            gate.wf(),
            v == state.amps_view(),
            c0 == q0 as u64,
            c1 == q1 as u64,
            spec_out == apply_two_spec(v, *gate, c0, c1),
            dim == state.amps@.len(),
            dim == dim_of(n as nat),
            n == state.num_qubits,
            c0 < n,
            c1 < n,
            out@.len() <= dim,
            forall|k: int| 0 <= k < out@.len() ==> (#[trigger] out@[k])@ == spec_out[k],
        decreases dim - out@.len(),
    {
        let i = out.len();
        let iu = i as u64;
        let b0 = (iu >> c0) & 1;
        let b1 = (iu >> c1) & 1;
        proof {
            lemma_bit_of_le_1(iu, c0);
            lemma_bit_of_le_1(iu, c1);
        }
        let row = 2 * b0 + b1;
        let s0 = two_source_index(iu, c0, c1, 0, Ghost(n));
        let s1 = two_source_index(iu, c0, c1, 1, Ghost(n));
        let s2 = two_source_index(iu, c0, c1, 2, Ghost(n));
        let s3 = two_source_index(iu, c0, c1, 3, Ghost(n));
        let base = (4 * row) as usize;
        let lo = wide_add(
            coef_times(gate.entries[base], state.amps[s0 as usize]),
            coef_times(gate.entries[base + 1], state.amps[s1 as usize]),
            Ghost(AMP_BOUND as int),
        );
        let hi = wide_add(
            coef_times(gate.entries[base + 2], state.amps[s2 as usize]),
            coef_times(gate.entries[base + 3], state.amps[s3 as usize]),
            Ghost(AMP_BOUND as int),
        );
        let w = wide_add(lo, hi, Ghost(2 * AMP_BOUND as int));
        assert(w@ == spec_out[i as int]);
        match narrow(w) {
            Some(a) => out.push(a),
            None => {
                assert(!zw_fits(spec_out[i as int]));
                return Err(SimError::Overflow);
            },
        }
    }
    let s = StateVector { amps: out, num_qubits: state.num_qubits, root2_exp: state.root2_exp + gate.root2_exp };
    assert(s.amps_view() =~= spec_out);
    Ok(s)
}

} // verus!
