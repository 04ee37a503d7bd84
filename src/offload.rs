use vstd::prelude::*;
use crate::apply::{apply_single_spec, apply_single_qubit_gate, gate_result};
use crate::bits::{bit_of, with_bit, lemma_bit_of_le_1, lemma_with_bit_in_range};
use crate::gates::{Coef, Matrix2, coef_mul, coef_times};
use crate::omega::{Amp, Zw, zw_add, zw_fits, wide_add, narrow, AMP_BOUND};
use crate::state::{StateVector, SimError, dim_of};

verus! {

/// Execution units per block of a kernel launch.
pub const BLOCK_SIZE: usize = 256;

/// The four coefficient planes of a state, as the device holds them.
pub type PlanesView = (Seq<int>, Seq<int>, Seq<int>, Seq<int>);

/// Splits numerators into flat coefficient planes.
pub open spec fn upload_spec(v: Seq<Zw>) -> PlanesView {
    (
        Seq::new(v.len(), |k: int| v[k].0),
        Seq::new(v.len(), |k: int| v[k].1),
        Seq::new(v.len(), |k: int| v[k].2),
        Seq::new(v.len(), |k: int| v[k].3),
    )
}

pub open spec fn plane_at(p: PlanesView, k: int) -> Zw {
    (p.0[k], p.1[k], p.2[k], p.3[k])
}

/// What the kernel's execution unit `i` writes: the coupled 2-vector transform read
/// from the flat planes.
pub open spec fn kernel_out(p: PlanesView, g: Seq<Coef>, t: u64, i: u64) -> Zw {
    let b = bit_of(i, t) as int;
    zw_add(
        coef_mul(g[2 * b], plane_at(p, with_bit(i, t, 0) as int)),
        coef_mul(g[2 * b + 1], plane_at(p, with_bit(i, t, 1) as int)),
    )
}

/// The numerators that the offloaded strategy computes.
pub open spec fn offload_spec(v: Seq<Zw>, m: Matrix2, t: u64) -> Seq<Zw> {
    Seq::new(v.len(), |i: int| kernel_out(upload_spec(v), m.entries@, t, i as u64))
}

/// Flat coefficient planes held on the device side.
pub struct Planes {
    pub a: Vec<i64>,
    pub b: Vec<i64>,
    pub c: Vec<i64>,
    pub d: Vec<i64>,
}

impl View for Planes {
    type V = PlanesView;

    open spec fn view(&self) -> PlanesView {
        (
            self.a@.map_values(|x: i64| x as int),
            self.b@.map_values(|x: i64| x as int),
            self.c@.map_values(|x: i64| x as int),
            self.d@.map_values(|x: i64| x as int),
        )
    }
}

impl Planes {
    pub open spec fn len_is(&self, len: int) -> bool {
        &&& self.a@.len() == len
        &&& self.b@.len() == len
        &&& self.c@.len() == len
        &&& self.d@.len() == len
    }

    fn read(&self, k: usize) -> (r: Amp)
        requires
            k < self.a@.len(),
            self.len_is(self.a@.len() as int),
        ensures
            r@ == plane_at(self@, k as int),
    {
        Amp { a: self.a[k], b: self.b[k], c: self.c[k], d: self.d[k] }
    }
}

/// Copies the numerators into flat planes.
fn upload(v: &Vec<Amp>) -> (r: Planes)
    ensures
        r.len_is(v@.len() as int),
        r@ == upload_spec(v@.map_values(|x: Amp| x@)),
{
    let mut p = Planes { a: Vec::new(), b: Vec::new(), c: Vec::new(), d: Vec::new() };
    let mut k: usize = 0;
    while k < v.len()
        invariant
            k <= v@.len(),
            p.len_is(k as int),
            forall|j: int| 0 <= j < k ==> plane_at(p@, j) == (#[trigger] v@[j])@,
        decreases v@.len() - k,
    {
        p.a.push(v[k].a);
        p.b.push(v[k].b);
        p.c.push(v[k].c);
        p.d.push(v[k].d);
        k = k + 1;
    }
    let ghost u = upload_spec(v@.map_values(|x: Amp| x@));
    assert(p@.0 =~= u.0);
    assert(p@.1 =~= u.1);
    assert(p@.2 =~= u.2);
    assert(p@.3 =~= u.3);
    p
}

/// Applies a one-qubit gate to qubit `target` in the layout of a device kernel: the
/// state is copied into flat coefficient planes, the per-index kernel body is run
/// for each output index, block by block of `BLOCK_SIZE` indices (here one after
/// another), and the output planes are copied back.
pub fn apply_single_qubit_gate_offload(state: &StateVector, gate: &Matrix2, target: usize) -> (r:
    Result<StateVector, SimError>)
    requires
        state.wf(),
        gate.wf(),
        target < state.num_qubits,
    ensures
        gate_result(
            r,
            *state,
            offload_spec(state.amps_view(), *gate, target as u64),
            state.root2_exp + gate.root2_exp,
        ),
{
    let ghost v = state.amps_view();
    let ghost spec_out = offload_spec(v, *gate, target as u64);
    if state.root2_exp > u64::MAX - gate.root2_exp {
        return Err(SimError::Overflow);
    }
    let dim = state.amps.len();
    let n = state.num_qubits as u64;
    let t = target as u64;
    let input = upload(&state.amps);
    let g: [Coef; 4] = gate.entries;
    let mut out = Planes { a: vec![0i64; dim], b: vec![0i64; dim], c: vec![0i64; dim], d: vec![0i64; dim] };
    let blocks = dim / BLOCK_SIZE + if dim % BLOCK_SIZE == 0 { 0 } else { 1 };
    let mut block: usize = 0;
    let mut done: usize = 0;
    while block < blocks
        invariant
            state.wf(),
            gate.wf(),
            g@ == gate.entries@,
            v == state.amps_view(),
            input@ == upload_spec(v),
            input.len_is(dim as int),
            t == target as u64,
            spec_out == offload_spec(v, *gate, t),
            dim == state.amps@.len(),
            dim == dim_of(n as nat),
            n == state.num_qubits,
            t < n,
            blocks == dim as int / 256 + if dim as int % 256 == 0 { 0int } else { 1 },
            block <= blocks,
            done == if block * BLOCK_SIZE < dim { block * BLOCK_SIZE } else { dim as int },
            out.len_is(dim as int),
            forall|k: int| 0 <= k < done ==> plane_at(out@, k) == #[trigger] spec_out[k],
        decreases blocks - block,
    {
        let mut lane: usize = 0;
        while lane < BLOCK_SIZE && done < dim
            invariant
                gate.wf(),
                g@ == gate.entries@,
                input@ == upload_spec(v),
                input.len_is(dim as int),
                t == target as u64,
                v == state.amps_view(),
                spec_out == offload_spec(v, *gate, t),
                dim == state.amps@.len(),
                v.len() == dim,
                dim == dim_of(n as nat),
                n <= 58,
                t < n,
                block < blocks,
                lane <= BLOCK_SIZE,
                done == block * BLOCK_SIZE + lane,
                done <= dim,
                out.len_is(dim as int),
                forall|k: int| 0 <= k < done ==> plane_at(out@, k) == #[trigger] spec_out[k],
            decreases BLOCK_SIZE - lane,
        {
            let i = done;
            let iu = i as u64;
            let b = (iu >> t) & 1;
            let s0 = (iu & !(1u64 << t)) | (0u64 << t);
            let s1 = (iu & !(1u64 << t)) | (1u64 << t);
            proof {
                lemma_bit_of_le_1(iu, t);
                lemma_with_bit_in_range(iu, t, 0, n);
                lemma_with_bit_in_range(iu, t, 1, n);
            }
            let w = wide_add(
                coef_times(g[(2 * b) as usize], input.read(s0 as usize)),
                coef_times(g[(2 * b + 1) as usize], input.read(s1 as usize)),
                Ghost(AMP_BOUND as int),
            );
            assert(w@ == spec_out[i as int]);
            match narrow(w) {
                Some(x) => {
                    out.a.set(i, x.a);
                    out.b.set(i, x.b);
                    out.c.set(i, x.c);
                    out.d.set(i, x.d);
                },
                None => {
                    assert(!zw_fits(spec_out[i as int]));
                    return Err(SimError::Overflow);
                },
            }
            lane = lane + 1;
            done = done + 1;
        }
        block = block + 1;
    }
    let mut amps: Vec<Amp> = Vec::with_capacity(dim);
    while amps.len() < dim
        invariant
            out.len_is(dim as int),
            spec_out.len() == dim,
            amps@.len() <= dim,
            forall|k: int| 0 <= k < dim ==> plane_at(out@, k) == #[trigger] spec_out[k],
            forall|k: int| 0 <= k < amps@.len() ==> (#[trigger] amps@[k])@ == spec_out[k],
        decreases dim - amps@.len(),
    {
        let k = amps.len();
        amps.push(out.read(k));
    }
    let s = StateVector { amps, num_qubits: state.num_qubits, root2_exp: state.root2_exp + gate.root2_exp };
    assert(s.amps_view() =~= spec_out);
    Ok(s)
}

/// The offloaded kernel computes, amplitude by amplitude, exactly what the host
/// sweep computes, on every register and every one-qubit gate.
pub proof fn lemma_offload_matches_host(v: Seq<Zw>, m: Matrix2, t: u64, n: u64)
    requires
        1 <= n <= 58,
        t < n,
        v.len() == dim_of(n as nat),
    ensures
        offload_spec(v, m, t) == apply_single_spec(v, m, t),
{
    assert forall|i: int| 0 <= i < v.len() implies #[trigger] offload_spec(v, m, t)[i]
        == apply_single_spec(v, m, t)[i] by {
        let iu = i as u64;
        lemma_with_bit_in_range(iu, t, 0, n);
        lemma_with_bit_in_range(iu, t, 1, n);
    }
    assert(offload_spec(v, m, t) =~= apply_single_spec(v, m, t));
}

/// How one-qubit gates are executed.
#[derive(Clone, Copy, Debug, PartialEq, Eq)]
pub enum Strategy {
    /// A sequential sweep on the host.
    Host,
    /// The per-index kernel over flat coefficient planes, run block by block.
    Offload,
}

/// Applies a one-qubit gate with the chosen strategy; both give the host sweep's
/// result.
pub fn apply_single_with(strategy: Strategy, state: &StateVector, gate: &Matrix2, target: usize) -> (r:
    Result<StateVector, SimError>)
    requires
        state.wf(),
        gate.wf(),
        target < state.num_qubits,
    ensures
        gate_result(
            r,
            *state,
            apply_single_spec(state.amps_view(), *gate, target as u64),
            state.root2_exp + gate.root2_exp,
        ),
{
    match strategy {
        Strategy::Host => apply_single_qubit_gate(state, gate, target),
        Strategy::Offload => {
            proof {
                lemma_offload_matches_host(state.amps_view(), *gate, target as u64, state.num_qubits as u64);
            }
            apply_single_qubit_gate_offload(state, gate, target)
        },
    }
}

} // verus!
