use vstd::prelude::*;
use crate::apply::{apply_single_spec, apply_two_spec, apply_two_qubit_gate, gate_result, representable};
use crate::gates::{
    Gate, Matrix2, Matrix4, hadamard, t_gate, pauli_x, pauli_y, pauli_z, identity, cnot, swap, hadamard_spec,
    t_gate_spec, pauli_x_spec, pauli_y_spec, pauli_z_spec, identity_spec, cnot_spec, swap_spec,
};
use crate::offload::{Strategy, apply_single_with};
use crate::measure::{ProbabilityTable, measurable, table_of, compute_probabilities};
use crate::omega::Zw;
use crate::state::{StateVector, SimError, ground_state, valid_qubit_count, reduce_spec};

verus! {

/// The matrix of a one-qubit gate.
pub open spec fn matrix2_of(g: Gate) -> Matrix2 {
    match g {
        Gate::H => hadamard_spec(),
        Gate::T => t_gate_spec(),
        Gate::X => pauli_x_spec(),
        Gate::Y => pauli_y_spec(),
        Gate::Z => pauli_z_spec(),
        _ => identity_spec(),
    }
}

/// The matrix of a two-qubit gate.
pub open spec fn matrix4_of(g: Gate) -> Matrix4 {
    match g {
        Gate::CNOT => cnot_spec(),
        _ => swap_spec(),
    }
}

/// A gate fits its targets on `n` qubits: as many targets as its arity, each
/// below `n`, and two distinct ones for a two-qubit gate.
pub open spec fn instr_valid(g: Gate, targets: Seq<usize>, n: nat) -> bool {
    &&& targets.len() == g.arity_spec()
    &&& forall|k: int| 0 <= k < targets.len() ==> (#[trigger] targets[k]) < n
    &&& targets.len() == 2 ==> targets[0] != targets[1]
}

/// The numerators of a state and its power of 1/sqrt 2.
pub type StateView = (Seq<Zw>, int);

/// One gate applied to a state.
pub open spec fn step_spec(s: StateView, g: Gate, targets: Seq<usize>) -> StateView {
    if g.arity_spec() == 1 {
        (apply_single_spec(s.0, matrix2_of(g), targets[0] as u64), s.1 + matrix2_of(g).root2_exp)
    } else {
        (
            apply_two_spec(s.0, matrix4_of(g), targets[0] as u64, targets[1] as u64),
            s.1 + matrix4_of(g).root2_exp,
        )
    }
}

/// The state after the first `k` instructions, from |0...0> on `n` qubits: each
/// gate applied in turn, and its result reduced.
pub open spec fn run_prefix(n: nat, instrs: Seq<(Gate, Seq<usize>)>, k: nat) -> StateView
    decreases k, 0nat,
{
    if k == 0 {
        (ground_state(n), 0)
    } else {
        let next = step_at(n, instrs, (k - 1) as nat);
        reduce_spec(next.0, next.1)
    }
}

/// Instruction `k` applied to the state after the first `k`, before reduction.
pub open spec fn step_at(n: nat, instrs: Seq<(Gate, Seq<usize>)>, k: nat) -> StateView
    decreases k, 1nat,
{
    let ins = instrs[k as int];
    step_spec(run_prefix(n, instrs, k), ins.0, ins.1)
}

impl Gate {
    /// Applies this gate to `targets` of `state`.
    pub fn apply(&self, state: &StateVector, targets: &Vec<usize>, strategy: Strategy) -> (r: Result<
        StateVector,
        SimError,
    >)
        requires
            state.wf(),
            instr_valid(*self, targets@, state.num_qubits as nat),
        ensures
            ({
                let next = step_spec((state.amps_view(), state.root2_exp as int), *self, targets@);
                gate_result(r, *state, next.0, next.1)
            }),
    {
        match self {
            Gate::H => apply_single_with(strategy, state, &hadamard(), targets[0]),
            Gate::T => apply_single_with(strategy, state, &t_gate(), targets[0]),
            Gate::X => apply_single_with(strategy, state, &pauli_x(), targets[0]),
            Gate::Y => apply_single_with(strategy, state, &pauli_y(), targets[0]),
            Gate::Z => apply_single_with(strategy, state, &pauli_z(), targets[0]),
            Gate::ID => apply_single_with(strategy, state, &identity(), targets[0]),
            Gate::CNOT => apply_two_qubit_gate(state, &cnot(), targets[0], targets[1]),
            Gate::SWAP => apply_two_qubit_gate(state, &swap(), targets[0], targets[1]),
        }
    }
}

/// A gate and the qubits it acts on.
pub struct Instruction {
    pub gate: Gate,
    pub targets: Vec<usize>,
}

/// A register size and the gates to apply to it, in order.
pub struct Circuit {
    pub num_qubits: usize,
    pub gates: Vec<Instruction>,
}

impl Circuit {
    pub open spec fn instrs(&self) -> Seq<(Gate, Seq<usize>)> {
        self.gates@.map_values(|ins: Instruction| (ins.gate, ins.targets@))
    }

    /// Every instruction fits the register.
    pub open spec fn wf(&self) -> bool {
        forall|k: int|
            0 <= k < self.gates@.len() ==> instr_valid(
                (#[trigger] self.gates@[k]).gate,
                self.gates@[k].targets@,
                self.num_qubits as nat,
            )
    }

    /// An empty circuit on `num_qubits` qubits.
    pub fn new(num_qubits: usize) -> (r: Circuit)
        ensures
            r.num_qubits == num_qubits,
            r.gates@.len() == 0,
            r.wf(),
    {
        Circuit { num_qubits, gates: Vec::new() }
    }

    /// Appends a gate on `targets`, or refuses targets that do not fit it.
    pub fn add_gate(&mut self, gate: Gate, targets: Vec<usize>) -> (r: Result<(), SimError>)
        requires
            old(self).wf(),
        ensures
            final(self).wf(),
            final(self).num_qubits == old(self).num_qubits,
            r is Ok <==> instr_valid(gate, targets@, old(self).num_qubits as nat),
            r matches Err(e) ==> e == SimError::OutOfRangeTarget && final(self).gates@ == old(
                self,
            ).gates@,
            r is Ok ==> final(self).instrs() == old(self).instrs().push((gate, targets@)),
    {
        if targets.len() != gate.arity() {
            return Err(SimError::OutOfRangeTarget);
        }
        let mut k: usize = 0;
        while k < targets.len()
            invariant
                self.wf(),
                self.num_qubits == old(self).num_qubits,
                self.gates@ == old(self).gates@,
                k <= targets@.len(),
                forall|j: int| 0 <= j < k ==> (#[trigger] targets@[j]) < self.num_qubits,
            decreases targets@.len() - k,
        {
            if targets[k] >= self.num_qubits {
                return Err(SimError::OutOfRangeTarget);
            }
            k = k + 1;
        }
        if targets.len() == 2 && targets[0] == targets[1] {
            return Err(SimError::OutOfRangeTarget);
        }
        let ghost before = self.instrs();
        let ghost ts = targets@;
        self.gates.push(Instruction { gate, targets });
        assert(self.instrs() =~= before.push((gate, ts)));
        Ok(())
    }

    /// Runs the circuit from |0...0>, applying every gate in order and reducing the
    /// numerators after each.
    pub fn run(&self, strategy: Strategy) -> (r: Result<StateVector, SimError>)
        requires
            self.wf(),
        ensures
            r is Ok <==> valid_qubit_count(self.num_qubits as nat) && forall|k: nat|
                k < self.gates@.len() ==> {
                    let s = #[trigger] step_at(self.num_qubits as nat, self.instrs(), k);
                    representable(s.0, s.1)
                },
            !valid_qubit_count(self.num_qubits as nat) ==> r == Err::<StateVector, SimError>(
                SimError::InvalidDimension,
            ),
            valid_qubit_count(self.num_qubits as nat) && r is Err ==> r == Err::<
                StateVector,
                SimError,
            >(SimError::Overflow),
            r matches Ok(s) ==> {
                &&& s.wf()
                &&& s.num_qubits == self.num_qubits
                &&& (s.amps_view(), s.root2_exp as int) == run_prefix(
                    self.num_qubits as nat,
                    self.instrs(),
                    self.gates@.len(),
                )
            },
    {
        let ghost n = self.num_qubits as nat;
        let ghost instrs = self.instrs();
        let mut state = match StateVector::initialize(self.num_qubits) {
            Ok(s) => s,
            Err(e) => return Err(e),
        };
        let mut k: usize = 0;
        while k < self.gates.len()
            invariant
                self.wf(),
                instrs == self.instrs(),
                n == self.num_qubits,
                valid_qubit_count(n),
                k <= self.gates@.len(),
                state.wf(),
                state.num_qubits == self.num_qubits,
                (state.amps_view(), state.root2_exp as int) == run_prefix(n, instrs, k as nat),
                forall|j: nat| j < k ==> {
                    let s = #[trigger] step_at(n, instrs, j);
                    representable(s.0, s.1)
                },
            decreases self.gates@.len() - k,
        {
            let ins = &self.gates[k];
            assert(instrs[k as int] == (ins.gate, ins.targets@));
            match ins.gate.apply(&state, &ins.targets, strategy) {
                Ok(s) => {
                    state = s.reduce();
                },
                Err(e) => {
                    assert(!representable(
                        step_at(n, instrs, k as nat).0,
                        step_at(n, instrs, k as nat).1,
                    ));
                    return Err(e);
                },
            }
            k = k + 1;
        }
        Ok(state)
    }

    /// The probability table of a state that this circuit produced.
    pub fn compute_probabilities(&self, state: &StateVector) -> (r: Result<ProbabilityTable, SimError>)
        ensures
            r is Ok <==> measurable(state.amps_view()),
            r matches Err(e) ==> e == SimError::Overflow,
            r matches Ok(t) ==> table_of(t, state.amps_view(), state.root2_exp as nat),
    {
        compute_probabilities(state)
    }
}

} // verus!
