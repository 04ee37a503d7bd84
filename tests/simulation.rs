use qubit_sim::circuit::{Circuit, Instruction};
use qubit_sim::gates::{hadamard, pauli_x, swap, cnot, Gate};
use qubit_sim::measure::{compute_probabilities, weight, Weight};
use qubit_sim::offload::{apply_single_qubit_gate_offload, Strategy};
use qubit_sim::apply::{apply_single_qubit_gate, apply_two_qubit_gate};
use qubit_sim::omega::Amp;
use qubit_sim::state::{SimError, StateVector, MAX_QUBITS};

fn amp(a: i64, b: i64, c: i64, d: i64) -> Amp {
    Amp { a, b, c, d }
}

fn zero() -> Amp {
    amp(0, 0, 0, 0)
}

fn one() -> Amp {
    amp(1, 0, 0, 0)
}

fn run(n: usize, gates: &[(Gate, Vec<usize>)], strategy: Strategy) -> StateVector {
    let mut c = Circuit::new(n);
    for (g, t) in gates {
        c.add_gate(*g, t.clone()).unwrap();
    }
    c.run(strategy).unwrap()
}

fn basis(n: usize, index: usize) -> StateVector {
    let mut s = StateVector::initialize(n).unwrap();
    s.amps[0] = zero();
    s.amps[index] = one();
    s
}

/// A state with many distinct nonzero amplitudes on `n` qubits.
fn mixed(n: usize) -> StateVector {
    let mut gates = Vec::new();
    for q in 0..n {
        gates.push((Gate::H, vec![q]));
        gates.push((Gate::T, vec![q]));
        if q % 2 == 1 {
            gates.push((Gate::Y, vec![q]));
        }
    }
    if n >= 2 {
        gates.push((Gate::CNOT, vec![0, n - 1]));
    }
    run(n, &gates, Strategy::Host)
}

fn to_f64(w: Weight) -> f64 {
    w.whole as f64 + w.root2 as f64 * std::f64::consts::SQRT_2
}

#[test]
fn initialize_gives_ground_state() {
    for n in [1usize, 2, 5, 10] {
        let s = StateVector::initialize(n).unwrap();
        assert_eq!(s.amps.len(), 1 << n);
        assert_eq!(s.len(), 1 << n);
        assert_eq!(s.num_qubits, n);
        assert_eq!(s.root2_exp, 0);
        assert_eq!(s.amps[0], one());
        assert!(s.amps[1..].iter().all(|a| *a == zero()));
    }
}

#[test]
fn initialize_rejects_bad_dimensions() {
    assert_eq!(StateVector::initialize(0).unwrap_err(), SimError::InvalidDimension);
    assert_eq!(StateVector::initialize(MAX_QUBITS + 1).unwrap_err(), SimError::InvalidDimension);
    assert_eq!(StateVector::initialize(64).unwrap_err(), SimError::InvalidDimension);
    assert_eq!(StateVector::initialize(usize::MAX).unwrap_err(), SimError::InvalidDimension);
}

#[test]
fn hadamard_on_zero_gives_equal_superposition() {
    let s = run(1, &[(Gate::H, vec![0])], Strategy::Host);
    assert_eq!(s.amps, vec![one(), one()]);
    assert_eq!(s.root2_exp, 1);
    let t = compute_probabilities(&s).unwrap();
    assert!(!t.degenerate);
    assert_eq!(t.weights, vec![Weight { whole: 1, root2: 0 }, Weight { whole: 1, root2: 0 }]);
    assert_eq!(t.total, Weight { whole: 2, root2: 0 });
    let p: Vec<f64> = t.weights.iter().map(|w| to_f64(*w) / to_f64(t.total)).collect();
    assert!((p[0] - 0.5).abs() < 1e-12 && (p[1] - 0.5).abs() < 1e-12);
}

#[test]
fn pauli_x_flips_the_bit() {
    let s = run(1, &[(Gate::X, vec![0])], Strategy::Host);
    assert_eq!(s.amps, vec![zero(), one()]);
    assert_eq!(s.root2_exp, 0);
}

#[test]
fn pauli_y_and_z_phases() {
    let y = run(1, &[(Gate::Y, vec![0])], Strategy::Host);
    assert_eq!(y.amps, vec![zero(), amp(0, 0, 1, 0)]);
    let z = run(1, &[(Gate::H, vec![0]), (Gate::Z, vec![0])], Strategy::Host);
    assert_eq!(z.amps, vec![one(), amp(-1, 0, 0, 0)]);
    let id = run(1, &[(Gate::H, vec![0]), (Gate::ID, vec![0])], Strategy::Host);
    assert_eq!(id.amps, vec![one(), one()]);
}

#[test]
fn t_gate_phase_is_exact() {
    let s = run(1, &[(Gate::H, vec![0]), (Gate::T, vec![0])], Strategy::Host);
    assert_eq!(s.amps, vec![one(), amp(0, 1, 0, 0)]);
    let t = compute_probabilities(&s).unwrap();
    assert_eq!(t.weights[1], Weight { whole: 1, root2: 0 });
    let eight = run(1, &[(Gate::X, vec![0]); 1].iter().cloned().chain(std::iter::repeat((Gate::T, vec![0])).take(8)).collect::<Vec<_>>(), Strategy::Host);
    assert_eq!(eight.amps, vec![zero(), one()]);
    let four = run(1, &[(Gate::X, vec![0]); 1].iter().cloned().chain(std::iter::repeat((Gate::T, vec![0])).take(4)).collect::<Vec<_>>(), Strategy::Host);
    assert_eq!(four.amps, vec![zero(), amp(-1, 0, 0, 0)]);
}

#[test]
fn cnot_with_control_set_flips_target() {
    let s = run(2, &[(Gate::X, vec![0]), (Gate::CNOT, vec![0, 1])], Strategy::Host);
    assert_eq!(s.amps, vec![zero(), zero(), zero(), one()]);
    let unset = run(2, &[(Gate::X, vec![1]), (Gate::CNOT, vec![0, 1])], Strategy::Host);
    assert_eq!(unset.amps, vec![zero(), zero(), one(), zero()]);
}

#[test]
fn swap_exchanges_differing_bits() {
    let s = run(2, &[(Gate::X, vec![0]), (Gate::SWAP, vec![0, 1])], Strategy::Host);
    assert_eq!(s.amps, vec![zero(), zero(), one(), zero()]);
    let same = run(2, &[(Gate::X, vec![0]), (Gate::X, vec![1]), (Gate::SWAP, vec![1, 0])], Strategy::Host);
    assert_eq!(same.amps, vec![zero(), zero(), zero(), one()]);
    let b = basis(3, 0b001);
    let out = apply_two_qubit_gate(&b, &swap(), 0, 2).unwrap();
    assert_eq!(out.amps[0b100], one());
}

#[test]
fn two_qubit_gates_are_involutions() {
    let s = mixed(4);
    for (q0, q1) in [(0usize, 1usize), (1, 0), (0, 3), (2, 1)] {
        let once = apply_two_qubit_gate(&s, &swap(), q0, q1).unwrap();
        let twice = apply_two_qubit_gate(&once, &swap(), q0, q1).unwrap();
        assert_eq!(twice.amps, s.amps);
        let once = apply_two_qubit_gate(&s, &cnot(), q0, q1).unwrap();
        assert_ne!(once.amps, s.amps);
        let twice = apply_two_qubit_gate(&once, &cnot(), q0, q1).unwrap();
        assert_eq!(twice.amps, s.amps);
    }
}

#[test]
fn host_and_offload_strategies_agree() {
    for n in [1usize, 4, 10] {
        let s = mixed(n);
        for g in [Gate::H, Gate::T, Gate::X, Gate::Y, Gate::Z, Gate::ID] {
            for t in [0, n / 2, n - 1] {
                let m = match g {
                    Gate::H => hadamard(),
                    Gate::T => qubit_sim::gates::t_gate(),
                    Gate::X => pauli_x(),
                    Gate::Y => qubit_sim::gates::pauli_y(),
                    Gate::Z => qubit_sim::gates::pauli_z(),
                    _ => qubit_sim::gates::identity(),
                };
                let host = apply_single_qubit_gate(&s, &m, t).unwrap();
                let off = apply_single_qubit_gate_offload(&s, &m, t).unwrap();
                assert_eq!(host.amps, off.amps);
                assert_eq!(host.root2_exp, off.root2_exp);
            }
        }
        let gates = vec![(Gate::H, vec![0]), (Gate::T, vec![n - 1]), (Gate::H, vec![n - 1])];
        assert_eq!(run(n, &gates, Strategy::Host).amps, run(n, &gates, Strategy::Offload).amps);
    }
}

#[test]
fn probabilities_are_nonnegative_and_sum_to_one() {
    for n in [1usize, 3, 6] {
        let s = mixed(n);
        let t = compute_probabilities(&s).unwrap();
        assert!(!t.degenerate);
        assert!(t.status().is_ok());
        let mut whole = 0i128;
        let mut root2 = 0i128;
        let mut sum = 0.0f64;
        for w in &t.weights {
            whole += w.whole;
            root2 += w.root2;
            let p = to_f64(*w) / to_f64(t.total);
            assert!(p >= -1e-12);
            sum += p;
        }
        assert_eq!(Weight { whole, root2 }, t.total);
        assert!((sum - 1.0).abs() < 1e-9);
    }
}

#[test]
fn weight_is_exact_squared_magnitude() {
    assert_eq!(weight(amp(1, 1, 0, 0)), Weight { whole: 2, root2: 1 });
    assert_eq!(weight(amp(1, 0, 0, 1)), Weight { whole: 2, root2: -1 });
    assert_eq!(weight(amp(3, -2, 5, 7)), Weight { whole: 87, root2: -6 - 21 - 10 + 35 });
    let w = weight(amp(1, 1, 0, 0));
    assert!((to_f64(w) - (2.0 + std::f64::consts::SQRT_2)).abs() < 1e-12);
}

#[test]
fn all_zero_state_is_degenerate() {
    let mut s = StateVector::initialize(3).unwrap();
    s.amps[0] = zero();
    let t = compute_probabilities(&s).unwrap();
    assert!(t.degenerate);
    assert_eq!(t.status(), Err(SimError::DegenerateState));
    assert_eq!(t.total, Weight { whole: 0, root2: 0 });
    assert!(t.weights.iter().all(|w| *w == Weight { whole: 0, root2: 0 }));
    let c = Circuit::new(3);
    assert!(c.compute_probabilities(&s).unwrap().degenerate);
}

#[test]
fn gate_order_matters() {
    let hx = run(1, &[(Gate::H, vec![0]), (Gate::X, vec![0])], Strategy::Host);
    let xh = run(1, &[(Gate::X, vec![0]), (Gate::H, vec![0])], Strategy::Host);
    assert_eq!(hx.amps, vec![one(), one()]);
    assert_eq!(xh.amps, vec![one(), amp(-1, 0, 0, 0)]);
    assert_ne!(hx.amps, xh.amps);
}

#[test]
fn add_gate_rejects_bad_targets() {
    let mut c = Circuit::new(2);
    assert_eq!(c.add_gate(Gate::H, vec![2]), Err(SimError::OutOfRangeTarget));
    assert_eq!(c.add_gate(Gate::H, vec![]), Err(SimError::OutOfRangeTarget));
    assert_eq!(c.add_gate(Gate::H, vec![0, 1]), Err(SimError::OutOfRangeTarget));
    assert_eq!(c.add_gate(Gate::CNOT, vec![0]), Err(SimError::OutOfRangeTarget));
    assert_eq!(c.add_gate(Gate::SWAP, vec![1, 1]), Err(SimError::OutOfRangeTarget));
    assert_eq!(c.add_gate(Gate::CNOT, vec![0, 2]), Err(SimError::OutOfRangeTarget));
    assert!(c.gates.is_empty());
    assert_eq!(c.add_gate(Gate::CNOT, vec![1, 0]), Ok(()));
    assert_eq!(c.gates.len(), 1);
    assert_eq!(c.gates[0].gate, Gate::CNOT);
    assert_eq!(c.gates[0].targets, vec![1, 0]);
    assert_eq!(Gate::SWAP.arity(), 2);
    assert_eq!(Gate::T.arity(), 1);
}

#[test]
fn run_rejects_empty_register() {
    let c = Circuit::new(0);
    assert_eq!(c.run(Strategy::Host).unwrap_err(), SimError::InvalidDimension);
    let c = Circuit::new(MAX_QUBITS + 1);
    assert_eq!(c.run(Strategy::Offload).unwrap_err(), SimError::InvalidDimension);
}

#[test]
fn later_gates_do_not_change_earlier_runs() {
    let mut c = Circuit::new(1);
    c.add_gate(Gate::X, vec![0]).unwrap();
    let first = c.run(Strategy::Host).unwrap();
    c.add_gate(Gate::H, vec![0]).unwrap();
    assert_eq!(first.amps, vec![zero(), one()]);
    assert_eq!(c.run(Strategy::Host).unwrap().amps, vec![one(), amp(-1, 0, 0, 0)]);
}

#[test]
fn overflow_is_reported() {
    let mut s = StateVector::initialize(1).unwrap();
    s.amps = vec![amp(i64::MAX, 0, 0, 0), amp(i64::MAX, 0, 0, 0)];
    assert_eq!(apply_single_qubit_gate(&s, &hadamard(), 0).unwrap_err(), SimError::Overflow);
    assert_eq!(apply_single_qubit_gate_offload(&s, &hadamard(), 0).unwrap_err(), SimError::Overflow);
    assert_eq!(compute_probabilities(&s).unwrap_err(), SimError::Overflow);
    let x = apply_single_qubit_gate(&s, &pauli_x(), 0).unwrap();
    assert_eq!(x.amps, s.amps);
    s.root2_exp = u64::MAX;
    assert_eq!(apply_single_qubit_gate(&s, &pauli_x(), 0).unwrap().root2_exp, u64::MAX);
    assert_eq!(apply_single_qubit_gate(&basis(1, 0), &hadamard(), 0).unwrap().root2_exp, 1);
    let mut h = basis(1, 0);
    h.root2_exp = u64::MAX;
    assert_eq!(apply_single_qubit_gate(&h, &hadamard(), 0).unwrap_err(), SimError::Overflow);
    let _ = Instruction { gate: Gate::H, targets: vec![0] };
}

#[test]
fn gate_apply_dispatches_by_arity() {
    let s = basis(2, 1);
    let out = Gate::CNOT.apply(&s, &vec![0, 1], Strategy::Host).unwrap();
    assert_eq!(out.amps[3], one());
    let out = Gate::X.apply(&s, &vec![1], Strategy::Offload).unwrap();
    assert_eq!(out.amps[3], one());
}

#[test]
fn norm_squared_sum_of_superposition() {
    let s = run(2, &[(Gate::H, vec![0]), (Gate::H, vec![1]), (Gate::T, vec![1])], Strategy::Host);
    assert_eq!(s.norm_squared_sum(), Ok(Weight { whole: 4, root2: 0 }));
    assert_eq!(s.root2_exp, 2);
    let mut big = StateVector::initialize(1).unwrap();
    big.amps[1] = amp(0, 0, i64::MIN, 0);
    assert_eq!(big.norm_squared_sum(), Err(SimError::Overflow));
}

fn degenerate_at(a: Amp, root2_exp: u64) -> bool {
    let mut s = StateVector::initialize(1).unwrap();
    s.amps[0] = a;
    s.root2_exp = root2_exp;
    let t = compute_probabilities(&s).unwrap();
    if t.degenerate {
        assert_eq!(t.status(), Err(SimError::DegenerateState));
        assert_eq!(t.total, Weight { whole: 0, root2: 0 });
        assert!(t.weights.iter().all(|w| *w == Weight { whole: 0, root2: 0 }));
    } else {
        assert!(t.status().is_ok());
        assert_eq!(t.weights[0], weight(a));
        assert_eq!(t.total, weight(a));
    }
    t.degenerate
}

#[test]
fn tiny_norm_is_degenerate() {
    // squared norm 1 / 2^e against the threshold 2^-40
    assert!(!degenerate_at(one(), 0));
    assert!(!degenerate_at(one(), 40));
    assert!(degenerate_at(one(), 41));
    assert!(degenerate_at(one(), 100));
    assert!(degenerate_at(one(), u64::MAX));
    // sqrt 2 - 1 = -1 + w - w^3: squared norm 3 - 2 sqrt 2, about 0.1716
    let small = amp(-1, 1, 0, -1);
    assert_eq!(weight(small), Weight { whole: 3, root2: -2 });
    assert!(!degenerate_at(small, 37));
    assert!(degenerate_at(small, 38));
    // 1 + w: squared norm 2 + sqrt 2, about 3.414
    assert!(!degenerate_at(amp(1, 1, 0, 0), 41));
    assert!(degenerate_at(amp(1, 1, 0, 0), 42));
    // a large total: 2^60 * 2 / 2^e
    assert!(!degenerate_at(amp(1 << 30, 1 << 30, 0, 0), 100));
    assert!(degenerate_at(amp(1 << 30, 0, 0, 0), 101));
}

#[test]
fn total_beyond_threshold_range_is_overflow() {
    let mut s = StateVector::initialize(1).unwrap();
    s.amps[0] = amp(1 << 41, 0, 0, 0);
    assert_eq!(compute_probabilities(&s).unwrap_err(), SimError::Overflow);
    assert_eq!(s.norm_squared_sum(), Ok(Weight { whole: 1 << 82, root2: 0 }));
}

#[test]
fn run_reduces_common_factors() {
    let hh = run(1, &[(Gate::H, vec![0]), (Gate::H, vec![0])], Strategy::Host);
    assert_eq!(hh.amps, vec![one(), zero()]);
    assert_eq!(hh.root2_exp, 0);
    let deep: Vec<(Gate, Vec<usize>)> = std::iter::repeat((Gate::H, vec![0])).take(301).collect();
    let s = run(1, &deep, Strategy::Offload);
    assert_eq!(s.amps, vec![one(), one()]);
    assert_eq!(s.root2_exp, 1);
    let unreduced = apply_single_qubit_gate(&apply_single_qubit_gate(&basis(1, 0), &hadamard(), 0).unwrap(), &hadamard(), 0).unwrap();
    assert_eq!(unreduced.amps, vec![amp(2, 0, 0, 0), zero()]);
    assert_eq!(unreduced.root2_exp, 2);
    let r = unreduced.reduce();
    assert_eq!(r.amps, vec![one(), zero()]);
    assert_eq!(r.root2_exp, 0);
    let mut odd = basis(1, 0);
    odd.amps[0] = amp(-4, 2, 0, -6);
    odd.root2_exp = 3;
    let r = odd.reduce();
    assert_eq!(r.amps, vec![amp(-2, 1, 0, -3), zero()]);
    assert_eq!(r.root2_exp, 1);
}
