use vstd::prelude::*;
use crate::omega::{Amp, Wide, Zw, zw_zero, zw_times_omega_pow, bounded, times_omega_pow, AMP_BOUND};

verus! {

/// One matrix coefficient: zero, or the unit w^k (w = e^(i*pi/4), k < 8).
#[derive(Clone, Copy, Debug, PartialEq, Eq)]
pub enum Coef {
    Zero,
    Omega(u8),
}

impl Coef {
    pub open spec fn wf(self) -> bool {
        match self {
            Coef::Zero => true,
            Coef::Omega(k) => k < 8,
        }
    }
}

/// The product of a coefficient and a value of Z[w].
pub open spec fn coef_mul(c: Coef, x: Zw) -> Zw {
    match c {
        Coef::Zero => zw_zero(),
        Coef::Omega(k) => zw_times_omega_pow(x, k as nat),
    }
}

pub fn coef_times(c: Coef, x: Amp) -> (r: Wide)
    ensures
        r@ == coef_mul(c, x@),
        bounded(r@, AMP_BOUND as int),
{
    match c {
        Coef::Zero => Wide { a: 0, b: 0, c: 0, d: 0 },
        Coef::Omega(k) => times_omega_pow(x, k),
    }
}

/// A 2x2 gate matrix: (1/sqrt 2)^root2_exp times the coefficients, row-major.
#[derive(Clone, Copy, Debug)]
pub struct Matrix2 {
    pub entries: [Coef; 4],
    pub root2_exp: u64,
}

/// A 4x4 gate matrix: (1/sqrt 2)^root2_exp times the coefficients, row-major.
/// Rows and columns are indexed by (first_bit << 1) | second_bit.
#[derive(Clone, Copy, Debug)]
pub struct Matrix4 {
    pub entries: [Coef; 16],
    pub root2_exp: u64,
}

impl Matrix2 {
    pub open spec fn entry(self, r: int, c: int) -> Coef {
        self.entries@[2 * r + c]
    }

    pub open spec fn wf(self) -> bool {
        forall|i: int| 0 <= i < 4 ==> (#[trigger] self.entries@[i]).wf()
    }
}

impl Matrix4 {
    pub open spec fn entry(self, r: int, c: int) -> Coef {
        self.entries@[4 * r + c]
    }

    pub open spec fn wf(self) -> bool {
        forall|i: int| 0 <= i < 16 ==> (#[trigger] self.entries@[i]).wf()
    }
}

/// The gates of the library.
#[derive(Clone, Copy, Debug, PartialEq, Eq)]
pub enum Gate {
    H,
    T,
    X,
    Y,
    Z,
    ID,
    CNOT,
    SWAP,
}

impl Gate {
    /// How many qubits this gate acts on.
    pub open spec fn arity_spec(self) -> nat {
        match self {
            Gate::CNOT | Gate::SWAP => 2,
            _ => 1,
        }
    }

    pub fn arity(&self) -> (r: usize)
        ensures
            r as nat == self.arity_spec(),
    {
        match self {
            Gate::CNOT | Gate::SWAP => 2,
            _ => 1,
        }
    }
}

pub open spec fn m2(e00: Coef, e01: Coef, e10: Coef, e11: Coef, s: u64) -> Matrix2 {
    Matrix2 { entries: [e00, e01, e10, e11], root2_exp: s }
}

pub open spec fn hadamard_spec() -> Matrix2 {
    m2(Coef::Omega(0), Coef::Omega(0), Coef::Omega(0), Coef::Omega(4), 1)
}

pub open spec fn t_gate_spec() -> Matrix2 {
    m2(Coef::Omega(0), Coef::Zero, Coef::Zero, Coef::Omega(1), 0)
}

pub open spec fn pauli_x_spec() -> Matrix2 {
    m2(Coef::Zero, Coef::Omega(0), Coef::Omega(0), Coef::Zero, 0)
}

pub open spec fn pauli_y_spec() -> Matrix2 {
    m2(Coef::Zero, Coef::Omega(6), Coef::Omega(2), Coef::Zero, 0)
}

pub open spec fn pauli_z_spec() -> Matrix2 {
    m2(Coef::Omega(0), Coef::Zero, Coef::Zero, Coef::Omega(4), 0)
}

pub open spec fn identity_spec() -> Matrix2 {
    m2(Coef::Omega(0), Coef::Zero, Coef::Zero, Coef::Omega(0), 0)
}

/// Hadamard: (1/sqrt 2) [[1, 1], [1, -1]].
pub fn hadamard() -> (r: Matrix2)
    ensures
        r == hadamard_spec(),
        r.wf(),
{
    Matrix2 { entries: [Coef::Omega(0), Coef::Omega(0), Coef::Omega(0), Coef::Omega(4)], root2_exp: 1 }
}

/// T: [[1, 0], [0, e^(i*pi/4)]], with the phase held exactly.
pub fn t_gate() -> (r: Matrix2)
    ensures
        r == t_gate_spec(),
        r.wf(),
{
    Matrix2 { entries: [Coef::Omega(0), Coef::Zero, Coef::Zero, Coef::Omega(1)], root2_exp: 0 }
}

/// Pauli X: [[0, 1], [1, 0]].
pub fn pauli_x() -> (r: Matrix2)
    ensures
        r == pauli_x_spec(),
        r.wf(),
{
    Matrix2 { entries: [Coef::Zero, Coef::Omega(0), Coef::Omega(0), Coef::Zero], root2_exp: 0 }
}

/// Pauli Y: [[0, -i], [i, 0]].
pub fn pauli_y() -> (r: Matrix2)
    ensures
        r == pauli_y_spec(),
        r.wf(),
{
    Matrix2 { entries: [Coef::Zero, Coef::Omega(6), Coef::Omega(2), Coef::Zero], root2_exp: 0 }
}

/// Pauli Z: [[1, 0], [0, -1]].
pub fn pauli_z() -> (r: Matrix2)
    ensures
        r == pauli_z_spec(),
        r.wf(),
{
    Matrix2 { entries: [Coef::Omega(0), Coef::Zero, Coef::Zero, Coef::Omega(4)], root2_exp: 0 }
}

/// Identity: [[1, 0], [0, 1]].
pub fn identity() -> (r: Matrix2)
    ensures
        r == identity_spec(),
        r.wf(),
{
    Matrix2 { entries: [Coef::Omega(0), Coef::Zero, Coef::Zero, Coef::Omega(0)], root2_exp: 0 }
}

/// The 4x4 permutation matrix that sends column `perm(r)` to row `r`.
pub open spec fn permutation_spec(perm: spec_fn(int) -> int) -> Matrix4 {
    Matrix4 {
        entries: [
            if perm(0) == 0 { Coef::Omega(0) } else { Coef::Zero },
            if perm(0) == 1 { Coef::Omega(0) } else { Coef::Zero },
            if perm(0) == 2 { Coef::Omega(0) } else { Coef::Zero },
            if perm(0) == 3 { Coef::Omega(0) } else { Coef::Zero },
            if perm(1) == 0 { Coef::Omega(0) } else { Coef::Zero },
            if perm(1) == 1 { Coef::Omega(0) } else { Coef::Zero },
            if perm(1) == 2 { Coef::Omega(0) } else { Coef::Zero },
            if perm(1) == 3 { Coef::Omega(0) } else { Coef::Zero },
            if perm(2) == 0 { Coef::Omega(0) } else { Coef::Zero },
            if perm(2) == 1 { Coef::Omega(0) } else { Coef::Zero },
            if perm(2) == 2 { Coef::Omega(0) } else { Coef::Zero },
            if perm(2) == 3 { Coef::Omega(0) } else { Coef::Zero },
            if perm(3) == 0 { Coef::Omega(0) } else { Coef::Zero },
            if perm(3) == 1 { Coef::Omega(0) } else { Coef::Zero },
            if perm(3) == 2 { Coef::Omega(0) } else { Coef::Zero },
            if perm(3) == 3 { Coef::Omega(0) } else { Coef::Zero },
        ],
        root2_exp: 0,
    }
}

/// Controlled-NOT: flips the low (target) bit when the high (control) bit is set.
pub open spec fn cnot_perm(r: int) -> int {
    if r >= 2 { 5 - r } else { r }
}

/// Swap: exchanges the two bits.
pub open spec fn swap_perm(r: int) -> int {
    if r == 1 { 2 } else if r == 2 { 1 } else { r }
}

pub open spec fn cnot_spec() -> Matrix4 {
    permutation_spec(|i: int| cnot_perm(i))
}

pub open spec fn swap_spec() -> Matrix4 {
    permutation_spec(|i: int| swap_perm(i))
}

/// Controlled-NOT over (control, target).
pub fn cnot() -> (r: Matrix4)
    ensures
        r == cnot_spec(),
        r.wf(),
{
    let o = Coef::Omega(0);
    let z = Coef::Zero;
    Matrix4 { entries: [o, z, z, z, z, o, z, z, z, z, z, o, z, z, o, z], root2_exp: 0 }
}

/// Swap of two qubits.
pub fn swap() -> (r: Matrix4)
    ensures
        r == swap_spec(),
        r.wf(),
{
    let o = Coef::Omega(0);
    let z = Coef::Zero;
    Matrix4 { entries: [o, z, z, z, z, z, o, z, z, o, z, z, z, z, z, o], root2_exp: 0 }
}

} // verus!
