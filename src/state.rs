use vstd::prelude::*;
use crate::omega::{Amp, Zw, zw_zero};

verus! {

/// The largest register: 2^58 amplitudes of 32 bytes each fill the whole
/// addressable range.
pub const MAX_QUBITS: usize = 58;

/// The failures of a simulation.
#[derive(Clone, Copy, Debug, PartialEq, Eq)]
pub enum SimError {
    /// The qubit count is zero or too large to address 2^n amplitudes.
    InvalidDimension,
    /// A target index is not below the qubit count, or the targets do not fit their gate.
    OutOfRangeTarget,
    /// Every amplitude is zero, so there is nothing to normalise.
    DegenerateState,
    /// An exact coefficient no longer fits in 64 bits.
    Overflow,
}

/// The number of basis states of an `n`-qubit register.
pub open spec fn dim_of(n: nat) -> int {
    if n < 64 { (1u64 << n) as int } else { 0 }
}

/// The state |0...0>: amplitude 1 at index 0, 0 elsewhere.
pub open spec fn ground_state(n: nat) -> Seq<Zw> {
    Seq::new(dim_of(n) as nat, |i: int| if i == 0 { (1int, 0int, 0int, 0int) } else { zw_zero() })
}

pub open spec fn valid_qubit_count(n: nat) -> bool {
    1 <= n <= MAX_QUBITS && dim_of(n) <= usize::MAX
}

/// A register of `num_qubits` qubits: amplitude `i` of the state is
/// `amps[i] / sqrt(2)^root2_exp`.
#[derive(Clone, Debug)]
pub struct StateVector {
    pub amps: Vec<Amp>,
    pub num_qubits: usize,
    pub root2_exp: u64,
}

impl StateVector {
    pub open spec fn wf(&self) -> bool {
        &&& 1 <= self.num_qubits <= MAX_QUBITS
        &&& self.amps@.len() == dim_of(self.num_qubits as nat)
    }

    /// The exact numerators of the amplitudes.
    pub open spec fn amps_view(&self) -> Seq<Zw> {
        self.amps@.map_values(|a: Amp| a@)
    }

    /// Builds |0...0> on `n` qubits.
    pub fn initialize(n: usize) -> (r: Result<StateVector, SimError>)
        ensures
            r is Ok <==> valid_qubit_count(n as nat),
            r matches Err(e) ==> e == SimError::InvalidDimension,
            r matches Ok(s) ==> {
                &&& s.wf()
                &&& s.num_qubits == n
                &&& s.root2_exp == 0
                &&& s.amps_view() == ground_state(n as nat)
            },
    {
        if n == 0 || n > MAX_QUBITS {
            return Err(SimError::InvalidDimension);
        }
        let dim64: u64 = 1u64 << (n as u64);
        if dim64 > usize::MAX as u64 {
            return Err(SimError::InvalidDimension);
        }
        let dim = dim64 as usize;
        assert(dim64 >= 1) by (bit_vector)
            requires
                dim64 == 1u64 << (n as u64),
                (n as u64) < 64,
        ;
        let mut amps: Vec<Amp> = Vec::with_capacity(dim);
        amps.push(Amp::one());
        while amps.len() < dim
            invariant
                1 <= amps@.len() <= dim,
                forall|i: int|
                    0 <= i < amps@.len() ==> (#[trigger] amps@[i])@ == (if i == 0 {
                        (1int, 0int, 0int, 0int)
                    } else {
                        zw_zero()
                    }),
            decreases dim - amps@.len(),
        {
            amps.push(Amp::zero());
        }
        let s = StateVector { amps, num_qubits: n, root2_exp: 0 };
        assert(s.amps_view() =~= ground_state(n as nat));
        Ok(s)
    }

    /// The number of amplitudes.
    pub fn len(&self) -> (r: usize)
        ensures
            r == self.amps@.len(),
    {
        self.amps.len()
    }
}

pub open spec fn zw_even(x: Zw) -> bool {
    x.0 % 2 == 0 && x.1 % 2 == 0 && x.2 % 2 == 0 && x.3 % 2 == 0
}

pub open spec fn zw_half(x: Zw) -> Zw {
    (x.0 / 2, x.1 / 2, x.2 / 2, x.3 / 2)
}

/// The same state with the smallest power of 1/sqrt 2 that halving reaches: while
/// every numerator coefficient is even and the exponent is at least 2, halve the
/// coefficients and lower the exponent by 2 (v / sqrt(2)^e == (v / 2) / sqrt(2)^(e - 2)).
pub open spec fn reduce_spec(v: Seq<Zw>, e: int) -> (Seq<Zw>, int)
    decreases e,
{
    if e >= 2 && forall|i: int| 0 <= i < v.len() ==> zw_even(#[trigger] v[i]) {
        reduce_spec(Seq::new(v.len(), |i: int| zw_half(v[i])), e - 2)
    } else {
        (v, e)
    }
}

impl StateVector {
    fn all_even(&self) -> (r: bool)
        ensures
            r <==> forall|i: int| 0 <= i < self.amps@.len() ==> zw_even(#[trigger] self.amps_view()[i]),
    {
        let mut k: usize = 0;
        while k < self.amps.len()
            invariant
                k <= self.amps@.len(),
                forall|i: int| 0 <= i < k ==> zw_even(#[trigger] self.amps_view()[i]),
            decreases self.amps@.len() - k,
        {
            let x = self.amps[k];
            if x.a % 2 != 0 || x.b % 2 != 0 || x.c % 2 != 0 || x.d % 2 != 0 {
                assert(!zw_even(self.amps_view()[k as int]));
                return false;
            }
            k = k + 1;
        }
        true
    }

    /// Divides out common factors of 2 from the numerators, two powers of 1/sqrt 2
    /// at a time; the state it stands for is unchanged.
    pub fn reduce(self) -> (r: StateVector)
        requires
            self.wf(),
        ensures
            r.wf(),
            r.num_qubits == self.num_qubits,
            (r.amps_view(), r.root2_exp as int) == reduce_spec(self.amps_view(), self.root2_exp as int),
    {
        let mut s = self;
        while s.root2_exp >= 2 && s.all_even()
            invariant
                s.wf(),
                s.num_qubits == self.num_qubits,
                reduce_spec(s.amps_view(), s.root2_exp as int) == reduce_spec(self.amps_view(), self.root2_exp as int),
            decreases s.root2_exp,
        {
            let ghost before = s.amps_view();
            let mut halved: Vec<Amp> = Vec::with_capacity(s.amps.len());
            while halved.len() < s.amps.len()
                invariant
                    halved@.len() <= s.amps@.len(),
                    before == s.amps_view(),
                    forall|i: int| 0 <= i < s.amps@.len() ==> zw_even(#[trigger] before[i]),
                    forall|i: int| 0 <= i < halved@.len() ==> (#[trigger] halved@[i])@ == zw_half(before[i]),
                decreases s.amps@.len() - halved@.len(),
            {
                let x = s.amps[halved.len()];
                halved.push(Amp { a: x.a / 2, b: x.b / 2, c: x.c / 2, d: x.d / 2 });
            }
            s = StateVector { amps: halved, num_qubits: s.num_qubits, root2_exp: s.root2_exp - 2 };
            assert(s.amps_view() =~= Seq::new(before.len(), |i: int| zw_half(before[i])));
        }
        s
    }
}

} // verus!
