use vstd::prelude::*;
use crate::omega::{Amp, Zw, zw_zero, bounded};
use crate::state::{StateVector, SimError};
use crate::threshold::{below_threshold, norm_below_threshold, TOTAL_BOUND};
use vstd::arithmetic::power2::lemma_pow2_pos;

verus! {

/// A real number x + y * sqrt 2 with integer x, y.
pub type Real2 = (int, int);

/// |z|^2 for z = a + b*w + c*w^2 + d*w^3:
/// (a^2 + b^2 + c^2 + d^2) + sqrt 2 * (a*b - a*d + b*c + c*d).
pub open spec fn weight_of(z: Zw) -> Real2 {
    (
        z.0 * z.0 + z.1 * z.1 + z.2 * z.2 + z.3 * z.3,
        z.0 * z.1 - z.0 * z.3 + z.1 * z.2 + z.2 * z.3,
    )
}

/// A sufficient condition for x + y * sqrt 2 >= 0: x >= 0, and x^2 >= 2 * y^2
/// when y is negative. It is not necessary: (-1, 1) fails it.
pub open spec fn real2_nonneg(w: Real2) -> bool {
    w.0 >= 0 && (w.1 >= 0 || w.0 * w.0 >= 2 * (w.1 * w.1))
}

pub open spec fn real2_add(x: Real2, y: Real2) -> Real2 {
    (x.0 + y.0, x.1 + y.1)
}

/// The weights of the first `k` amplitudes, summed.
pub open spec fn sum_weights(v: Seq<Zw>, k: nat) -> Real2
    decreases k,
{
    if k == 0 {
        (0, 0)
    } else {
        real2_add(sum_weights(v, (k - 1) as nat), weight_of(v[k - 1]))
    }
}

/// The largest coefficient whose weight is formed in 128-bit arithmetic.
pub const WEIGHT_COEF_BOUND: i64 = 0x4000_0000_0000_0000;

pub open spec fn fits_i128(x: int) -> bool {
    i128::MIN <= x <= i128::MAX
}

/// Every weight and every running total of them can be formed.
pub open spec fn summable(v: Seq<Zw>) -> bool {
    &&& forall|i: int| 0 <= i < v.len() ==> bounded(#[trigger] v[i], WEIGHT_COEF_BOUND as int)
    &&& forall|k: nat|
        k <= v.len() ==> fits_i128(#[trigger] sum_weights(v, k).0) && fits_i128(sum_weights(v, k).1)
}

proof fn lemma_lagrange(a: int, c: int, p: int, q: int)
    ensures
        (a * a + c * c) * (p * p + q * q) == (a * p + c * q) * (a * p + c * q) + (a * q - c * p) * (a
            * q - c * p),
{
    let ap = a * p;
    let cq = c * q;
    let aq = a * q;
    let cp = c * p;
    let aa = a * a;
    let cc = c * c;
    let pp = p * p;
    let qq = q * q;
    assert((aa + cc) * (pp + qq) == aa * pp + aa * qq + cc * pp + cc * qq) by (nonlinear_arith);
    assert(aa * pp == ap * ap) by (nonlinear_arith)
        requires
            aa == a * a,
            pp == p * p,
            ap == a * p,
    ;
    assert(aa * qq == aq * aq) by (nonlinear_arith)
        requires
            aa == a * a,
            qq == q * q,
            aq == a * q,
    ;
    assert(cc * pp == cp * cp) by (nonlinear_arith)
        requires
            cc == c * c,
            pp == p * p,
            cp == c * p,
    ;
    assert(cc * qq == cq * cq) by (nonlinear_arith)
        requires
            cc == c * c,
            qq == q * q,
            cq == c * q,
    ;
    assert((ap + cq) * (ap + cq) == ap * ap + 2 * (ap * cq) + cq * cq) by (nonlinear_arith);
    assert((aq - cp) * (aq - cp) == aq * aq - 2 * (aq * cp) + cp * cp) by (nonlinear_arith);
    assert(ap * cq == aq * cp) by (nonlinear_arith)
        requires
            ap == a * p,
            cq == c * q,
            aq == a * q,
            cp == c * p,
    ;
}

/// |z|^2 is never negative.
pub proof fn lemma_weight_nonneg(z: Zw)
    ensures
        real2_nonneg(weight_of(z)),
{
    let (a, b, c, d) = z;
    let p = b - d;
    let q = b + d;
    let w = weight_of(z);
    assert(a * a >= 0 && b * b >= 0 && c * c >= 0 && d * d >= 0) by (nonlinear_arith);
    let x = 2 * (a * a) + 2 * (c * c);
    let y = p * p + q * q;
    assert(w.1 == a * p + c * q) by (nonlinear_arith)
        requires
            w.1 == a * b - a * d + b * c + c * d,
            p == b - d,
            q == b + d,
    ;
    assert(2 * w.0 == x + y) by (nonlinear_arith)
        requires
            w.0 == a * a + b * b + c * c + d * d,
            x == 2 * (a * a) + 2 * (c * c),
            y == p * p + q * q,
            p == b - d,
            q == b + d,
    ;
    lemma_lagrange(a, c, p, q);
    assert((x + y) * (x + y) == (x - y) * (x - y) + 8 * ((a * a + c * c) * (p * p + q * q))) by (
    nonlinear_arith)
        requires
            x == 2 * (a * a) + 2 * (c * c),
            y == p * p + q * q,
    ;
    assert((x - y) * (x - y) >= 0 && (a * q - c * p) * (a * q - c * p) >= 0) by (nonlinear_arith);
    assert(4 * (w.0 * w.0) >= 8 * (w.1 * w.1)) by (nonlinear_arith)
        requires
            2 * w.0 == x + y,
            w.1 == a * p + c * q,
            (x + y) * (x + y) == (x - y) * (x - y) + 8 * ((a * a + c * c) * (p * p + q * q)),
            (a * a + c * c) * (p * p + q * q) == (a * p + c * q) * (a * p + c * q) + (a * q - c * p)
                * (a * q - c * p),
            (x - y) * (x - y) >= 0,
            (a * q - c * p) * (a * q - c * p) >= 0,
    ;
}

proof fn lemma_whole_nonneg(z: Zw)
    ensures
        weight_of(z).0 >= 0,
        z != zw_zero() ==> weight_of(z).0 > 0,
{
    let (a, b, c, d) = z;
    assert(a * a >= 0 && b * b >= 0 && c * c >= 0 && d * d >= 0) by (nonlinear_arith);
    assert(a != 0 ==> a * a > 0) by (nonlinear_arith);
    assert(b != 0 ==> b * b > 0) by (nonlinear_arith);
    assert(c != 0 ==> c * c > 0) by (nonlinear_arith);
    assert(d != 0 ==> d * d > 0) by (nonlinear_arith);
}

proof fn lemma_sum_of_zeros(v: Seq<Zw>, k: nat)
    requires
        k <= v.len(),
        forall|i: int| 0 <= i < k ==> v[i] == zw_zero(),
    ensures
        sum_weights(v, k) == (0int, 0int),
    decreases k,
{
    if k > 0 {
        lemma_sum_of_zeros(v, (k - 1) as nat);
    }
}

proof fn lemma_sum_whole_ge(v: Seq<Zw>, k: nat, i: int)
    requires
        k <= v.len(),
        0 <= i < k,
    ensures
        sum_weights(v, k).0 >= weight_of(v[i]).0,
        sum_weights(v, k).0 >= 0,
    decreases k,
{
    lemma_whole_nonneg(v[k - 1]);
    assert(sum_weights(v, k) == real2_add(sum_weights(v, (k - 1) as nat), weight_of(v[k - 1])));
    if i < k - 1 {
        lemma_sum_whole_ge(v, (k - 1) as nat, i);
    } else if k > 1 {
        lemma_sum_whole_ge(v, (k - 1) as nat, 0);
    }
}

proof fn lemma_mul_bound(x: int, y: int, m: int)
    requires
        0 <= m,
        -m <= x <= m,
        -m <= y <= m,
    ensures
        -(m * m) <= x * y <= m * m,
{
    assert(-(m * m) <= x * y <= m * m) by (nonlinear_arith)
        requires
            0 <= m,
            -m <= x <= m,
            -m <= y <= m,
    ;
}

/// An exact x + y * sqrt 2.
#[derive(Clone, Copy, Debug, PartialEq, Eq)]
pub struct Weight {
    pub whole: i128,
    pub root2: i128,
}

impl View for Weight {
    type V = Real2;

    open spec fn view(&self) -> Real2 {
        (self.whole as int, self.root2 as int)
    }
}

/// |x|^2, exactly.
pub fn weight(x: Amp) -> (r: Weight)
    requires
        bounded(x@, WEIGHT_COEF_BOUND as int),
    ensures
        r@ == weight_of(x@),
{
    let a = x.a as i128;
    let b = x.b as i128;
    let c = x.c as i128;
    let d = x.d as i128;
    proof {
        let m = WEIGHT_COEF_BOUND as int;
        assert(m * m == 0x1000_0000_0000_0000_0000_0000_0000_0000);
        lemma_mul_bound(a as int, a as int, m);
        lemma_mul_bound(b as int, b as int, m);
        lemma_mul_bound(c as int, c as int, m);
        lemma_mul_bound(d as int, d as int, m);
        lemma_mul_bound(a as int, b as int, m);
        lemma_mul_bound(a as int, d as int, m);
        lemma_mul_bound(b as int, c as int, m);
        lemma_mul_bound(c as int, d as int, m);
    }
    Weight { whole: a * a + b * b + c * c + d * d, root2: a * b - a * d + b * c + c * d }
}

/// The distribution of a state: basis state `i` has probability
/// `weights[i] / total`.
#[derive(Clone, Debug)]
pub struct ProbabilityTable {
    pub weights: Vec<Weight>,
    pub total: Weight,
    /// The squared norm is below the threshold; the weights and the total are then
    /// all zero.
    pub degenerate: bool,
}

impl ProbabilityTable {
    /// `Err(DegenerateState)` for a state with nothing to normalise.
    pub fn status(&self) -> (r: Result<(), SimError>)
        ensures
            r is Ok <==> !self.degenerate,
            r matches Err(e) ==> e == SimError::DegenerateState,
    {
        if self.degenerate {
            Err(SimError::DegenerateState)
        } else {
            Ok(())
        }
    }
}

/// The weights can be formed and their total is small enough for the threshold test.
pub open spec fn measurable(v: Seq<Zw>) -> bool {
    &&& summable(v)
    &&& -TOTAL_BOUND <= sum_weights(v, v.len()).0 <= TOTAL_BOUND
    &&& -TOTAL_BOUND <= sum_weights(v, v.len()).1 <= TOTAL_BOUND
}

/// `t` is the table of the numerators `v` over 2^e: degenerate exactly when the
/// squared norm sum(weights) / 2^e is below 2^-40, and then all zero; otherwise the
/// weights of `v` and their sum, which is positive.
pub open spec fn table_of(t: ProbabilityTable, v: Seq<Zw>, e: nat) -> bool {
    &&& t.weights@.len() == v.len()
    &&& t.degenerate <==> below_threshold(sum_weights(v, v.len()), e)
    &&& t.degenerate ==> t.total@ == (0int, 0int) && forall|i: int|
        0 <= i < v.len() ==> (#[trigger] t.weights@[i])@ == (0int, 0int)
    &&& !t.degenerate ==> {
        &&& forall|i: int| 0 <= i < v.len() ==> (#[trigger] t.weights@[i])@ == weight_of(v[i])
        &&& t.total@ == sum_weights(v, v.len())
        &&& t.total@.0 > 0
    }
}

/// The weights of every amplitude and their sum.
fn weigh(state: &StateVector) -> (r: Result<(Vec<Weight>, Weight), SimError>)
    ensures
        r is Ok <==> summable(state.amps_view()),
        r matches Err(e) ==> e == SimError::Overflow,
        r matches Ok(p) ==> {
            let v = state.amps_view();
            &&& p.0@.len() == v.len()
            &&& forall|i: int| 0 <= i < v.len() ==> (#[trigger] p.0@[i])@ == weight_of(v[i])
            &&& p.1@ == sum_weights(v, v.len())
        },
{
    let ghost v = state.amps_view();
    let mut weights: Vec<Weight> = Vec::with_capacity(state.amps.len());
    let mut whole: i128 = 0;
    let mut root2: i128 = 0;
    while weights.len() < state.amps.len()
        invariant
            v == state.amps_view(),
            weights@.len() <= v.len(),
            forall|i: int| 0 <= i < weights@.len() ==> bounded(#[trigger] v[i], WEIGHT_COEF_BOUND as int),
            forall|k: nat|
                k <= weights@.len() ==> fits_i128(#[trigger] sum_weights(v, k).0) && fits_i128(
                    sum_weights(v, k).1,
                ),
            forall|i: int| 0 <= i < weights@.len() ==> (#[trigger] weights@[i])@ == weight_of(v[i]),
            (whole as int, root2 as int) == sum_weights(v, weights@.len()),
        decreases v.len() - weights@.len(),
    {
        let i = weights.len();
        let x = state.amps[i];
        let m = WEIGHT_COEF_BOUND;
        if x.a < -m || x.a > m || x.b < -m || x.b > m || x.c < -m || x.c > m || x.d < -m || x.d > m {
            assert(!bounded(v[i as int], WEIGHT_COEF_BOUND as int));
            return Err(SimError::Overflow);
        }
        let w = weight(x);
        let nw = whole.checked_add(w.whole);
        let nr = root2.checked_add(w.root2);
        assert(sum_weights(v, (i + 1) as nat) == real2_add(sum_weights(v, i as nat), weight_of(v[i as int])));
        match (nw, nr) {
            (Some(a), Some(b)) => {
                whole = a;
                root2 = b;
            },
            _ => {
                assert(!(fits_i128(sum_weights(v, (i + 1) as nat).0) && fits_i128(sum_weights(v, (i + 1) as nat).1)));
                assert(!summable(v));
                return Err(SimError::Overflow);
            },
        }
        assert(fits_i128(sum_weights(v, (i + 1) as nat).0) && fits_i128(sum_weights(v, (i + 1) as nat).1));
        weights.push(w);
    }
    assert(summable(v));
    Ok((weights, Weight { whole, root2 }))
}

/// The probability table of a state: its weights and their sum, or an all-zero
/// degenerate table when the squared norm is below 2^-40.
pub fn compute_probabilities(state: &StateVector) -> (r: Result<ProbabilityTable, SimError>)
    ensures
        r is Ok <==> measurable(state.amps_view()),
        r matches Err(e) ==> e == SimError::Overflow,
        r matches Ok(t) ==> table_of(t, state.amps_view(), state.root2_exp as nat),
{
    let ghost v = state.amps_view();
    let (weights, total) = match weigh(state) {
        Ok(p) => p,
        Err(e) => return Err(e),
    };
    if total.whole < -TOTAL_BOUND || total.whole > TOTAL_BOUND || total.root2 < -TOTAL_BOUND
        || total.root2 > TOTAL_BOUND {
        return Err(SimError::Overflow);
    }
    if norm_below_threshold(total.whole, total.root2, state.root2_exp) {
        let mut zeros: Vec<Weight> = Vec::with_capacity(weights.len());
        while zeros.len() < weights.len()
            invariant
                zeros@.len() <= weights@.len(),
                forall|i: int| 0 <= i < zeros@.len() ==> (#[trigger] zeros@[i])@ == (0int, 0int),
            decreases weights@.len() - zeros@.len(),
        {
            zeros.push(Weight { whole: 0, root2: 0 });
        }
        return Ok(ProbabilityTable { weights: zeros, total: Weight { whole: 0, root2: 0 }, degenerate: true });
    }
    proof {
        if forall|i: int| 0 <= i < v.len() ==> #[trigger] v[i] == zw_zero() {
            lemma_sum_of_zeros(v, v.len());
            lemma_pow2_pos(state.root2_exp as nat);
            let s0 = sum_weights(v, v.len());
            let p40 = vstd::arithmetic::power2::pow2(40) as int;
            let pe = vstd::arithmetic::power2::pow2(state.root2_exp as nat) as int;
            assert(s0.0 * p40 == 0 && s0.1 * p40 == 0) by (nonlinear_arith)
                requires
                    s0 == (0int, 0int),
            ;
            assert(pe > 0);
            assert(below_threshold(s0, state.root2_exp as nat));
        } else {
            let j = choose|j: int| 0 <= j < v.len() && v[j] != zw_zero();
            lemma_whole_nonneg(v[j]);
            lemma_sum_whole_ge(v, v.len(), j);
        }
    }
    Ok(ProbabilityTable { weights, total, degenerate: false })
}

/// A sum of two values that meet `real2_nonneg` meets it too.
pub proof fn lemma_real2_nonneg_add(p: Real2, q: Real2)
    requires
        real2_nonneg(p),
        real2_nonneg(q),
    ensures
        real2_nonneg(real2_add(p, q)),
{
    let (x1, y1) = p;
    let (x2, y2) = q;
    if y1 + y2 < 0 {
        let m1 = if y1 < 0 { -y1 } else { 0 };
        let m2 = if y2 < 0 { -y2 } else { 0 };
        assert(m1 * m1 == y1 * y1 || m1 == 0) by (nonlinear_arith)
            requires
                m1 == -y1 || m1 == 0,
        ;
        assert(m2 * m2 == y2 * y2 || m2 == 0) by (nonlinear_arith)
            requires
                m2 == -y2 || m2 == 0,
        ;
        assert(x1 * x1 >= 0 && x2 * x2 >= 0) by (nonlinear_arith);
        assert(x1 * x1 >= 2 * (m1 * m1));
        assert(x2 * x2 >= 2 * (m2 * m2));
        assert((x1 * x2) * (x1 * x2) >= 4 * ((m1 * m2) * (m1 * m2))) by (nonlinear_arith)
            requires
                x1 * x1 >= 2 * (m1 * m1),
                x2 * x2 >= 2 * (m2 * m2),
                m1 >= 0,
                m2 >= 0,
        ;
        assert(x1 * x2 >= 2 * (m1 * m2)) by (nonlinear_arith)
            requires
                (x1 * x2) * (x1 * x2) >= 4 * ((m1 * m2) * (m1 * m2)),
                x1 >= 0,
                x2 >= 0,
                m1 >= 0,
                m2 >= 0,
        ;
        assert((x1 + x2) * (x1 + x2) >= 2 * ((m1 + m2) * (m1 + m2))) by (nonlinear_arith)
            requires
                x1 * x1 >= 2 * (m1 * m1),
                x2 * x2 >= 2 * (m2 * m2),
                x1 * x2 >= 2 * (m1 * m2),
        ;
        assert(2 * ((m1 + m2) * (m1 + m2)) >= 2 * ((y1 + y2) * (y1 + y2))) by (nonlinear_arith)
            requires
                0 < -(y1 + y2) <= m1 + m2,
        ;
    }
}

/// The weights of the first `k` amplitudes but amplitude `i`, summed.
pub open spec fn sum_weights_except(v: Seq<Zw>, k: nat, i: int) -> Real2
    decreases k,
{
    if k == 0 {
        (0, 0)
    } else if k - 1 == i {
        sum_weights_except(v, (k - 1) as nat, i)
    } else {
        real2_add(sum_weights_except(v, (k - 1) as nat, i), weight_of(v[k - 1]))
    }
}

proof fn lemma_sum_split(v: Seq<Zw>, k: nat, i: int)
    requires
        0 <= i < k <= v.len(),
    ensures
        sum_weights(v, k) == real2_add(sum_weights_except(v, k, i), weight_of(v[i])),
        real2_nonneg(sum_weights_except(v, k, i)),
    decreases k,
{
    lemma_weight_nonneg(v[k - 1]);
    if k - 1 == i {
        lemma_sum_nonneg(v, (k - 1) as nat);
        lemma_sum_except_full(v, (k - 1) as nat, i);
    } else {
        lemma_sum_split(v, (k - 1) as nat, i);
        lemma_real2_nonneg_add(sum_weights_except(v, (k - 1) as nat, i), weight_of(v[k - 1]));
    }
}

proof fn lemma_sum_except_full(v: Seq<Zw>, k: nat, i: int)
    requires
        k <= i,
    ensures
        sum_weights_except(v, k, i) == sum_weights(v, k),
    decreases k,
{
    if k > 0 {
        lemma_sum_except_full(v, (k - 1) as nat, i);
    }
}

proof fn lemma_sum_nonneg(v: Seq<Zw>, k: nat)
    ensures
        real2_nonneg(sum_weights(v, k)),
    decreases k,
{
    if k > 0 {
        lemma_sum_nonneg(v, (k - 1) as nat);
        lemma_weight_nonneg(v[k - 1]);
        lemma_real2_nonneg_add(sum_weights(v, (k - 1) as nat), weight_of(v[k - 1]));
    }
}

/// A table that is not degenerate is a distribution: each weight is >= 0 and at
/// most the total, which is positive, so weights[i] / total lies in [0, 1]; that
/// the weights sum to the total is part of `table_of`.
pub proof fn lemma_table_is_distribution(t: ProbabilityTable, v: Seq<Zw>, e: nat, i: int)
    requires
        table_of(t, v, e),
        !t.degenerate,
        0 <= i < v.len(),
    ensures
        real2_nonneg(t.weights@[i]@),
        real2_nonneg((t.total@.0 - t.weights@[i]@.0, t.total@.1 - t.weights@[i]@.1)),
        t.total@.0 > 0,
{
    lemma_weight_nonneg(v[i]);
    lemma_sum_split(v, v.len(), i);
}

impl StateVector {
    /// The sum of |amps[i]|^2; the state's squared norm is this over 2^root2_exp.
    pub fn norm_squared_sum(&self) -> (r: Result<Weight, SimError>)
        ensures
            r is Ok <==> summable(self.amps_view()),
            r matches Err(e) ==> e == SimError::Overflow,
            r matches Ok(w) ==> w@ == sum_weights(self.amps_view(), self.amps_view().len()),
    {
        match weigh(self) {
            Ok(p) => Ok(p.1),
            Err(e) => Err(e),
        }
    }
}

} // verus!
