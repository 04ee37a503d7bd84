use vstd::prelude::*;
use vstd::arithmetic::power2::{
    pow2, lemma2_to64, lemma2_to64_rest, lemma_pow2_adds, lemma_pow2_pos, lemma_pow2_unfold,
    lemma_pow2_strictly_increases,
};

verus! {

/// -1, 0 or 1 as `x` is negative, zero or positive.
pub open spec fn sign_of(x: int) -> int {
    if x < 0 {
        -1
    } else if x == 0 {
        0
    } else {
        1
    }
}

/// The sign of x + y * sqrt 2. Where x and y differ in sign it is the sign of the
/// part with the larger magnitude, found by comparing x^2 with 2 * y^2.
pub open spec fn real2_sign(x: int, y: int) -> int {
    if x >= 0 && y >= 0 {
        if x == 0 && y == 0 {
            0
        } else {
            1
        }
    } else if x <= 0 && y <= 0 {
        -1
    } else if x > 0 {
        sign_of(x * x - 2 * (y * y))
    } else {
        -sign_of(x * x - 2 * (y * y))
    }
}

/// log2 of the threshold's reciprocal: a squared norm below 2^-40 (about 9.1e-13)
/// counts as zero.
pub const THRESHOLD_LOG2: u64 = 40;

/// The largest magnitude of a total's parts that the threshold test takes.
pub const TOTAL_BOUND: i128 = 0x1_0000_0000_0000_0000_0000;

/// (x + y * sqrt 2) / 2^e < 2^-40, that is 2^40 * (x + y * sqrt 2) - 2^e < 0.
pub open spec fn below_threshold(total: (int, int), e: nat) -> bool {
    real2_sign(total.0 * pow2(40) - pow2(e), total.1 * pow2(40)) < 0
}

/// The sign of p^2 - 2 * q^2, by subtraction alone: for q <= p < 2q,
/// p^2 - 2q^2 == -((2q - p)^2 - 2(p - q)^2), with smaller numbers.
fn sign_square_gap(p0: u128, q0: u128) -> (r: i8)
    ensures
        r as int == sign_of(p0 * p0 - 2 * (q0 * q0)),
{
    let mut p = p0;
    let mut q = q0;
    let mut flip = false;
    let ghost target = sign_of(p0 * p0 - 2 * (q0 * q0));
    loop
        invariant
            target == sign_of(p0 * p0 - 2 * (q0 * q0)),
            target == if flip {
                -sign_of(p * p - 2 * (q * q))
            } else {
                sign_of(p * p - 2 * (q * q))
            },
        decreases q,
    {
        if q == 0 {
            assert(p > 0 ==> p * p > 0) by (nonlinear_arith);
            assert(p == 0 ==> p * p == 0) by (nonlinear_arith);
            assert(q * q == 0) by (nonlinear_arith)
                requires
                    q == 0,
            ;
            let s: i8 = if p > 0 { 1 } else { 0 };
            return if flip { -s } else { s };
        } else if p < q {
            assert(p * p < 2 * (q * q)) by (nonlinear_arith)
                requires
                    0 <= p < q,
            ;
            return if flip { 1 } else { -1 };
        } else if p - q >= q {
            assert(p * p > 2 * (q * q)) by (nonlinear_arith)
                requires
                    p >= 2 * q,
                    q > 0,
            ;
            return if flip { -1 } else { 1 };
        }
        let r = p - q;
        let t = q - r;
        assert(p * p - 2 * (q * q) == -(t * t - 2 * (r * r))) by (nonlinear_arith)
            requires
                r == p - q,
                t == q - r,
        ;
        p = t;
        q = r;
        flip = !flip;
    }
}

/// The sign of x + y * sqrt 2.
fn sign_real2(x: i128, y: i128) -> (r: i8)
    requires
        x > i128::MIN,
        y > i128::MIN,
    ensures
        r as int == real2_sign(x as int, y as int),
{
    if x >= 0 && y >= 0 {
        if x == 0 && y == 0 {
            0
        } else {
            1
        }
    } else if x <= 0 && y <= 0 {
        -1
    } else {
        let p = if x < 0 { (-x) as u128 } else { x as u128 };
        let q = if y < 0 { (-y) as u128 } else { y as u128 };
        assert(p * p == x * x && q * q == y * y) by (nonlinear_arith)
            requires
                p == x || p == -x,
                q == y || q == -y,
        ;
        let s = sign_square_gap(p, q);
        if x > 0 {
            s
        } else {
            -s
        }
    }
}

/// Scaling both parts by a positive factor keeps the sign.
proof fn lemma_real2_sign_scale(u: int, w: int, c: int)
    requires
        c > 0,
    ensures
        real2_sign(c * u, c * w) == real2_sign(u, w),
{
    assert(u > 0 ==> c * u > 0) by (nonlinear_arith)
        requires
            c > 0,
    ;
    assert(u < 0 ==> c * u < 0) by (nonlinear_arith)
        requires
            c > 0,
    ;
    assert(u == 0 ==> c * u == 0);
    assert(w > 0 ==> c * w > 0) by (nonlinear_arith)
        requires
            c > 0,
    ;
    assert(w < 0 ==> c * w < 0) by (nonlinear_arith)
        requires
            c > 0,
    ;
    assert(w == 0 ==> c * w == 0);
    let g = u * u - 2 * (w * w);
    assert((c * u) * (c * u) - 2 * ((c * w) * (c * w)) == (c * c) * g) by (nonlinear_arith)
        requires
            g == u * u - 2 * (w * w),
    ;
    assert(c * c > 0) by (nonlinear_arith)
        requires
            c > 0,
    ;
    assert(sign_of((c * c) * g) == sign_of(g)) by (nonlinear_arith)
        requires
            c * c > 0,
    ;
}

/// x - t + y * sqrt 2 is negative when t is at least four times both |x| and |y|.
proof fn lemma_far_below(x: int, y: int, t: int, b: int)
    requires
        b > 0,
        -b <= x <= b,
        -b <= y <= b,
        t >= 4 * b,
    ensures
        real2_sign(x - t, y) < 0,
{
    let d = x - t;
    if y > 0 {
        assert(d * d - 2 * (y * y) > 0) by (nonlinear_arith)
            requires
                d <= -3 * b,
                b > 0,
                0 < y <= b,
        ;
    }
}

/// 2^k for k < 82.
fn pow2_u128(k: u64) -> (r: u128)
    requires
        k < 82,
    ensures
        r == pow2(k as nat),
        r <= pow2(81),
{
    proof {
        lemma2_to64();
        lemma_pow2_adds(64, 17);
    }
    let mut t: u128 = 1;
    let mut i: u64 = 0;
    while i < k
        invariant
            i <= k < 82,
            t == pow2(i as nat),
            pow2(81) == pow2(64) * pow2(17),
            pow2(64) == 0x1_0000_0000_0000_0000,
            pow2(17) == 0x2_0000,
        decreases k - i,
    {
        proof {
            lemma_pow2_strictly_increases(i as nat, 81);
            lemma_pow2_unfold((i + 1) as nat);
        }
        t = t * 2;
        i = i + 1;
    }
    proof {
        if k < 81 {
            lemma_pow2_strictly_increases(k as nat, 81);
        }
    }
    t
}

/// Whether (whole + root2 * sqrt 2) / 2^e is below 2^-40.
pub fn norm_below_threshold(whole: i128, root2: i128, e: u64) -> (r: bool)
    requires
        -TOTAL_BOUND <= whole <= TOTAL_BOUND,
        -TOTAL_BOUND <= root2 <= TOTAL_BOUND,
    ensures
        r == below_threshold((whole as int, root2 as int), e as nat),
{
    let ghost x = whole as int;
    let ghost y = root2 as int;
    proof {
        lemma2_to64();
        lemma_pow2_adds(64, 16);
        lemma_pow2_adds(64, 17);
        lemma_pow2_adds(64, 18);
    }
    if e >= THRESHOLD_LOG2 {
        let k = e - THRESHOLD_LOG2;
        proof {
            lemma_pow2_adds(40, k as nat);
            assert(x * pow2(40) - pow2(e as nat) == pow2(40) * (x - pow2(k as nat))) by (nonlinear_arith)
                requires
                    pow2(e as nat) == pow2(40) * pow2(k as nat),
            ;
            assert(y * pow2(40) == pow2(40) * y) by (nonlinear_arith);
            lemma_pow2_pos(40);
            lemma_real2_sign_scale(x - pow2(k as nat), y, pow2(40) as int);
        }
        if k >= 82 {
            proof {
                if k > 82 {
                    lemma_pow2_strictly_increases(82, k as nat);
                }
                lemma_far_below(x, y, pow2(k as nat) as int, TOTAL_BOUND as int);
            }
            true
        } else {
            let t = pow2_u128(k) as i128;
            sign_real2(whole - t, root2) < 0
        }
    } else {
        let j = THRESHOLD_LOG2 - e;
        proof {
            lemma_pow2_strictly_increases(j as nat, 41);
            lemma_pow2_adds(e as nat, j as nat);
            lemma_pow2_pos(e as nat);
            lemma_pow2_pos(j as nat);
            lemma2_to64();
            lemma2_to64_rest();
        }
        let mu = pow2_u128(j);
        assert(pow2(81) == 0x2_0000_0000_0000_0000_0000);
        assert(mu == pow2(j as nat) && 0 < mu < 0x200_0000_0000);
        let m = mu as i128;
        assert(-TOTAL_BOUND * 0x200_0000_0000 <= whole * m <= TOTAL_BOUND * 0x200_0000_0000) by (
        nonlinear_arith)
            requires
                -TOTAL_BOUND <= whole <= TOTAL_BOUND,
                0 < m <= 0x200_0000_0000,
        ;
        assert(-TOTAL_BOUND * 0x200_0000_0000 <= root2 * m <= TOTAL_BOUND * 0x200_0000_0000) by (
        nonlinear_arith)
            requires
                -TOTAL_BOUND <= root2 <= TOTAL_BOUND,
                0 < m <= 0x200_0000_0000,
        ;
        let xs = whole * m - 1;
        let ys = root2 * m;
        proof {
            let c = pow2(e as nat) as int;
            assert(x * pow2(40) - pow2(e as nat) == c * (x * m - 1)) by (nonlinear_arith)
                requires
                    pow2(40) == c * m,
                    c == pow2(e as nat),
            ;
            assert(y * pow2(40) == c * (y * m)) by (nonlinear_arith)
                requires
                    pow2(40) == c * m,
            ;
            lemma_real2_sign_scale(x * m - 1, y * m, c);
        }
        sign_real2(xs, ys) < 0
    }
}

} // verus!
