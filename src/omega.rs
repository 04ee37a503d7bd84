use vstd::prelude::*;

verus! {

/// An element a + b*w + c*w^2 + d*w^3 of the ring Z[w], w = e^(i*pi/4), as integers.
pub type Zw = (int, int, int, int);

pub open spec fn zw_zero() -> Zw {
    (0, 0, 0, 0)
}

pub open spec fn zw_add(x: Zw, y: Zw) -> Zw {
    (x.0 + y.0, x.1 + y.1, x.2 + y.2, x.3 + y.3)
}

/// Multiplication by w, using w^4 == -1.
pub open spec fn zw_times_omega(x: Zw) -> Zw {
    (-x.3, x.0, x.1, x.2)
}

/// Multiplication by w^k.
pub open spec fn zw_times_omega_pow(x: Zw, k: nat) -> Zw
    decreases k,
{
    if k == 0 {
        x
    } else {
        zw_times_omega(zw_times_omega_pow(x, (k - 1) as nat))
    }
}

/// An exact amplitude with machine-integer coefficients.
#[derive(Clone, Copy, Debug, PartialEq, Eq)]
pub struct Amp {
    pub a: i64,
    pub b: i64,
    pub c: i64,
    pub d: i64,
}

impl View for Amp {
    type V = Zw;

    open spec fn view(&self) -> Zw {
        (self.a as int, self.b as int, self.c as int, self.d as int)
    }
}

pub open spec fn fits_i64(x: int) -> bool {
    i64::MIN <= x <= i64::MAX
}

pub open spec fn zw_fits(x: Zw) -> bool {
    fits_i64(x.0) && fits_i64(x.1) && fits_i64(x.2) && fits_i64(x.3)
}

impl Amp {
    pub fn zero() -> (r: Amp)
        ensures
            r@ == zw_zero(),
    {
        Amp { a: 0, b: 0, c: 0, d: 0 }
    }

    pub fn one() -> (r: Amp)
        ensures
            r@ == (1int, 0int, 0int, 0int),
    {
        Amp { a: 1, b: 0, c: 0, d: 0 }
    }
}


/// A wide intermediate value of Z[w], used while sums of products are formed.
#[derive(Clone, Copy, Debug, PartialEq, Eq)]
pub struct Wide {
    pub a: i128,
    pub b: i128,
    pub c: i128,
    pub d: i128,
}

impl View for Wide {
    type V = Zw;

    open spec fn view(&self) -> Zw {
        (self.a as int, self.b as int, self.c as int, self.d as int)
    }
}

pub open spec fn bounded(x: Zw, m: int) -> bool {
    -m <= x.0 <= m && -m <= x.1 <= m && -m <= x.2 <= m && -m <= x.3 <= m
}

pub const AMP_BOUND: i128 = 0x8000_0000_0000_0000;

/// Multiplies an amplitude by w^k, exactly.
pub fn times_omega_pow(x: Amp, k: u8) -> (r: Wide)
    ensures
        r@ == zw_times_omega_pow(x@, k as nat),
        bounded(r@, AMP_BOUND as int),
{
    let mut r = Wide { a: x.a as i128, b: x.b as i128, c: x.c as i128, d: x.d as i128 };
    let mut i: u8 = 0;
    while i < k
        invariant
            i <= k,
            r@ == zw_times_omega_pow(x@, i as nat),
            bounded(r@, AMP_BOUND as int),
        decreases k - i,
    {
        r = Wide { a: -r.d, b: r.a, c: r.b, d: r.c };
        i = i + 1;
    }
    r
}

/// Adds two wide values whose coefficients are bounded by `m`.
pub(crate) fn wide_add(x: Wide, y: Wide, m: Ghost<int>) -> (r: Wide)
    requires
        0 <= m@ <= 0x1_0000_0000_0000_0000_0000,
        bounded(x@, m@),
        bounded(y@, m@),
    ensures
        r@ == zw_add(x@, y@),
        bounded(r@, 2 * m@),
{
    Wide { a: x.a + y.a, b: x.b + y.b, c: x.c + y.c, d: x.d + y.d }
}

/// Narrows a wide value to an amplitude, if every coefficient fits in `i64`.
pub fn narrow(x: Wide) -> (r: Option<Amp>)
    ensures
        r is Some <==> zw_fits(x@),
        r matches Some(y) ==> y@ == x@,
{
    if i64::MIN as i128 <= x.a && x.a <= i64::MAX as i128 && i64::MIN as i128 <= x.b
        && x.b <= i64::MAX as i128 && i64::MIN as i128 <= x.c && x.c <= i64::MAX as i128
        && i64::MIN as i128 <= x.d && x.d <= i64::MAX as i128 {
        Some(Amp { a: x.a as i64, b: x.b as i64, c: x.c as i64, d: x.d as i64 })
    } else {
        None
    }
}

} // verus!
