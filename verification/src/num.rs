//! Scalar arithmetic for the geometry kernel.
//!
//! All geometry in this crate is computed over `i64` coordinates.  Where a
//! formula divides, the kernel uses division truncated toward zero with a
//! positive divisor; `tdiv` is the specification-level definition of that
//! rounding, and every executable helper here is proved against it.

use vstd::prelude::*;
use vstd::arithmetic::div_mod::*;

verus! {

/// Largest magnitude a coordinate stored in a layout tree may have.
pub const COORD_MAX: i64 = 1_000_000_000;

/// Largest numerator or denominator of a scale `Ratio`; wide enough that
/// a constraint pass can scale a degenerate child up to the coordinate
/// limit in one step.
pub const RATIO_MAX: i64 = 6_000_000_000;

/// Magnitude of the scalar `a`.
pub open spec fn iabs(a: int) -> int {
    if a < 0 {
        -a
    } else {
        a
    }
}

/// The larger of two scalars.
pub open spec fn imax(a: int, b: int) -> int {
    if a >= b {
        a
    } else {
        b
    }
}

/// The smaller of two scalars.
pub open spec fn imin(a: int, b: int) -> int {
    if a <= b {
        a
    } else {
        b
    }
}

/// Division truncated toward zero, for a positive divisor.
pub open spec fn tdiv(a: int, b: int) -> int
    recommends
        b > 0,
{
    if a >= 0 {
        a / b
    } else {
        -((-a) / b)
    }
}

pub proof fn lemma_tdiv_neg(a: int, b: int)
    requires
        b > 0,
    ensures
        tdiv(-a, b) == -tdiv(a, b),
{
}

pub proof fn lemma_tdiv_nonneg(a: int, b: int)
    requires
        b > 0,
        a >= 0,
    ensures
        0 <= tdiv(a, b) <= a,
        tdiv(a, b) == a / b,
{
    lemma_div_is_ordered_by_denominator(a, 1, b);
    lemma_div_by_multiple(a, 1);
}

/// `tdiv` never increases magnitude: `|a| <= m * b` bounds the quotient's
/// magnitude by `m`.
pub proof fn lemma_tdiv_mag(a: int, b: int, m: int)
    requires
        b > 0,
        m >= 0,
        iabs(a) <= m * b,
    ensures
        iabs(tdiv(a, b)) <= m,
{
    lemma_div_by_multiple(m, b);
    if a >= 0 {
        lemma_div_is_ordered(a, m * b, b);
        lemma_div_pos_is_pos(a, b);
    } else {
        lemma_div_is_ordered(-a, m * b, b);
        lemma_div_pos_is_pos(-a, b);
    }
}

pub proof fn lemma_tdiv_le_mag(a: int, b: int)
    requires
        b > 0,
    ensures
        iabs(tdiv(a, b)) <= iabs(a),
{
    assert(iabs(a) * 1 <= iabs(a) * b) by (nonlinear_arith)
        requires
            b >= 1,
            iabs(a) >= 0,
    ;
    lemma_tdiv_mag(a, b, iabs(a));
}

pub proof fn lemma_tdiv_monotone(a1: int, a2: int, b: int)
    requires
        b > 0,
        a1 <= a2,
    ensures
        tdiv(a1, b) <= tdiv(a2, b),
{
    if a1 >= 0 {
        lemma_div_is_ordered(a1, a2, b);
    } else if a2 < 0 {
        lemma_div_is_ordered(-a2, -a1, b);
    } else {
        lemma_div_pos_is_pos(a2, b);
        lemma_div_pos_is_pos(-a1, b);
    }
}

pub proof fn lemma_tdiv_exact(a: int, b: int)
    requires
        b > 0,
    ensures
        tdiv(a * b, b) == a,
{
    if a >= 0 {
        assert(a * b >= 0) by (nonlinear_arith)
            requires
                a >= 0,
                b > 0,
        ;
        lemma_div_by_multiple(a, b);
    } else {
        assert(a * b < 0 && -(a * b) == (-a) * b) by (nonlinear_arith)
            requires
                a < 0,
                b > 0,
        ;
        lemma_div_by_multiple(-a, b);
    }
}

/// The quotient reached by multiplying back: for a nonnegative dividend,
/// `b * (a / b) <= a < b * (a / b) + b`.
pub proof fn lemma_tdiv_bracket(a: int, b: int)
    requires
        b > 0,
        a >= 0,
    ensures
        b * tdiv(a, b) <= a < b * tdiv(a, b) + b,
{
    lemma_fundamental_div_mod(a, b);
    lemma_mod_bound(a, b);
}

/// Magnitude of `a` as an unsigned value.
pub fn mag64(a: i64) -> (r: u64)
    requires
        a > i64::MIN,
    ensures
        r == iabs(a as int),
{
    if a < 0 {
        (-a) as u64
    } else {
        a as u64
    }
}

/// Division truncated toward zero, executable form.
pub fn tdiv_exec(a: i64, b: i64) -> (r: i64)
    requires
        a > i64::MIN,
        b >= 1,
    ensures
        r == tdiv(a as int, b as int),
        iabs(r as int) <= iabs(a as int),
{
    proof {
        lemma_tdiv_le_mag(a as int, b as int);
        if a >= 0 {
            lemma_div_pos_is_pos(a as int, b as int);
        } else {
            lemma_div_pos_is_pos(-a as int, b as int);
        }
    }
    let m: u64 = mag64(a);
    let q: u64 = m / (b as u64);
    if a >= 0 {
        q as i64
    } else {
        -(q as i64)
    }
}

/// `a * n / d` with the product taken at full width and the quotient
/// truncated toward zero.
pub fn mul_div(a: i64, n: i64, d: i64) -> (r: i64)
    requires
        a > i64::MIN,
        n >= 0,
        d >= 1,
        tdiv(a as int * n as int, d as int) < i64::MAX,
        tdiv(a as int * n as int, d as int) > i64::MIN,
    ensures
        r == tdiv(a as int * n as int, d as int),
{
    let ma = mag64(a);
    proof {
        assert((ma as int) * (n as int) <= u128::MAX) by (nonlinear_arith)
            requires
                0 <= ma <= u64::MAX,
                0 <= n <= i64::MAX,
        ;
    }
    let p: u128 = (ma as u128) * (n as u128);
    let q: u128 = p / (d as u128);
    proof {
        let m = iabs(a as int) * n as int;
        assert(m >= 0 && p == m) by (nonlinear_arith)
            requires
                m == iabs(a as int) * n,
                ma == iabs(a as int),
                p == (ma as int) * (n as int),
                ma >= 0,
                n >= 0,
        ;
        assert(q == m / (d as int));
        lemma_div_pos_is_pos(m, d as int);
        if a >= 0 {
            assert(a as int * n == m);
        } else {
            assert(a as int * n == -m) by (nonlinear_arith)
                requires
                    a < 0,
                    m == iabs(a as int) * n,
            ;
        }
        assert(iabs(tdiv(a as int * n as int, d as int)) == q);
    }
    if a >= 0 {
        q as i64
    } else {
        -(q as i64)
    }
}

/// Division rounded up, for a nonnegative dividend and positive divisor.
pub open spec fn cdiv(a: int, b: int) -> int
    recommends
        a >= 0,
        b > 0,
{
    tdiv(a + b - 1, b)
}

/// The defining property of `cdiv`: multiplying back reaches the
/// dividend.
pub proof fn lemma_cdiv_ge(a: int, b: int)
    requires
        a >= 0,
        b > 0,
    ensures
        cdiv(a, b) * b >= a,
        cdiv(a, b) >= 0,
{
    lemma_tdiv_bracket(a + b - 1, b);
    lemma_div_pos_is_pos(a + b - 1, b);
    assert(b * tdiv(a + b - 1, b) == tdiv(a + b - 1, b) * b) by (nonlinear_arith);
}

/// Division rounded up, executable form.
pub fn cdiv_exec(a: i64, b: i64) -> (r: i64)
    requires
        0 <= a,
        1 <= b,
        a + b - 1 <= i64::MAX,
    ensures
        r == cdiv(a as int, b as int),
        0 <= r <= a,
{
    proof {
        lemma_cdiv_ge(a as int, b as int);
        lemma_tdiv_nonneg(a as int + b - 1, b as int);
        if a >= 1 {
            assert(cdiv(a as int, b as int) <= a) by {
                assert(a as int + b - 1 <= a as int * b as int) by (nonlinear_arith)
                    requires
                        a >= 1,
                        b >= 1,
                ;
                lemma_div_is_ordered(a as int + b - 1, a as int * b as int, b as int);
                lemma_div_by_multiple(a as int, b as int);
            }
        } else {
            assert(tdiv(b - 1, b as int) == 0) by {
                lemma_basic_div(b - 1, b as int);
            }
        }
    }
    (a + (b - 1)) / b
}

/// Division truncated toward zero on wide values, executable form.
pub fn tdiv_exec128(a: i128, b: i128) -> (r: i128)
    requires
        a > i128::MIN,
        b >= 1,
    ensures
        r == tdiv(a as int, b as int),
        iabs(r as int) <= iabs(a as int),
{
    proof {
        lemma_tdiv_le_mag(a as int, b as int);
        if a >= 0 {
            lemma_div_pos_is_pos(a as int, b as int);
        } else {
            lemma_div_pos_is_pos(-a as int, b as int);
        }
    }
    let m: u128 = if a < 0 {
        (-a) as u128
    } else {
        a as u128
    };
    let q: u128 = m / (b as u128);
    if a >= 0 {
        q as i128
    } else {
        -(q as i128)
    }
}

/// Floor of the square root, defined by counting up; executable square
/// roots are proved equal to this.
pub open spec fn sqrt_floor(n: nat) -> nat
    decreases n,
{
    if n == 0 {
        0
    } else {
        let s = sqrt_floor((n - 1) as nat);
        if (s + 1) * (s + 1) <= n {
            s + 1
        } else {
            s
        }
    }
}

pub proof fn lemma_sqrt_floor_bracket(n: nat)
    ensures
        sqrt_floor(n) * sqrt_floor(n) <= n,
        n < (sqrt_floor(n) + 1) * (sqrt_floor(n) + 1),
    decreases n,
{
    if n > 0 {
        lemma_sqrt_floor_bracket((n - 1) as nat);
        let s = sqrt_floor((n - 1) as nat);
        let t = sqrt_floor(n);
        if (s + 1) * (s + 1) <= n {
            assert(t == s + 1);
            assert(n == (s + 1) * (s + 1));
            assert((s + 1) * (s + 1) < (s + 2) * (s + 2)) by (nonlinear_arith)
                requires
                    s >= 0,
            ;
            assert((t + 1) * (t + 1) == (s + 2) * (s + 2));
            assert(n < (t + 1) * (t + 1));
        } else {
            assert(t == s);
            assert(n < (s + 1) * (s + 1));
            assert((t + 1) * (t + 1) == (s + 1) * (s + 1));
        }
    } else {
        let z = sqrt_floor(0);
        assert(z == 0);
        assert(z * z == 0 && (z + 1) * (z + 1) == 1) by (nonlinear_arith)
            requires
                z == 0nat,
        ;
    }
}

pub proof fn lemma_sqrt_floor_unique(n: nat, r: nat)
    requires
        r * r <= n,
        n < (r + 1) * (r + 1),
    ensures
        r == sqrt_floor(n),
{
    let s = sqrt_floor(n);
    lemma_sqrt_floor_bracket(n);
    if r < s {
        assert((r + 1) * (r + 1) <= s * s) by (nonlinear_arith)
            requires
                0 <= r,
                r + 1 <= s,
        ;
    }
    if s < r {
        assert((s + 1) * (s + 1) <= r * r) by (nonlinear_arith)
            requires
                0 <= s,
                s + 1 <= r,
        ;
    }
}

/// Floor of the square root of `x`, by bisection.
pub fn isqrt(x: u64) -> (r: u64)
    ensures
        r == sqrt_floor(x as nat),
        r * r <= x,
{
    if x == 0 {
        proof {
            assert(sqrt_floor(0) == 0);
        }
        return 0;
    }
    let mut lo: u64 = 0;
    let mut hi: u64 = 4_294_967_296;
    proof {
        assert((hi as int) * (hi as int) > x as int) by (nonlinear_arith)
            requires
                hi == 4_294_967_296u64,
                x <= u64::MAX,
        ;
    }
    while hi - lo > 1
        invariant
            lo < hi <= 4_294_967_296,
            lo as int * lo as int <= x as int,
            x < hi as int * hi as int,
        decreases hi - lo,
    {
        let mid = lo + (hi - lo) / 2;
        proof {
            assert((mid as int) * (mid as int) <= u128::MAX) by (nonlinear_arith)
                requires
                    0 <= mid <= 4_294_967_296u64,
            ;
        }
        let sq: u128 = (mid as u128) * (mid as u128);
        if sq <= x as u128 {
            lo = mid;
        } else {
            hi = mid;
        }
    }
    proof {
        lemma_sqrt_floor_unique(x as nat, lo as nat);
    }
    lo
}

/// Floor of the square root of the (possibly wide) value `x`.
pub fn isqrt128(x: u128) -> (r: u128)
    ensures
        r == sqrt_floor(x as nat),
        r * r <= x,
{
    if x == 0 {
        proof {
            assert(sqrt_floor(0) == 0);
        }
        return 0;
    }
    let mut lo: u128 = 0;
    let mut hi: u128 = 0x1_0000_0000_0000_0000u128;
    proof {
        assert((hi as int) * (hi as int) > x as int) by (nonlinear_arith)
            requires
                hi == 0x1_0000_0000_0000_0000u128,
                x <= u128::MAX,
        ;
    }
    while hi - lo > 1
        invariant
            lo < hi <= 0x1_0000_0000_0000_0000u128,
            lo as int * lo as int <= x as int,
            x < hi as int * hi as int,
        decreases hi - lo,
    {
        let mid = lo + (hi - lo) / 2;
        let sq_ok = mid <= x / mid;
        proof {
            let m = mid as int;
            let xi = x as int;
            lemma_fundamental_div_mod(xi, m);
            lemma_mod_bound(xi, m);
            if m <= xi / m {
                assert(m * m <= m * (xi / m)) by (nonlinear_arith)
                    requires
                        m > 0,
                        m <= xi / m,
                ;
            } else {
                assert(m * m >= m * (xi / m) + m) by (nonlinear_arith)
                    requires
                        m > 0,
                        m >= xi / m + 1,
                ;
            }
        }
        if sq_ok {
            lo = mid;
        } else {
            hi = mid;
        }
    }
    proof {
        lemma_sqrt_floor_unique(x as nat, lo as nat);
    }
    lo
}

/// A nonnegative rational scale factor, used for every configured ratio.
#[derive(Clone, Copy, Debug, PartialEq, Eq, Structural)]
pub struct Ratio {
    pub num: i64,
    pub den: i64,
}

impl Ratio {
    pub open spec fn wf(self) -> bool {
        &&& 0 <= self.num <= RATIO_MAX
        &&& 1 <= self.den <= RATIO_MAX
    }

    /// The value `v` scaled by this ratio, truncated toward zero.
    pub open spec fn apply(self, v: int) -> int {
        tdiv(v * self.num, self.den as int)
    }

    pub fn new(num: i64, den: i64) -> (r: Ratio)
        requires
            0 <= num <= RATIO_MAX,
            1 <= den <= RATIO_MAX,
        ensures
            r == (Ratio { num, den }),
            r.wf(),
    {
        Ratio { num, den }
    }

    /// The identity scale factor.
    pub fn one() -> (r: Ratio)
        ensures
            r.wf(),
            forall|v: int| r.apply(v) == v,
    {
        proof {
            assert forall|v: int| (Ratio { num: 1i64, den: 1i64 }).apply(v) == v by {
                lemma_tdiv_exact(v, 1);
            }
        }
        Ratio { num: 1, den: 1 }
    }

    /// `Some` exactly when the pair is in range for a well-formed ratio.
    pub fn checked(num: i64, den: i64) -> (r: Option<Ratio>)
        ensures
            r is Some <==> 0 <= num <= RATIO_MAX && 1 <= den <= RATIO_MAX,
            r matches Some(q) ==> q == (Ratio { num, den }) && q.wf(),
    {
        if 0 <= num && num <= RATIO_MAX && 1 <= den && den <= RATIO_MAX {
            Some(Ratio { num, den })
        } else {
            None
        }
    }

    /// Scale `v`, which must be a stored coordinate, by this ratio.
    pub fn scale_val(self, v: i64) -> (r: i64)
        requires
            self.wf(),
            iabs(v as int) <= COORD_MAX,
        ensures
            r == self.apply(v as int),
            iabs(r as int) <= iabs(v as int) * self.num,
    {
        proof {
            let m = iabs(v as int) * self.num as int;
            assert(iabs(v as int * self.num as int) == m && m >= 0) by (nonlinear_arith)
                requires
                    self.num >= 0,
                    m == iabs(v as int) * self.num,
                    iabs(v as int) >= 0,
            ;
            assert(m <= m * self.den) by (nonlinear_arith)
                requires
                    self.den >= 1,
                    m >= 0,
            ;
            lemma_tdiv_mag(v as int * self.num as int, self.den as int, m);
            assert(m <= COORD_MAX * RATIO_MAX) by (nonlinear_arith)
                requires
                    iabs(v as int) <= COORD_MAX,
                    0 <= self.num <= RATIO_MAX,
                    m == iabs(v as int) * self.num,
            ;
            assert((COORD_MAX as int) * (RATIO_MAX as int) < i64::MAX) by (nonlinear_arith);
        }
        mul_div(v, self.num, self.den)
    }
}

} // verus!
