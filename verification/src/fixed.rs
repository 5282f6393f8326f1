//! A binary fixed-point scalar.
//!
//! The plane arithmetic of this crate runs on [`Fixed`], a signed Q31.32
//! value: the mathematical value of `f` is `f.raw / 2^32`.  Every operation
//! has an exact integer specification:
//!
//! * results are rounded to the nearest representable value, ties away from
//!   zero ([`rnd_away`]);
//! * results outside the representable range saturate ([`sat64`]), so every
//!   operation is total and none panics;
//! * division by zero saturates by the sign of the dividend (and `0 / 0` is
//!   `0`), mirroring how a quiet failure, not a fault, is expected of
//!   degenerate viewports.

use vstd::arithmetic::power2::pow2;
use vstd::prelude::*;

verus! {

/// Number of raw units per 1.0: the Q31.32 scale factor, `2^32`.
pub const SCALE: i64 = 4294967296;

/// A signed binary fixed-point number with 32 fractional bits.
#[derive(Clone, Copy, Debug, PartialEq, Eq, Structural)]
pub struct Fixed {
    /// The underlying scaled integer; the value represented is `raw / 2^32`.
    pub raw: i64,
}

/// Magnitude of an integer.
pub open spec fn mag(v: int) -> int {
    if v < 0 {
        -v
    } else {
        v
    }
}

/// Saturation of an integer to the `i64` range.
pub open spec fn sat64(v: int) -> int {
    if v > i64::MAX as int {
        i64::MAX as int
    } else if v < i64::MIN as int {
        i64::MIN as int
    } else {
        v
    }
}

/// `num / den` rounded to the nearest integer, ties away from zero.
/// Meaningful for `den > 0`.
pub open spec fn rnd_away(num: int, den: int) -> int {
    if num >= 0 {
        (2 * num + den) / (2 * den)
    } else {
        -((2 * (-num) + den) / (2 * den))
    }
}

/// The sum of two fixed-point values: exact, then saturated.
pub open spec fn fadd(a: Fixed, b: Fixed) -> Fixed {
    Fixed { raw: sat64(a.raw + b.raw) as i64 }
}

/// The difference of two fixed-point values: exact, then saturated.
pub open spec fn fsub(a: Fixed, b: Fixed) -> Fixed {
    Fixed { raw: sat64(a.raw - b.raw) as i64 }
}

/// The product of two fixed-point values: rounded to the nearest
/// representable value (ties away from zero), then saturated.
pub open spec fn fmul(a: Fixed, b: Fixed) -> Fixed {
    Fixed { raw: sat64(rnd_away(a.raw * b.raw, SCALE as int)) as i64 }
}

/// The quotient of two fixed-point values: rounded to the nearest
/// representable value (ties away from zero), then saturated.  A zero
/// divisor saturates by the sign of the dividend; `0 / 0` is `0`.
pub open spec fn fdiv(a: Fixed, b: Fixed) -> Fixed {
    if b.raw == 0 {
        if a.raw == 0 {
            Fixed { raw: 0 }
        } else if a.raw > 0 {
            Fixed { raw: i64::MAX }
        } else {
            Fixed { raw: i64::MIN }
        }
    } else if b.raw > 0 {
        Fixed { raw: sat64(rnd_away(a.raw * SCALE, b.raw as int)) as i64 }
    } else {
        Fixed { raw: sat64(rnd_away(-(a.raw * SCALE), -(b.raw as int))) as i64 }
    }
}

/// The fixed-point value of the integer `v`, saturated.
pub open spec fn f_from_int(v: int) -> Fixed {
    Fixed { raw: sat64(v * SCALE) as i64 }
}

/// Sign and magnitude facts about an integer product, used to justify
/// computing on magnitudes in the arithmetic below.
proof fn lemma_mul_sign_mag(a: int, b: int)
    ensures
        mag(a) * mag(b) == mag(a * b),
        a * b < 0 ==> ((a < 0) != (b < 0)),
        ((a < 0) != (b < 0)) ==> a * b <= 0,
        (a != 0 && b != 0) ==> a * b != 0,
        (a == 0 || b == 0) ==> a * b == 0,
{
    let ma: int = mag(a);
    let mb: int = mag(b);
    if a == 0 || b == 0 {
        assert(a * b == 0 && ma * mb == 0) by (nonlinear_arith)
            requires
                (a == 0 || b == 0) && (ma == 0 || mb == 0),
        ;
    } else if a > 0 && b > 0 {
        assert(a * b > 0 && ma * mb == a * b) by (nonlinear_arith)
            requires
                a > 0 && b > 0 && ma == a && mb == b,
        ;
    } else if a < 0 && b < 0 {
        assert(a * b > 0 && ma * mb == a * b) by (nonlinear_arith)
            requires
                a < 0 && b < 0 && ma == -a && mb == -b,
        ;
    } else if a < 0 {
        assert(a * b < 0 && ma * mb == -(a * b)) by (nonlinear_arith)
            requires
                a < 0 && b > 0 && ma == -a && mb == b,
        ;
    } else {
        assert(a * b < 0 && ma * mb == -(a * b)) by (nonlinear_arith)
            requires
                a > 0 && b < 0 && ma == a && mb == -b,
        ;
    }
}

/// The magnitude of an `i64`, widened so that `i64::MIN` needs no special
/// case.
fn abs_mag(v: i64) -> (m: u128)
    ensures
        m == mag(v as int),
{
    if v < 0 {
        (-(v as i128)) as u128
    } else {
        v as u128
    }
}

/// `num / den` rounded to the nearest integer, ties away from zero, on
/// nonnegative operands.
fn rnd_mag(num: u128, den: u128) -> (q: u128)
    requires
        1 <= den <= 0x10000000000000000u128,
        num <= 0x40000000000000000000000000000000u128,
    ensures
        q == rnd_away(num as int, den as int),
{
    (2 * num + den) / (2 * den)
}

/// Applies a sign to a magnitude and saturates the result to `i64`.
fn sat_from_mag(m: u128, neg: bool) -> (r: i64)
    ensures
        r as int == sat64(if neg { -(m as int) } else { m as int }),
{
    if neg {
        if m >= 0x8000000000000000u128 {
            i64::MIN
        } else {
            -(m as i64)
        }
    } else {
        if m >= 0x8000000000000000u128 {
            i64::MAX
        } else {
            m as i64
        }
    }
}

impl Fixed {
    /// The fixed-point value of the integer `v`.
    pub fn from_int(v: i32) -> (r: Fixed)
        ensures
            r == f_from_int(v as int),
    {
        Fixed { raw: (v as i64) * SCALE }
    }

    /// The fixed-point value of the integer `v`, saturated for arguments at
    /// or above `2^31`.
    pub fn from_u32(v: u32) -> (r: Fixed)
        ensures
            r == f_from_int(v as int),
    {
        if v >= 0x80000000u32 {
            Fixed { raw: i64::MAX }
        } else {
            Fixed { raw: (v as i64) * SCALE }
        }
    }

    /// Saturating fixed-point addition.
    pub fn add(self, rhs: Fixed) -> (r: Fixed)
        ensures
            r == fadd(self, rhs),
    {
        let s: i128 = self.raw as i128 + rhs.raw as i128;
        if s > i64::MAX as i128 {
            Fixed { raw: i64::MAX }
        } else if s < i64::MIN as i128 {
            Fixed { raw: i64::MIN }
        } else {
            Fixed { raw: s as i64 }
        }
    }

    /// Saturating fixed-point subtraction.
    pub fn sub(self, rhs: Fixed) -> (r: Fixed)
        ensures
            r == fsub(self, rhs),
    {
        let s: i128 = self.raw as i128 - rhs.raw as i128;
        if s > i64::MAX as i128 {
            Fixed { raw: i64::MAX }
        } else if s < i64::MIN as i128 {
            Fixed { raw: i64::MIN }
        } else {
            Fixed { raw: s as i64 }
        }
    }

    /// Saturating fixed-point multiplication, rounded to nearest, ties away
    /// from zero.
    pub fn mul(self, rhs: Fixed) -> (r: Fixed)
        ensures
            r == fmul(self, rhs),
    {
        let a: i64 = self.raw;
        let b: i64 = rhs.raw;
        let ma: u128 = abs_mag(a);
        let mb: u128 = abs_mag(b);
        proof {
            lemma_mul_sign_mag(a as int, b as int);
            assert(ma * mb <= 0x40000000000000000000000000000000u128) by (nonlinear_arith)
                requires
                    ma <= 0x8000000000000000u128,
                    mb <= 0x8000000000000000u128,
            ;
        }
        let p: u128 = ma * mb;
        let q: u128 = rnd_mag(p, 4294967296u128);
        let neg: bool = ((a < 0) != (b < 0)) && a != 0 && b != 0;
        let raw: i64 = sat_from_mag(q, neg);
        proof {
            let n: int = a * b;
            assert(p == mag(n));
            if neg {
                assert(n < 0);
                assert(p == -n);
                assert(rnd_away(n, SCALE as int) == -rnd_away(-n, SCALE as int));
            } else {
                assert(n >= 0);
                assert(p == n);
            }
            assert(raw as int == sat64(rnd_away(n, SCALE as int)));
        }
        Fixed { raw }
    }

    /// Saturating fixed-point division, rounded to nearest, ties away from
    /// zero.  A zero divisor saturates by the sign of the dividend; `0 / 0`
    /// is `0`.
    pub fn div(self, rhs: Fixed) -> (r: Fixed)
        ensures
            r == fdiv(self, rhs),
    {
        let a: i64 = self.raw;
        let b: i64 = rhs.raw;
        if b == 0 {
            if a == 0 {
                Fixed { raw: 0 }
            } else if a > 0 {
                Fixed { raw: i64::MAX }
            } else {
                Fixed { raw: i64::MIN }
            }
        } else {
            let ma: u128 = abs_mag(a);
            let mb: u128 = abs_mag(b);
            let num: u128 = ma * 4294967296u128;
            let q: u128 = rnd_mag(num, mb);
            let neg: bool = ((a < 0) != (b < 0)) && a != 0;
            let raw: i64 = sat_from_mag(q, neg);
            proof {
                let n: int = (a as int) * (SCALE as int);
                if a < 0 {
                    assert(n < 0) by (nonlinear_arith)
                        requires
                            a < 0 && n == (a as int) * 4294967296,
                    ;
                } else if a > 0 {
                    assert(n > 0) by (nonlinear_arith)
                        requires
                            a > 0 && n == (a as int) * 4294967296,
                    ;
                }
                assert(num == mag(n));
                if b > 0 {
                    if a < 0 {
                        assert(rnd_away(n, b as int) == -rnd_away(-n, b as int));
                    }
                    assert(raw as int == sat64(rnd_away(n, b as int)));
                } else {
                    if a > 0 {
                        assert(rnd_away(-n, -(b as int)) == -rnd_away(n, -(b as int)));
                    }
                    assert(raw as int == sat64(rnd_away(-n, -(b as int))));
                }
            }
            Fixed { raw }
        }
    }
}

/// The floor integer square root: the unique `r >= 0` with
/// `r * r <= n < (r + 1) * (r + 1)`.
pub open spec fn sqrt_floor(n: int) -> int {
    choose|r: int| 0 <= r && #[trigger] (r * r) <= n && n < (r + 1) * (r + 1)
}

/// The square root of a fixed-point value, rounded down to the grid:
/// `fsqrt(a).raw` is the floor square root of `a.raw * 2^32`, so that the
/// represented value is the largest representable one whose square does not
/// exceed `a`.  Meaningful for `a.raw >= 0`.
pub open spec fn fsqrt(a: Fixed) -> Fixed {
    Fixed { raw: sqrt_floor(a.raw * SCALE) as i64 }
}

/// The Euclidean remainder of a fixed-point value by the whole number `m`:
/// the result is in `[0, m)` whatever the sign of `a`.
pub open spec fn fmod_int(a: Fixed, m: int) -> Fixed {
    Fixed { raw: ((a.raw as int) % (m * (SCALE as int))) as i64 }
}

/// A value satisfying the floor-square-root bracket is `sqrt_floor`.
pub proof fn lemma_sqrt_floor_is(n: int, r: int)
    requires
        0 <= r,
        r * r <= n,
        n < (r + 1) * (r + 1),
    ensures
        sqrt_floor(n) == r,
{
    assert(0 <= r && r * r <= n && n < (r + 1) * (r + 1));
    let rp: int = choose|x: int| 0 <= x && #[trigger] (x * x) <= n && n < (x + 1) * (x + 1);
    assert(0 <= rp && rp * rp <= n && n < (rp + 1) * (rp + 1));
    if rp < r {
        assert((rp + 1) * (rp + 1) <= r * r) by (nonlinear_arith)
            requires
                0 <= rp + 1 && rp + 1 <= r,
        ;
    }
    if r < rp {
        assert((r + 1) * (r + 1) <= rp * rp) by (nonlinear_arith)
            requires
                0 <= r + 1 && r + 1 <= rp,
        ;
    }
}

impl Fixed {
    /// The square root, rounded down to the fixed-point grid.
    pub fn sqrt(self) -> (r: Fixed)
        requires
            self.raw >= 0,
        ensures
            r == fsqrt(self),
            r.raw >= 0,
            r.raw * r.raw <= self.raw * SCALE,
            self.raw * SCALE < (r.raw + 1) * (r.raw + 1),
    {
        let n: u128 = (self.raw as u128) * 4294967296u128;
        let mut lo: u128 = 0;
        let mut hi: u128 = 281474976710656u128;
        proof {
            assert((281474976710656int) * (281474976710656int)
                == 0x1000000000000000000000000int);
        }
        while lo + 1 < hi
            invariant
                lo < hi <= 281474976710656u128,
                (lo as int) * (lo as int) <= n as int,
                (n as int) < (hi as int) * (hi as int),
                n == (self.raw as int) * (SCALE as int),
                self.raw >= 0,
            decreases hi - lo,
        {
            let mid: u128 = lo + (hi - lo) / 2;
            proof {
                assert((mid as int) * (mid as int) <= 0x1000000000000000000000000int)
                    by (nonlinear_arith)
                    requires
                        0 <= mid as int <= 281474976710656int,
                ;
            }
            if mid * mid <= n {
                lo = mid;
            } else {
                hi = mid;
            }
        }
        proof {
            lemma_sqrt_floor_is(n as int, lo as int);
        }
        Fixed { raw: lo as i64 }
    }

    /// The Euclidean remainder by the whole number `m`: the result
    /// represents a value in `[0, m)` whatever the sign of `self`.
    pub fn rem_euclid_u32(self, m: u32) -> (r: Fixed)
        requires
            1 <= m <= 0x40000000u32,
        ensures
            r == fmod_int(self, m as int),
    {
        let d: u64 = (m as u64) * 4294967296u64;
        if self.raw >= 0 {
            let rm: u64 = (self.raw as u64) % d;
            proof {
                assert(d as int == (m as int) * (SCALE as int));
            }
            Fixed { raw: rm as i64 }
        } else {
            let x: u128 = (-(self.raw as i128)) as u128;
            let rm: u128 = x % (d as u128);
            proof {
                assert(d as int == (m as int) * (SCALE as int));
                lemma_rem_of_negative(self.raw as int, x as int, d as int);
            }
            if rm == 0 {
                Fixed { raw: 0 }
            } else {
                Fixed { raw: (d - (rm as u64)) as i64 }
            }
        }
    }
}

/// Euclidean remainder of a negative number from the remainder of its
/// magnitude.
proof fn lemma_rem_of_negative(a: int, x: int, d: int)
    requires
        a < 0,
        x == -a,
        d > 0,
    ensures
        (x % d == 0) ==> (a % d == 0),
        (x % d != 0) ==> (a % d == d - (x % d)),
{
    vstd::arithmetic::div_mod::lemma_fundamental_div_mod(x, d);
    let q: int = x / d;
    let rm: int = x % d;
    vstd::arithmetic::div_mod::lemma_mod_division_less_than_divisor(x, d);
    if rm == 0 {
        assert(a == d * (-q) + 0) by {
            assert(x == d * q);
            assert(d * (-q) == -(d * q)) by (nonlinear_arith);
        };
        vstd::arithmetic::div_mod::lemma_fundamental_div_mod_converse(a, d, -q, 0);
    } else {
        assert(a == d * (-q - 1) + (d - rm)) by {
            assert(x == d * q + rm);
            assert(d * (-q - 1) == -(d * q) - d) by (nonlinear_arith);
        };
        vstd::arithmetic::div_mod::lemma_fundamental_div_mod_converse(a, d, -q - 1, d - rm);
    }
}


/// Raw value of `log2(10)` on the Q31.32 grid, rounded to nearest.
pub const LOG2_10_RAW: i64 = 14267572527;

/// The number of doublings that bring a positive value up into
/// `[2^63, 2^64)`.
pub open spec fn norm_shift(m: int) -> int
    decreases 0x10000000000000000int - m when m >= 1
{
    if m >= 0x8000000000000000 {
        0
    } else {
        1 + norm_shift(2 * m)
    }
}

/// The fractional bits of the base-2 logarithm of a mantissa `m` scaled by
/// `2^63`, produced by `k` squaring steps with truncation: each step
/// squares the mantissa, emits a bit by whether the square reached 2, and
/// renormalizes.
pub open spec fn log2_frac(m: int, k: nat) -> int
    decreases k,
{
    if k == 0 {
        0
    } else {
        let s = m * m;
        if s >= 0x80000000000000000000000000000000 {
            pow2((k - 1) as nat) + log2_frac(s / 0x10000000000000000, (k - 1) as nat)
        } else {
            log2_frac(s / 0x8000000000000000, (k - 1) as nat)
        }
    }
}

/// The fixed-point base-2 logarithm: the integer part is exact, and the 32
/// fractional bits come from repeated squaring of the normalized mantissa
/// with truncation, so the result approximates the logarithm from below.
/// Meaningful for positive arguments.
pub open spec fn flog2(a: Fixed) -> Fixed {
    let sh = norm_shift(a.raw as int);
    Fixed { raw: ((31 - sh) * (SCALE as int) + log2_frac(a.raw * pow2(sh as nat), 32)) as i64 }
}

/// The fixed-point base-10 logarithm, computed as `log2(a) / log2(10)` on
/// the grid.  Meaningful for positive arguments.
pub open spec fn flog10(a: Fixed) -> Fixed {
    fdiv(flog2(a), Fixed { raw: LOG2_10_RAW })
}

impl Fixed {
    /// The base-2 logarithm on the grid: exact integer part, 32 fractional
    /// bits from repeated squaring with truncation.
    pub fn log2(self) -> (r: Fixed)
        requires
            self.raw >= 1,
        ensures
            r == flog2(self),
            self.raw >= 2 * SCALE ==> r.raw >= SCALE,
    {
        let mut mant: u64 = self.raw as u64;
        let mut sh: u32 = 0;
        proof {
            vstd::arithmetic::power2::lemma2_to64();
        }
        while mant < 0x8000000000000000u64
            invariant
                1 <= self.raw,
                mant as int == self.raw * pow2(sh as nat),
                norm_shift(self.raw as int) == sh + norm_shift(mant as int),
                mant >= 1,
                sh <= 63,
            decreases 0x10000000000000000int - mant,
        {
            proof {
                vstd::arithmetic::power2::lemma_pow2_pos(sh as nat);
                vstd::arithmetic::mul::lemma_mul_inequality(1, self.raw as int, pow2(sh as nat) as int);
                if sh >= 63 {
                    vstd::arithmetic::power2::lemma2_to64_rest();
                    if sh > 63 {
                        vstd::arithmetic::power2::lemma_pow2_strictly_increases(63, sh as nat);
                    }
                    assert(false);
                }
                vstd::arithmetic::power2::lemma_pow2_unfold((sh + 1) as nat);
                assert(2 * (self.raw * pow2(sh as nat)) == self.raw * (2 * pow2(sh as nat)))
                    by (nonlinear_arith);
            }
            mant = mant * 2;
            sh = sh + 1;
        }
        let ghost mant0: u64 = mant;
        let mut y: u64 = mant;
        let mut frac: u64 = 0;
        let mut j: u32 = 0;
        proof {
            vstd::arithmetic::power2::lemma2_to64();
        }
        while j < 32
            invariant
                j <= 32,
                y >= 0x8000000000000000u64,
                frac < pow2(j as nat),
                frac * pow2((32 - j) as nat) + log2_frac(y as int, (32 - j) as nat) == log2_frac(
                    mant0 as int,
                    32,
                ),
            decreases 32 - j,
        {
            proof {
                assert((y as int) * (y as int) < 0x100000000000000000000000000000000int)
                    by (nonlinear_arith)
                    requires
                        y as int <= 0xffffffffffffffffint,
                ;
                assert((y as int) * (y as int) >= 0x40000000000000000000000000000000int)
                    by (nonlinear_arith)
                    requires
                        y as int >= 0x8000000000000000int,
                ;
                vstd::arithmetic::power2::lemma2_to64();
                if j < 31 {
                    vstd::arithmetic::power2::lemma_pow2_strictly_increases(j as nat, 31);
                }
                assert(frac < 0x80000000u64);
            }
            let s: u128 = (y as u128) * (y as u128);
            let ghost k: nat = (32 - j) as nat;
            let ghost fr0: int = frac as int;
            let ghost y0: int = y as int;
            let bit: u64;
            if s >= 0x80000000000000000000000000000000u128 {
                bit = 1;
                frac = frac * 2 + 1;
                y = (s / 0x10000000000000000u128) as u64;
            } else {
                bit = 0;
                frac = frac * 2;
                y = (s / 0x8000000000000000u128) as u64;
            }
            j = j + 1;
            proof {
                vstd::arithmetic::power2::lemma_pow2_unfold(k);
                let km1: nat = (k - 1) as nat;
                assert(log2_frac(y0, k) == bit * pow2(km1) + log2_frac(y as int, km1));
                assert((2 * fr0 + bit) * pow2(km1) == 2 * (fr0 * pow2(km1)) + bit * pow2(km1))
                    by (nonlinear_arith);
                assert(fr0 * pow2(k) == 2 * (fr0 * pow2(km1))) by (nonlinear_arith)
                    requires
                        pow2(k) == 2 * pow2(km1),
                ;
                vstd::arithmetic::power2::lemma_pow2_unfold(j as nat);
            }
        }
        let ip: i64 = 31 - (sh as i64);
        let raw: i64 = ip * SCALE + (frac as i64);
        proof {
            assert(norm_shift(mant0 as int) == 0);
            assert(sh as int == norm_shift(self.raw as int));
            assert(log2_frac(y as int, (32 - j) as nat) == 0);
            assert(pow2(0) == 1) by {
                vstd::arithmetic::power2::lemma2_to64();
            };
            assert(frac * pow2(0) == frac) by (nonlinear_arith)
                requires
                    pow2(0) == 1,
            ;
            assert(frac as int == log2_frac(mant0 as int, 32));
            assert(mant0 as int == (self.raw as int) * pow2(sh as nat));
            assert(raw as int == (31 - norm_shift(self.raw as int)) * (SCALE as int) + log2_frac(
                (self.raw as int) * pow2(norm_shift(self.raw as int) as nat),
                32,
            ));
            if self.raw >= 2 * SCALE {
                if sh >= 31 {
                    vstd::arithmetic::power2::lemma_pow2_adds(sh as nat, 33);
                    vstd::arithmetic::mul::lemma_mul_inequality(
                        0x200000000int,
                        self.raw as int,
                        pow2(sh as nat) as int,
                    );
                    assert(pow2((sh + 33) as nat) <= 0x200000000int * pow2(sh as nat)) by {
                        assert(pow2(33) == 0x200000000int) by {
                            vstd::arithmetic::power2::lemma2_to64_rest();
                        };
                        assert(pow2(sh as nat) * pow2(33) == 0x200000000int * pow2(sh as nat))
                            by (nonlinear_arith)
                            requires
                                pow2(33) == 0x200000000int,
                        ;
                    };
                    vstd::arithmetic::power2::lemma_pow2_strictly_increases(64, (sh + 33) as nat);
                    vstd::arithmetic::power2::lemma2_to64_rest();
                    assert(false);
                }
            }
        }
        Fixed { raw }
    }

    /// The base-10 logarithm on the grid, as `log2` divided by `log2(10)`.
    pub fn log10(self) -> (r: Fixed)
        requires
            self.raw >= 1,
        ensures
            r == flog10(self),
            self.raw >= 2 * SCALE ==> r.raw >= 1,
    {
        let l2: Fixed = self.log2();
        let r: Fixed = l2.div(Fixed { raw: LOG2_10_RAW });
        proof {
            if self.raw >= 2 * SCALE {
                let n: int = l2.raw * SCALE;
                let d: int = LOG2_10_RAW as int;
                vstd::arithmetic::mul::lemma_mul_inequality(SCALE as int, l2.raw as int, SCALE as int);
                vstd::arithmetic::div_mod::lemma_div_is_ordered(
                    2 * ((SCALE as int) * (SCALE as int)) + d,
                    2 * n + d,
                    2 * d,
                );
            }
        }
        r
    }
}

} // verus!

