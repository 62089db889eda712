//! Double-precision numbers held by their bit pattern.
//!
//! Configuration values such as durations and probabilities arrive as IEEE 754
//! binary64 numbers. A `Double` carries the pattern unchanged; the few
//! operations that the rules of the game need are exact integer functions of it.

use vstd::prelude::*;

verus! {

/// An IEEE 754 binary64 number, by its bit pattern.
#[derive(Debug, Clone, Copy, PartialEq, Eq, Structural)]
pub struct Double {
    pub bits: u64,
}

/// Two to the power `n`.
pub open spec fn pow2(n: int) -> int {
    vstd::arithmetic::power2::pow2(n as nat) as int
}

/// Bits that `v` has beyond the 53 of a significand.
pub open spec fn excess_bits(v: int) -> int
    decreases v,
{
    if v < 0x20_0000_0000_0000 {
        0
    } else {
        1 + excess_bits(v / 2)
    }
}

/// The integer nearest to `v` among those with a 53-bit significand; the one
/// with an even significand where two are equally near.
pub open spec fn nearest_53(v: int) -> int {
    let unit = pow2(excess_bits(v));
    let low = v / unit;
    let rest = v % unit;
    if 2 * rest > unit || (2 * rest == unit && low % 2 == 1) {
        (low + 1) * unit
    } else {
        low * unit
    }
}

impl Double {
    pub open spec fn negative(self) -> bool {
        self.bits >= 0x8000_0000_0000_0000
    }

    pub open spec fn exponent(self) -> int {
        (self.bits / 0x10_0000_0000_0000 % 2048) as int
    }

    pub open spec fn fraction(self) -> int {
        (self.bits % 0x10_0000_0000_0000) as int
    }

    pub open spec fn is_nan(self) -> bool {
        self.exponent() == 2047 && self.fraction() != 0
    }

    /// Distance from zero in units of `2^-1074`, the smallest positive number
    /// of this format. An infinity lies above every finite number.
    pub open spec fn magnitude(self) -> int {
        if self.exponent() == 0 {
            self.fraction()
        } else {
            (0x10_0000_0000_0000 + self.fraction()) * pow2(self.exponent() - 1)
        }
    }

    /// The number in units of `2^-1074`.
    pub open spec fn scaled(self) -> int {
        if self.negative() {
            -self.magnitude()
        } else {
            self.magnitude()
        }
    }

    /// The number compares as at most zero.
    pub open spec fn not_positive(self) -> bool {
        !self.is_nan() && self.scaled() <= 0
    }

    /// The number compares as above zero and at most one.
    pub open spec fn in_unit_interval(self) -> bool {
        !self.is_nan() && 0 < self.scaled() <= pow2(1074)
    }

    /// The number compares as above `k / 2^53`.
    pub open spec fn above_53(self, k: int) -> bool {
        !self.is_nan() && k * pow2(1021) < self.scaled()
    }

    /// This many seconds as whole ticks: the product with `tick_rate`, rounded
    /// to double precision, then to the nearest integer (halves up), kept
    /// within `1..=u32::MAX`. Not-a-number and negative durations take one tick.
    pub open spec fn ticks(self, tick_rate: u32) -> int {
        if self.is_nan() || self.negative() {
            1
        } else {
            let product = nearest_53(self.magnitude() * tick_rate);
            let whole = (product + pow2(1073)) / pow2(1074);
            if whole < 1 {
                1
            } else if whole > u32::MAX {
                u32::MAX as int
            } else {
                whole
            }
        }
    }
}

// ---------------------------------------------------------------------------
// Powers of two
// ---------------------------------------------------------------------------

proof fn lemma_pow2_step(n: int)
    requires
        n >= 0,
    ensures
        pow2(n + 1) == 2 * pow2(n),
        pow2(n) > 0,
        pow2(0) == 1,
{
    vstd::arithmetic::power2::lemma_pow2_unfold((n + 1) as nat);
    vstd::arithmetic::power2::lemma_pow2_pos(n as nat);
    vstd::arithmetic::power2::lemma2_to64();
}

proof fn lemma_pow2_adds(a: int, b: int)
    requires
        a >= 0,
        b >= 0,
    ensures
        pow2(a + b) == pow2(a) * pow2(b),
        pow2(a) > 0,
        pow2(b) > 0,
        pow2(a + b) > 0,
{
    vstd::arithmetic::power2::lemma_pow2_adds(a as nat, b as nat);
    vstd::arithmetic::power2::lemma_pow2_pos(a as nat);
    vstd::arithmetic::power2::lemma_pow2_pos(b as nat);
    vstd::arithmetic::power2::lemma_pow2_pos((a + b) as nat);
}

proof fn lemma_pow2_order(a: int, b: int)
    requires
        0 <= a <= b,
    ensures
        0 < pow2(a) <= pow2(b),
{
    vstd::arithmetic::power2::lemma_pow2_pos(a as nat);
    if a < b {
        vstd::arithmetic::power2::lemma_pow2_strictly_increases(a as nat, b as nat);
    }
}

proof fn lemma_pow2_values()
    ensures
        pow2(0) == 1,
        pow2(1) == 2,
        pow2(52) == 0x10_0000_0000_0000,
        pow2(53) == 0x20_0000_0000_0000,
        pow2(100) == 0x10_0000_0000_0000_0000_0000_0000,
{
    vstd::arithmetic::power2::lemma2_to64();
    vstd::arithmetic::power2::lemma2_to64_rest();
    lemma_pow2_adds(50, 50);
    assert(pow2(50) == 0x4_0000_0000_0000);
    assert(0x4_0000_0000_0000 * 0x4_0000_0000_0000 == 0x10_0000_0000_0000_0000_0000_0000int)
        by (nonlinear_arith);
}

/// Two to the power `n`, for powers that fit.
fn power_of_two(n: u32) -> (r: u128)
    requires
        n <= 100,
    ensures
        r == pow2(n as int),
        1 <= r <= 0x10_0000_0000_0000_0000_0000_0000,
{
    let mut r: u128 = 1;
    let mut i: u32 = 0;
    proof {
        lemma_pow2_values();
    }
    while i < n
        invariant
            i <= n <= 100,
            r == pow2(i as int),
            1 <= r <= 0x10_0000_0000_0000_0000_0000_0000,
        decreases n - i,
    {
        proof {
            lemma_pow2_step(i as int);
            lemma_pow2_order(i + 1, 100);
            lemma_pow2_values();
        }
        r = r * 2;
        i = i + 1;
    }
    r
}

// ---------------------------------------------------------------------------
// Comparisons
// ---------------------------------------------------------------------------

proof fn lemma_magnitude(d: Double)
    ensures
        d.magnitude() >= 0,
        d.magnitude() == 0 <==> d.exponent() == 0 && d.fraction() == 0,
        0 <= d.exponent() < 2048,
        0 <= d.fraction() < 0x10_0000_0000_0000,
        d.exponent() < 1023 ==> d.magnitude() < pow2(1074),
        d.exponent() == 1023 && d.fraction() == 0 ==> d.magnitude() == pow2(1074),
        d.exponent() == 1023 && d.fraction() > 0 ==> d.magnitude() > pow2(1074),
        d.exponent() > 1023 ==> d.magnitude() > pow2(1074),
{
    let e = d.exponent();
    let m = 0x10_0000_0000_0000 + d.fraction();
    lemma_pow2_values();
    if e == 0 {
        lemma_pow2_order(53, 1074);
    } else {
        let p = pow2(e - 1);
        lemma_pow2_order(0, e - 1);
        assert(m * p > 0) by (nonlinear_arith)
            requires
                m > 0,
                p > 0,
        ;
        lemma_pow2_adds(52, 1022);
        lemma_pow2_adds(53, 1021);
        let top = pow2(1022);
        if e < 1023 {
            lemma_pow2_order(e - 1, 1021);
            let q = pow2(1021);
            assert(m * p < 0x20_0000_0000_0000 * q) by (nonlinear_arith)
                requires
                    0 < m < 0x20_0000_0000_0000,
                    0 < p <= q,
            ;
        } else if e == 1023 {
            assert(d.fraction() > 0 ==> m * p > 0x10_0000_0000_0000 * top) by (nonlinear_arith)
                requires
                    m == 0x10_0000_0000_0000 + d.fraction(),
                    p == top,
                    p > 0,
            ;
        } else {
            lemma_pow2_step(1022);
            lemma_pow2_order(1023, e - 1);
            assert(m * p > 0x10_0000_0000_0000 * top) by (nonlinear_arith)
                requires
                    m >= 0x10_0000_0000_0000,
                    p >= 2 * top,
                    top > 0,
            ;
        }
    }
}

/// A number below one, against `k / 2^53`, with the common power cancelled.
proof fn lemma_chance(d: Double, k: int, shift: int)
    requires
        1 <= d.exponent() <= 1022,
        shift == 1022 - d.exponent(),
        k >= 0,
    ensures
        k * pow2(1021) < d.magnitude() <==> k * pow2(shift) < 0x10_0000_0000_0000 + d.fraction(),
{
    let m = 0x10_0000_0000_0000 + d.fraction();
    let p = pow2(d.exponent() - 1);
    let s = pow2(shift);
    lemma_pow2_adds(shift, d.exponent() - 1);
    assert(pow2(1021) == s * p);
    assert(k * (s * p) == (k * s) * p) by (nonlinear_arith);
    let a = k * s;
    assert(a * p < m * p <==> a < m) by (nonlinear_arith)
        requires
            p > 0,
    ;
}

/// A number below `2^-53` exceeds no positive multiple of it.
proof fn lemma_small_chance(d: Double, k: int, shift: int)
    requires
        1 <= d.exponent() <= 1022,
        shift == 1022 - d.exponent(),
        shift > 53,
        k >= 0,
    ensures
        k * pow2(1021) < d.magnitude() <==> k == 0,
{
    lemma_chance(d, k, shift);
    lemma_magnitude(d);
    lemma_pow2_order(53, shift);
    lemma_pow2_values();
    let s = pow2(shift);
    assert(k > 0 ==> k * s >= s) by (nonlinear_arith)
        requires
            s > 0,
    ;
    assert(k == 0 ==> k * s == 0) by (nonlinear_arith);
}

impl Double {
    fn split(self) -> (r: (bool, u64, u64))
        ensures
            r.0 == self.negative(),
            r.1 == self.exponent(),
            r.2 == self.fraction(),
    {
        (
            self.bits >= 0x8000_0000_0000_0000,
            self.bits / 0x10_0000_0000_0000 % 2048,
            self.bits % 0x10_0000_0000_0000,
        )
    }

    /// Compares as at most zero.
    pub fn is_not_positive(self) -> (r: bool)
        ensures
            r == self.not_positive(),
    {
        proof {
            lemma_magnitude(self);
        }
        let (negative, exponent, fraction) = self.split();
        !(exponent == 2047 && fraction != 0) && (negative || (exponent == 0 && fraction == 0))
    }

    /// Compares as above zero and at most one.
    pub fn is_in_unit_interval(self) -> (r: bool)
        ensures
            r == self.in_unit_interval(),
    {
        proof {
            lemma_magnitude(self);
        }
        let (negative, exponent, fraction) = self.split();
        !negative && (exponent > 0 || fraction > 0) && (exponent < 1023 || (exponent == 1023
            && fraction == 0))
    }

    /// Compares as above `k / 2^53`.
    pub fn is_above_53(self, k: u64) -> (r: bool)
        requires
            k < 0x20_0000_0000_0000,
        ensures
            r == self.above_53(k as int),
    {
        proof {
            lemma_magnitude(self);
            lemma_pow2_values();
            lemma_pow2_adds(53, 1021);
            let kk = k as int;
            let unit = pow2(1021);
            assert(0 <= kk * unit < 0x20_0000_0000_0000 * unit) by (nonlinear_arith)
                requires
                    0 <= kk < 0x20_0000_0000_0000,
                    unit > 0,
            ;
            assert(kk == 0 ==> kk * unit == 0) by (nonlinear_arith);
            assert(kk > 0 ==> kk * unit >= unit) by (nonlinear_arith)
                requires
                    unit > 0,
            ;
        }
        let (negative, exponent, fraction) = self.split();
        if exponent == 2047 && fraction != 0 {
            return false;
        }
        if negative || (exponent == 0 && fraction == 0) {
            return false;
        }
        if exponent >= 1023 {
            return true;
        }
        if exponent == 0 {
            proof {
                lemma_pow2_order(53, 1021);
            }
            return k == 0;
        }
        let shift: u32 = 1022 - exponent as u32;
        if shift > 53 {
            proof {
                lemma_small_chance(self, k as int, shift as int);
            }
            return k == 0;
        }
        let unit = power_of_two(shift);
        let significand: u64 = 0x10_0000_0000_0000 + fraction;
        proof {
            lemma_chance(self, k as int, shift as int);
            lemma_pow2_order(shift as int, 53);
            assert(k * unit <= 0x20_0000_0000_0000 * 0x20_0000_0000_0000) by (nonlinear_arith)
                requires
                    0 <= k <= 0x20_0000_0000_0000,
                    0 <= unit <= 0x20_0000_0000_0000,
            ;
        }
        (k as u128) * unit < significand as u128
    }
}

// ---------------------------------------------------------------------------
// Durations
// ---------------------------------------------------------------------------

proof fn lemma_excess(v: int)
    requires
        v >= 0,
    ensures
        excess_bits(v) >= 0,
        excess_bits(2 * v) == (if v < 0x10_0000_0000_0000 {
            0
        } else {
            excess_bits(v) + 1
        }),
    decreases v,
{
    if v >= 0x20_0000_0000_0000 {
        lemma_excess(v / 2);
    }
    assert((2 * v) / 2 == v);
}

/// Rounding to a 53-bit significand commutes with doubling.
proof fn lemma_nearest_doubles(v: int)
    requires
        v >= 0,
    ensures
        nearest_53(2 * v) == 2 * nearest_53(v),
{
    lemma_excess(v);
    lemma_pow2_values();
    if v < 0x10_0000_0000_0000 {
        assert(v / 1 == v && v % 1 == 0);
        assert((2 * v) / 1 == 2 * v && (2 * v) % 1 == 0);
    } else if v < 0x20_0000_0000_0000 {
        assert(v / 1 == v && v % 1 == 0);
        assert((2 * v) / 2 == v && (2 * v) % 2 == 0);
    } else {
        let k = excess_bits(v);
        let unit = pow2(k);
        lemma_pow2_step(k);
        let low = v / unit;
        let rest = v % unit;
        vstd::arithmetic::div_mod::lemma_fundamental_div_mod(v, unit);
        vstd::arithmetic::div_mod::lemma_mod_bound(v, unit);
        assert(2 * v == low * (2 * unit) + 2 * rest) by (nonlinear_arith)
            requires
                v == unit * low + rest,
        ;
        vstd::arithmetic::div_mod::lemma_fundamental_div_mod_converse(
            2 * v,
            2 * unit,
            low,
            2 * rest,
        );
        assert(low * (2 * unit) == 2 * (low * unit)) by (nonlinear_arith);
        assert((low + 1) * (2 * unit) == 2 * ((low + 1) * unit)) by (nonlinear_arith);
    }
}

/// Rounding to a 53-bit significand commutes with powers of two.
proof fn lemma_nearest_scales(v: int, e: int)
    requires
        v >= 0,
        e >= 0,
    ensures
        nearest_53(v * pow2(e)) == nearest_53(v) * pow2(e),
    decreases e,
{
    if e == 0 {
        lemma_pow2_values();
        assert(v * 1 == v);
    } else {
        lemma_nearest_scales(v, e - 1);
        lemma_pow2_step(e - 1);
        let p = pow2(e - 1);
        assert(v * (2 * p) == 2 * (v * p)) by (nonlinear_arith);
        assert(v * p >= 0) by (nonlinear_arith)
            requires
                v >= 0,
                p > 0,
        ;
        lemma_nearest_doubles(v * p);
        let n = nearest_53(v);
        assert(n * (2 * p) == 2 * (n * p)) by (nonlinear_arith);
    }
}

proof fn lemma_excess_bound(v: int, n: int)
    requires
        0 <= v < pow2(53 + n),
        n >= 0,
    ensures
        0 <= excess_bits(v) <= n,
    decreases n,
{
    lemma_pow2_values();
    if v >= 0x20_0000_0000_0000 {
        lemma_pow2_step(52 + n);
        lemma_excess_bound(v / 2, n - 1);
    }
}

/// The nearest 53-bit number to `v`.
fn round_53(v: u128) -> (r: u128)
    requires
        v < 0x20_0000_0000_0000_0000_0000,
    ensures
        r == nearest_53(v as int),
        v >= 0x10_0000_0000_0000 ==> r >= 0x8_0000_0000_0000,
        r <= 0x40_0000_0000_0000_0000_0000,
{
    let mut rest: u128 = v;
    let mut k: u32 = 0;
    proof {
        lemma_pow2_values();
        lemma_pow2_adds(53, 32);
        assert(pow2(32) == 0x1_0000_0000) by {
            vstd::arithmetic::power2::lemma2_to64();
        }
        assert(0x20_0000_0000_0000 * 0x1_0000_0000 == 0x20_0000_0000_0000_0000_0000int)
            by (nonlinear_arith);
        lemma_excess_bound(v as int, 32);
    }
    while rest >= 0x20_0000_0000_0000
        invariant
            k + excess_bits(rest as int) == excess_bits(v as int),
            0 <= excess_bits(rest as int),
            excess_bits(v as int) <= 32,
        decreases rest,
    {
        proof {
            lemma_excess(rest as int / 2);
        }
        rest = rest / 2;
        k = k + 1;
    }
    let unit = power_of_two(k);
    let low = v / unit;
    let over = v % unit;
    proof {
        lemma_pow2_order(k as int, 32);
        vstd::arithmetic::div_mod::lemma_fundamental_div_mod(v as int, unit as int);
        assert((low + 1) * unit == low * unit + unit) by (nonlinear_arith);
        assert(low * unit == unit * low) by (nonlinear_arith);
        if v < 0x20_0000_0000_0000 {
            assert(unit == 1);
        }
    }
    if 2 * over > unit || (2 * over == unit && low % 2 == 1) {
        (low + 1) * unit
    } else {
        low * unit
    }
}

/// Cancels a common power of two from the rounding of a product to ticks.
proof fn lemma_whole(r: int, e: int, s: int)
    requires
        r >= 0,
        e >= 0,
        s >= 1,
        e + s == 1074,
    ensures
        (r * pow2(e) + pow2(1073)) / pow2(1074) == (r + pow2(s - 1)) / pow2(s),
{
    lemma_pow2_adds(e, s);
    lemma_pow2_adds(e, s - 1);
    let p = pow2(e);
    let q = pow2(s);
    let h = pow2(s - 1);
    assert(r * p + p * h == p * (r + h)) by (nonlinear_arith);
    assert(r + h >= 0);
    vstd::arithmetic::div_mod::lemma_div_denominator(p * (r + h), p, q);
    assert((p * (r + h)) / p == r + h) by {
        vstd::arithmetic::div_mod::lemma_div_multiples_vanish(r + h, p);
    }
}

/// A product of at least `2^51` whole seconds saturates.
proof fn lemma_large_product(r: int, e: int)
    requires
        r >= 0,
        e >= 1074,
    ensures
        r == 0 ==> (r * pow2(e) + pow2(1073)) / pow2(1074) == 0,
        r >= 0x8_0000_0000_0000 ==> (r * pow2(e) + pow2(1073)) / pow2(1074) > u32::MAX,
{
    lemma_pow2_adds(1074, e - 1074);
    lemma_pow2_step(1073);
    let unit = pow2(1074);
    let half = pow2(1073);
    let p = pow2(e - 1074);
    if r == 0 {
        assert(0 * pow2(e) == 0) by (nonlinear_arith);
        vstd::arithmetic::div_mod::lemma_basic_div(half, unit);
    }
    if r >= 0x8_0000_0000_0000 {
        lemma_pow2_order(0, e - 1074);
        let q = r * p;
        assert(q >= 0x8_0000_0000_0000) by (nonlinear_arith)
            requires
                q == r * p,
                r >= 0x8_0000_0000_0000,
                p >= 1,
        ;
        assert(r * (unit * p) == q * unit) by (nonlinear_arith)
            requires
                q == r * p,
        ;
        vstd::arithmetic::div_mod::lemma_fundamental_div_mod_converse(
            q * unit + half,
            unit,
            q,
            half,
        );
    }
}

impl Double {
    /// This many seconds as whole ticks, at least one.
    pub fn to_ticks(self, tick_rate: u32) -> (r: u32)
        ensures
            r == self.ticks(tick_rate),
            r >= 1,
    {
        let (negative, exponent, fraction) = self.split();
        if (exponent == 2047 && fraction != 0) || negative {
            return 1;
        }
        let significand: u64 = if exponent == 0 {
            fraction
        } else {
            0x10_0000_0000_0000 + fraction
        };
        let shift: u32 = if exponent == 0 {
            0
        } else {
            exponent as u32 - 1
        };
        let ghost m = significand as int;
        let ghost rate = tick_rate as int;
        let ghost e = shift as int;
        proof {
            lemma_magnitude(self);
            lemma_pow2_values();
            assert(0 <= m * rate < 0x20_0000_0000_0000_0000_0000) by (nonlinear_arith)
                requires
                    0 <= m < 0x20_0000_0000_0000,
                    0 <= rate < 0x1_0000_0000,
            ;
        }
        let exact: u128 = (significand as u128) * (tick_rate as u128);
        let product: u128 = round_53(exact);
        proof {
            assert(self.magnitude() == m * pow2(e)) by {
                assert(m * 1 == m);
            }
            assert((m * pow2(e)) * rate == (m * rate) * pow2(e)) by (nonlinear_arith);
            lemma_nearest_scales(m * rate, e);
        }
        if shift >= 1074 {
            proof {
                lemma_large_product(product as int, e);
                assert(rate >= 1 ==> m * rate >= 0x10_0000_0000_0000) by (nonlinear_arith)
                    requires
                        m >= 0x10_0000_0000_0000,
                ;
                assert(rate == 0 ==> m * rate == 0) by (nonlinear_arith);
            }
            if tick_rate == 0 {
                return 1;
            }
            return u32::MAX;
        }
        let drop: u32 = 1074 - shift;
        proof {
            lemma_whole(product as int, e, drop as int);
        }
        if drop > 99 {
            proof {
                lemma_pow2_order(99, drop - 1);
                lemma_pow2_step(drop - 1);
                lemma_pow2_step(99);
                assert((product + pow2(drop - 1)) / pow2(drop as int) == 0) by {
                    vstd::arithmetic::div_mod::lemma_basic_div(
                        product + pow2(drop - 1),
                        pow2(drop as int),
                    );
                }
            }
            return 1;
        }
        let half = power_of_two(drop - 1);
        let unit = power_of_two(drop);
        let whole = (product + half) / unit;
        if whole < 1 {
            1
        } else if whole > u32::MAX as u128 {
            u32::MAX
        } else {
            whole as u32
        }
    }
}

} // verus!
