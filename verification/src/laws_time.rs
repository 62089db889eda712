//! Durations in ticks and chances per tick.

use crate::config::SimulationConfig;
use crate::double::Double;
use crate::rules::World;
use vstd::prelude::*;

verus! {

// ---------------------------------------------------------------------------
// Numbers
// ---------------------------------------------------------------------------

/// The number that a bit pattern stands for, in units of two to the power -1074:
/// a sign, eleven bits of exponent and 52 bits of fraction.
pub proof fn law_bit_patterns(sign: u64, e: u64, f: u64)
    requires
        sign < 2,
        e < 2048,
        f < 0x10_0000_0000_0000,
    ensures
        ({
            let bits = sign * 0x8000_0000_0000_0000 + e * 0x10_0000_0000_0000 + f;
            let d = Double { bits: bits as u64 };
            let size = if e == 0 {
                f as int
            } else {
                (0x10_0000_0000_0000 + f) * vstd::arithmetic::power2::pow2((e - 1) as nat)
            };
            &&& bits <= u64::MAX
            &&& d.is_nan() <==> e == 2047 && f != 0
            &&& d.negative() <==> sign == 1
            &&& d.magnitude() == size
            &&& d.scaled() == (if sign == 1 {
                -size
            } else {
                size
            })
        }),
{
    let bits = (sign * 0x8000_0000_0000_0000 + e * 0x10_0000_0000_0000 + f) as u64;
    assert(bits / 0x10_0000_0000_0000 == sign * 2048 + e);
    assert(bits % 0x10_0000_0000_0000 == f);
    assert((sign * 2048 + e) % 2048 == e);
}

/// Comparisons with zero and one: nothing that is not a number passes one.
pub proof fn law_comparisons(d: Double)
    ensures
        d.not_positive() <==> !d.is_nan() && d.scaled() <= 0,
        d.in_unit_interval() <==> !d.is_nan() && d.scaled() > 0 && d.scaled()
            <= vstd::arithmetic::power2::pow2(1074),
{
}

/// A roll of 64 bits resolves a move if and only if its upper 53 bits, as a
/// fraction of one, lie below the chance.
pub proof fn law_rolls(chance: Double, roll: u64)
    ensures
        World::roll_succeeds(chance, roll) <==> !chance.is_nan() && (roll / 2048)
            * vstd::arithmetic::power2::pow2(1021) < chance.scaled(),
{
}

// ---------------------------------------------------------------------------
// Ticks
// ---------------------------------------------------------------------------

/// `p` is `v` rounded to 53 significant bits: a whole number `m` of units, where
/// the unit is the power of two that leaves 53 bits; no more than half a unit
/// away; and where two are equally near, the even one.
pub open spec fn rounded(v: int, p: int, k: nat, m: int) -> bool {
    let unit = vstd::arithmetic::power2::pow2(k) as int;
    &&& p == m * unit
    &&& 2 * (p - v) <= unit
    &&& 2 * (v - p) <= unit
    &&& 2 * (p - v) == unit || 2 * (v - p) == unit ==> m % 2 == 0
    &&& v < 0x20_0000_0000_0000 * unit
    &&& k > 0 ==> v >= 0x10_0000_0000_0000 * unit
}

proof fn lemma_excess_fits(v: int)
    requires
        v >= 0,
    ensures
        ({
            let k = crate::double::excess_bits(v);
            let unit = vstd::arithmetic::power2::pow2(k as nat) as int;
            &&& k >= 0
            &&& v < 0x20_0000_0000_0000 * unit
            &&& k > 0 ==> v >= 0x10_0000_0000_0000 * unit
        }),
    decreases v,
{
    vstd::arithmetic::power2::lemma2_to64();
    if v >= 0x20_0000_0000_0000 {
        lemma_excess_fits(v / 2);
        let k = crate::double::excess_bits(v);
        vstd::arithmetic::power2::lemma_pow2_unfold(k as nat);
    }
}

proof fn lemma_rounded(v: int)
    requires
        v >= 0,
    ensures
        exists|k: nat, m: int| rounded(v, crate::double::nearest_53(v), k, m),
        crate::double::nearest_53(v) >= 0,
{
    let k = crate::double::excess_bits(v);
    lemma_excess_fits(v);
    let unit = crate::double::pow2(k);
    vstd::arithmetic::power2::lemma_pow2_pos(k as nat);
    vstd::arithmetic::power2::lemma2_to64();
    let low = v / unit;
    let rest = v % unit;
    vstd::arithmetic::div_mod::lemma_fundamental_div_mod(v, unit);
    vstd::arithmetic::div_mod::lemma_mod_bound(v, unit);
    vstd::arithmetic::div_mod::lemma_div_pos_is_pos(v, unit);
    assert(unit * low == low * unit) by (nonlinear_arith);
    assert((low + 1) * unit == low * unit + unit) by (nonlinear_arith);
    assert(low * unit >= 0) by (nonlinear_arith)
        requires
            low >= 0,
            unit > 0,
    ;
    let m = if 2 * rest > unit || (2 * rest == unit && low % 2 == 1) {
        low + 1
    } else {
        low
    };
    assert(rounded(v, crate::double::nearest_53(v), k as nat, m));
}

pub proof fn lemma_ticks_range(d: Double, tick_rate: u32)
    ensures
        1 <= d.ticks(tick_rate) <= u32::MAX,
{
}

/// A duration in ticks: the product with the tick rate, rounded to double
/// precision and then to the nearest whole number, halves up; at least one, and
/// at most what 32 bits hold. What is negative, or no number, takes one tick.
pub proof fn law_durations(d: Double, tick_rate: u32)
    ensures
        1 <= d.ticks(tick_rate) <= u32::MAX,
        d.is_nan() || d.negative() ==> d.ticks(tick_rate) == 1,
        !d.is_nan() && !d.negative() ==> exists|p: int, k: nat, m: int, whole: int|
            #![trigger rounded(d.magnitude() * tick_rate, p, k, m), in_ticks(p, whole)]
            rounded(d.magnitude() * tick_rate, p, k, m) && in_ticks(p, whole) && d.ticks(tick_rate)
                == (if whole < 1 {
                1
            } else if whole > u32::MAX {
                u32::MAX as int
            } else {
                whole
            }),
{
    if !d.is_nan() && !d.negative() {
        let v = d.magnitude() * tick_rate;
        lemma_magnitude_sign(d);
        assert(v >= 0) by (nonlinear_arith)
            requires
                v == d.magnitude() * tick_rate,
                d.magnitude() >= 0,
                tick_rate >= 0,
        ;
        lemma_rounded(v);
        let p = crate::double::nearest_53(v);
        let (k, m) = choose|k: nat, m: int| rounded(v, p, k, m);
        let unit = crate::double::pow2(1074);
        let half = crate::double::pow2(1073);
        vstd::arithmetic::power2::lemma_pow2_unfold(1074);
        vstd::arithmetic::power2::lemma_pow2_pos(1073);
        let whole = (p + half) / unit;
        vstd::arithmetic::div_mod::lemma_fundamental_div_mod(p + half, unit);
        vstd::arithmetic::div_mod::lemma_mod_bound(p + half, unit);
        assert(unit * whole == whole * unit) by (nonlinear_arith);
        assert(in_ticks(p, whole));
        assert(rounded(v, p, k, m));
    }
}

/// `whole` is the whole number nearest to `p` in units of two to the power
/// -1074, halves up.
pub open spec fn in_ticks(p: int, whole: int) -> bool {
    let unit = vstd::arithmetic::power2::pow2(1074) as int;
    &&& 2 * (whole * unit) <= 2 * p + unit
    &&& 2 * p + unit < 2 * (whole * unit) + 2 * unit
}

proof fn lemma_magnitude_sign(d: Double)
    ensures
        d.magnitude() >= 0,
{
    if d.exponent() > 0 {
        let p = crate::double::pow2(d.exponent() - 1);
        let m = 0x10_0000_0000_0000 + d.fraction();
        assert(m * p >= 0) by (nonlinear_arith)
            requires
                m >= 0,
                p >= 0,
        ;
    }
}

/// Hits and shots lie their own cooldowns apart, and a match ends after its own
/// timeout, each as a duration in ticks.
pub proof fn law_cooldowns_and_timeout(cfg: SimulationConfig)
    ensures
        cfg.melee_ticks() == cfg.melee_cooldown_secs.ticks(cfg.tick_rate),
        cfg.artillery_ticks() == cfg.artillery_cooldown_secs.ticks(cfg.tick_rate),
        cfg.timeout_ticks() == cfg.match_timeout_secs.ticks(cfg.tick_rate),
{
    lemma_ticks_range(cfg.melee_cooldown_secs, cfg.tick_rate);
    lemma_ticks_range(cfg.artillery_cooldown_secs, cfg.tick_rate);
    lemma_ticks_range(cfg.match_timeout_secs, cfg.tick_rate);
}

} // verus!
