//! The power-cap evaluator and the accuracy term.
//!
//! Power, accuracy and modifiers are counted in thousandths (`UNIT`).
use vstd::prelude::*;

use crate::UNIT;

verus! {

/// `r` is the integer square root of `n`.
pub open spec fn is_isqrt(n: int, r: int) -> bool {
    0 <= r && r * r <= n < (r + 1) * (r + 1)
}

/// The integer square root: the largest `r` with `r * r <= n`.
pub fn isqrt(n: u128) -> (r: u128)
    ensures
        is_isqrt(n as int, r as int),
{
    let mut lo: u128 = 0;
    let mut hi: u128 = 0x1_0000_0000_0000_0000;
    assert(n < hi * hi) by (nonlinear_arith)
        requires
            hi == 0x1_0000_0000_0000_0000u128,
            n <= u128::MAX,
    ;
    while lo + 1 < hi
        invariant
            lo < hi <= 0x1_0000_0000_0000_0000u128,
            lo * lo <= n,
            n < hi * hi,
        decreases hi - lo,
    {
        let mid: u128 = lo + (hi - lo) / 2;
        assert(mid * mid <= u128::MAX) by (nonlinear_arith)
            requires
                mid < 0x1_0000_0000_0000_0000u128,
        ;
        if mid * mid <= n {
            lo = mid;
        } else {
            hi = mid;
        }
    }
    lo
}

/// A modifier `x * a + b`, both parts in thousandths.
#[derive(Debug, Clone, Copy, PartialEq, Eq, Structural)]
pub struct AttackPowerModifier {
    pub a: u64,
    pub b: u32,
}

/// `x * a + b` in thousandths, rounded down.
pub open spec fn apply_mod(x: int, m: AttackPowerModifier) -> int {
    x * m.a / UNIT as int + m.b
}

impl AttackPowerModifier {
    pub fn new(a: u64, b: u32) -> (r: Self)
        ensures
            r.a == a,
            r.b == b,
    {
        Self { a, b }
    }

    /// The modifier that changes nothing.
    pub fn identity() -> (r: Self)
        ensures
            r.a == UNIT,
            r.b == 0,
            forall|x: int| apply_mod(x, r) == x,
    {
        Self { a: 1000, b: 0 }
    }

    /// The modifier applied to `x`; `x * a` must fit in 127 bits.
    pub fn apply(&self, x: u128) -> (r: u128)
        requires
            x * self.a < 0x8000_0000_0000_0000_0000_0000_0000_0000u128,
        ensures
            r == apply_mod(x as int, *self),
    {
        let p: u128 = x * (self.a as u128);
        assert(p / 1000 <= p) by (nonlinear_arith)
            requires
                p >= 0,
        ;
        p / 1000 + (self.b as u128)
    }
}

/// `r` is `v` after the soft cap `cap`: unchanged up to the cap, and above it
/// the cap plus the square root of the excess (in thousandths).
pub open spec fn is_softcapped(v: int, cap: int, r: int) -> bool {
    if v <= cap {
        r == v
    } else {
        is_isqrt((v - cap) * UNIT, r - cap)
    }
}

/// The soft cap: values at or below `cap` pass through; above it the excess
/// is compressed by a square root.
pub fn softcap(v: u128, cap: u32) -> (r: u128)
    requires
        v < 0x1_0000_0000_0000_0000_0000_0000u128,
    ensures
        is_softcapped(v as int, cap as int, r as int),
        r <= v + 1000,
{
    if v <= cap as u128 {
        v
    } else {
        let excess: u128 = (v - cap as u128) * 1000;
        let s = isqrt(excess);
        assert(s <= (v - cap) || s <= 1000) by (nonlinear_arith)
            requires
                s * s <= excess,
                excess == (v - cap) * 1000,
                v > cap,
                s >= 0,
        ;
        cap as u128 + s
    }
}

/// The critical hit multiplier, in thousandths.
pub const CRITICAL_POWER_MOD: u32 = 1500;

/// The inputs of the power-cap evaluator.
#[derive(Debug, Clone, Copy, PartialEq, Eq, Structural)]
pub struct AttackPowerParams {
    pub basic: u32,
    pub cap: u32,
    pub precap_mod: AttackPowerModifier,
    pub postcap_mod: AttackPowerModifier,
    /// The critical power modifier of aircraft proficiency, absent where
    /// proficiency does not apply.
    pub proficiency_critical_mod: Option<u16>,
}

/// The resolved power of an attack, in thousandths.
#[derive(Debug, Clone, Copy, PartialEq, Eq, Structural)]
pub struct AttackPower {
    pub precap: u128,
    pub capped: u128,
    pub normal: u128,
    pub critical: u128,
}

/// `p` is the power that `params` resolve to: the pre-cap modifier, then the
/// soft cap, then the post-cap modifier; a critical hit multiplies by
/// `CRITICAL_POWER_MOD` and then by the proficiency modifier where there is
/// one.
pub open spec fn resolves_to(params: AttackPowerParams, p: AttackPower) -> bool {
    &&& p.precap == apply_mod(params.basic as int, params.precap_mod)
    &&& is_softcapped(p.precap as int, params.cap as int, p.capped as int)
    &&& p.normal == apply_mod(p.capped as int, params.postcap_mod)
    &&& p.critical == match params.proficiency_critical_mod {
        Some(m) => p.normal * CRITICAL_POWER_MOD / UNIT as int * m / UNIT as int,
        None => p.normal * CRITICAL_POWER_MOD / UNIT as int,
    }
}

impl AttackPowerParams {
    /// Runs the power pipeline in its fixed order.
    pub fn calc(&self) -> (r: AttackPower)
        requires
            // keeps every stage within u128
            self.postcap_mod.a <= u32::MAX,
        ensures
            resolves_to(*self, r),
    {
        assert(self.basic * self.precap_mod.a < 0x1_0000_0000_0000_0000_0000_0000u128) by (nonlinear_arith)
            requires
                0 <= self.basic < 0x1_0000_0000u128,
                0 <= self.precap_mod.a < 0x1_0000_0000_0000_0000u128,
        ;
        let precap = self.precap_mod.apply(self.basic as u128);
        assert(precap < 0x80_0000_0000_0000_0000_0000u128) by (nonlinear_arith)
            requires
                precap == self.basic * self.precap_mod.a / 1000 + self.precap_mod.b,
                0 <= self.basic * self.precap_mod.a < 0x1_0000_0000_0000_0000_0000_0000u128,
                0 <= self.precap_mod.b < 0x1_0000_0000u128,
        ;
        let capped = softcap(precap, self.cap);
        assert(capped * self.postcap_mod.a < 0x80_0000_0000_0000_0000_0000_0000_0000u128) by (nonlinear_arith)
            requires
                0 <= capped <= precap + 1000,
                precap < 0x80_0000_0000_0000_0000_0000u128,
                0 <= self.postcap_mod.a < 0x1_0000_0000u128,
        ;
        let normal = self.postcap_mod.apply(capped);
        assert(normal < 0x4000_0000_0000_0000_0000_0000_0000u128) by (nonlinear_arith)
            requires
                normal == capped * self.postcap_mod.a / 1000 + self.postcap_mod.b,
                0 <= capped * self.postcap_mod.a < 0x80_0000_0000_0000_0000_0000_0000_0000u128,
                0 <= self.postcap_mod.b < 0x1_0000_0000u128,
        ;
        let scaled: u128 = normal * 1500;
        let base: u128 = scaled / 1000;
        assert(base < 0x8000_0000_0000_0000_0000_0000_0000u128) by (nonlinear_arith)
            requires
                base == scaled / 1000,
                scaled == normal * 1500,
                0 <= normal < 0x4000_0000_0000_0000_0000_0000_0000u128,
        ;
        let critical: u128 = match self.proficiency_critical_mod {
            Some(m) => {
                assert(base * (m as u128) < 0x8000_0000_0000_0000_0000_0000_0000_0000u128) by (nonlinear_arith)
                    requires
                        0 <= base < 0x8000_0000_0000_0000_0000_0000_0000u128,
                        0 <= m < 0x1_0000u128,
                ;
                base * (m as u128) / 1000
            },
            None => base,
        };
        AttackPower { precap, capped, normal, critical }
    }
}

/// The accuracy term: the sum of the constant and the accuracy terms,
/// rounded down to a whole number before the formation and morale modifiers
/// multiply it. All in thousandths.
pub open spec fn accuracy_term_spec(constant: int, basic: int, equipment: int, improvement: int, formation_mod: int, morale_mod: int) -> int {
    (constant + basic + equipment + improvement) / UNIT as int * formation_mod * morale_mod / UNIT as int
}

/// The accuracy term, with the floor taken before the multiplication.
pub fn accuracy_term(constant: u32, basic: u32, equipment: u32, improvement: u32, formation_mod: u32, morale_mod: u32) -> (r: u128)
    ensures
        r == accuracy_term_spec(constant as int, basic as int, equipment as int, improvement as int, formation_mod as int, morale_mod as int),
{
    let sum: u128 = constant as u128 + basic as u128 + equipment as u128 + improvement as u128;
    let whole: u128 = sum / 1000;
    assert(whole <= sum) by (nonlinear_arith)
        requires
            whole == sum / 1000,
            sum >= 0,
    ;
    assert(whole * (formation_mod as u128) < 0x4_0000_0000_0000_0000u128) by (nonlinear_arith)
        requires
            0 <= whole < 0x4_0000_0000u128,
            0 <= formation_mod < 0x1_0000_0000u128,
    ;
    assert(whole * (formation_mod as u128) * (morale_mod as u128) <= u128::MAX) by (nonlinear_arith)
        requires
            0 <= whole < 0x4_0000_0000u128,
            0 <= formation_mod < 0x1_0000_0000u128,
            0 <= morale_mod < 0x1_0000_0000u128,
            formation_mod < 0x1_0000_0000u128,
            morale_mod < 0x1_0000_0000u128,
    ;
    whole * (formation_mod as u128) * (morale_mod as u128) / 1000
}

} // verus!
