//! Anti-submarine attack parameters.
use vstd::prelude::*;

use crate::power::{
    accuracy_term, accuracy_term_spec, is_isqrt, isqrt, AttackPowerModifier, AttackPowerParams,
};

verus! {

/// The power cap of anti-submarine attacks, in thousandths.
pub const ASW_POWER_CAP: u32 = 170000;

/// The accuracy constant of anti-submarine attacks, in thousandths.
pub const ASW_ACCURACY_CONSTANT: u32 = 80000;

/// The critical rate constant of anti-submarine attacks, in thousandths.
pub const ASW_CRITICAL_RATE_CONSTANT: u32 = 1100;

#[derive(Debug, Clone, Copy, PartialEq, Eq, Structural)]
pub enum AswAttackType {
    DepthCharge,
    Aircraft,
}

pub open spec fn type_constant_spec(t: AswAttackType) -> int {
    match t {
        AswAttackType::DepthCharge => 13000,
        AswAttackType::Aircraft => 8000,
    }
}

impl AswAttackType {
    /// The constant that the attack type adds to basic power, in thousandths.
    pub fn type_constant(&self) -> (r: u32)
        ensures
            r == type_constant_spec(*self),
    {
        match self {
            AswAttackType::DepthCharge => 13000,
            AswAttackType::Aircraft => 8000,
        }
    }
}

#[derive(Debug, Clone, Copy, PartialEq, Eq, Structural)]
pub enum AswTime {
    Opening,
    Day,
    Night,
}

impl AswTime {
    pub fn is_opening(&self) -> (r: bool)
        ensures
            r == (*self is Opening),
    {
        matches!(self, AswTime::Opening)
    }
}

/// The aircraft proficiency modifiers of an attacker.
#[derive(Debug, Clone, Copy, PartialEq, Eq, Structural)]
pub struct ProficiencyModifiers {
    /// In thousandths.
    pub critical_power_mod: u16,
    /// In thousandths of a percentage point.
    pub hit_percentage_bonus: u32,
    /// In thousandths of a percentage point.
    pub critical_percentage_bonus: u32,
}

/// What the anti-submarine formula reads from the attacking ship. Modifiers
/// and bonuses are in thousandths, stats in whole points.
#[derive(Debug, Clone, Copy, PartialEq, Eq, Structural)]
pub struct AswAttacker {
    /// The ship is a carrier, an armored carrier or an oiler.
    pub is_carrier_or_oiler: bool,
    pub proficiency_mods: ProficiencyModifiers,
    /// The ship's own anti-submarine stat, where it is known.
    pub naked_asw: Option<u16>,
    /// The anti-submarine stat of the equipped anti-submarine weapons.
    pub equip_asw: u16,
    /// The equipment bonus to the anti-submarine stat.
    pub ebonus_asw: u16,
    /// The improvement bonus to anti-submarine power.
    pub ibonus_asw_power: u16,
    pub damage_power_mod: u16,
    pub asw_synergy_mod: u16,
    /// The basic accuracy term, where it is known.
    pub basic_accuracy_term: Option<u32>,
    /// The accuracy bonus of sonars and depth charges.
    pub equipment_accuracy_mod: u32,
    /// The improvement bonus to anti-submarine accuracy.
    pub ibonus_asw_accuracy: u32,
    pub morale_accuracy_mod: u32,
}

/// An anti-submarine attack in its battle context. Modifiers in thousandths.
#[derive(Debug, Clone, Copy, PartialEq, Eq, Structural)]
pub struct AswAttackParams {
    pub time: AswTime,
    pub attack_type: AswAttackType,
    pub engagement_mod: u16,
    pub formation_power_mod: u16,
    pub formation_accuracy_mod: u32,
    pub attacker: AswAttacker,
}

/// The parameters of an anti-submarine attack. A term whose input is not
/// known is absent.
#[derive(Debug, Clone, Copy, PartialEq, Eq, Structural)]
pub struct AswAttack {
    pub attack_power_params: Option<AttackPowerParams>,
    /// In thousandths.
    pub accuracy_term: Option<u128>,
    pub critical_rate_constant: u32,
    pub hit_percentage_bonus: u32,
    pub critical_percentage_bonus: u32,
}

/// Proficiency applies outside the opening phase, to ships other than
/// carriers and oilers, and to attacks other than depth charges.
pub open spec fn proficiency_applies(p: AswAttackParams) -> bool {
    !(p.time is Opening) && !p.attacker.is_carrier_or_oiler && !(p.attack_type is DepthCharge)
}

/// The pre-cap multiplier: damage, formation, engagement and synergy
/// modifiers multiplied in that order, each product rounded down to a
/// thousandth.
pub open spec fn asw_precap_mult(p: AswAttackParams) -> int {
    p.attacker.damage_power_mod * p.formation_power_mod / 1000int * p.engagement_mod / 1000int * p.attacker.asw_synergy_mod / 1000int
}

/// `basic` is the basic anti-submarine power of `p` for an attacker with
/// anti-submarine stat `naked`: twice its square root, plus one and a half
/// times the equipment stat and bonus, plus the improvement bonus and the
/// type constant. In thousandths.
pub open spec fn is_asw_basic_power(p: AswAttackParams, naked: int, basic: int) -> bool {
    exists|s: int|
        #[trigger] is_isqrt(naked * 1000000, s) && basic == 2 * s + (p.attacker.equip_asw + p.attacker.ebonus_asw) * 1500
            + p.attacker.ibonus_asw_power + type_constant_spec(p.attack_type)
}

impl AswAttackParams {
    pub fn attack_params(&self) -> (r: AswAttack)
        ensures
            r.attack_power_params is None <==> self.attacker.naked_asw is None,
            r.attack_power_params matches Some(ap) ==> {
                &&& is_asw_basic_power(*self, self.attacker.naked_asw->0 as int, ap.basic as int)
                &&& ap.cap == ASW_POWER_CAP
                &&& ap.precap_mod.a == asw_precap_mult(*self)
                &&& ap.precap_mod.b == 0
                &&& ap.postcap_mod.a == 1000
                &&& ap.postcap_mod.b == 0
                &&& ap.proficiency_critical_mod == if proficiency_applies(*self) {
                    Some(self.attacker.proficiency_mods.critical_power_mod)
                } else {
                    None
                }
            },
            r.accuracy_term == match self.attacker.basic_accuracy_term {
                Some(b) => Some(accuracy_term_spec(
                    ASW_ACCURACY_CONSTANT as int,
                    b as int,
                    self.attacker.equipment_accuracy_mod as int,
                    self.attacker.ibonus_asw_accuracy as int,
                    self.formation_accuracy_mod as int,
                    self.attacker.morale_accuracy_mod as int,
                ) as u128),
                None => None,
            },
            r.critical_rate_constant == ASW_CRITICAL_RATE_CONSTANT,
            r.hit_percentage_bonus == if proficiency_applies(*self) {
                self.attacker.proficiency_mods.hit_percentage_bonus
            } else {
                0
            },
            r.critical_percentage_bonus == if proficiency_applies(*self) {
                self.attacker.proficiency_mods.critical_percentage_bonus
            } else {
                0
            },
    {
        let attacker = &self.attacker;
        let proficiency_mods: Option<ProficiencyModifiers> = if self.time.is_opening() {
            None
        } else if attacker.is_carrier_or_oiler {
            None
        } else if self.attack_type == AswAttackType::DepthCharge {
            None
        } else {
            Some(attacker.proficiency_mods)
        };

        let attack_power_params = match attacker.naked_asw {
            None => None,
            Some(naked) => {
                let root = isqrt(naked as u128 * 1000000);
                assert(root < 256000) by (nonlinear_arith)
                    requires
                        root * root <= naked * 1000000,
                        naked < 65536,
                        root >= 0,
                ;
                let basic: u32 = 2 * root as u32 + (attacker.equip_asw as u32 + attacker.ebonus_asw as u32) * 1500
                    + attacker.ibonus_asw_power as u32 + self.attack_type.type_constant();
                let d: u64 = attacker.damage_power_mod as u64;
                let f: u64 = self.formation_power_mod as u64;
                let e: u64 = self.engagement_mod as u64;
                assert(d * f <= 65535 * 65535) by (nonlinear_arith)
                    requires
                        d <= 65535,
                        f <= 65535,
                ;
                let m1: u64 = d * f / 1000;
                assert(m1 * e <= 65535 * 65535 * 65535) by (nonlinear_arith)
                    requires
                        m1 <= 65535 * 65535,
                        e <= 65535,
                ;
                let m2: u64 = m1 * e / 1000;
                let sy: u64 = attacker.asw_synergy_mod as u64;
                assert(m2 * sy <= u64::MAX) by (nonlinear_arith)
                    requires
                        m2 <= 65535 * 65535 * 65535,
                        sy <= 65535,
                ;
                let a14: u64 = m2 * sy / 1000;
                Some(AttackPowerParams {
                    basic,
                    cap: ASW_POWER_CAP,
                    precap_mod: AttackPowerModifier::new(a14, 0),
                    postcap_mod: AttackPowerModifier::identity(),
                    proficiency_critical_mod: match proficiency_mods {
                        Some(m) => Some(m.critical_power_mod),
                        None => None,
                    },
                })
            },
        };

        let accuracy = match attacker.basic_accuracy_term {
            None => None,
            Some(b) => Some(
                accuracy_term(
                    ASW_ACCURACY_CONSTANT,
                    b,
                    attacker.equipment_accuracy_mod,
                    attacker.ibonus_asw_accuracy,
                    self.formation_accuracy_mod,
                    attacker.morale_accuracy_mod,
                ),
            ),
        };

        let (hit_percentage_bonus, critical_percentage_bonus) = match proficiency_mods {
            Some(m) => (m.hit_percentage_bonus, m.critical_percentage_bonus),
            None => (0, 0),
        };

        AswAttack {
            attack_power_params,
            accuracy_term: accuracy,
            critical_rate_constant: ASW_CRITICAL_RATE_CONSTANT,
            hit_percentage_bonus,
            critical_percentage_bonus,
        }
    }
}

} // verus!
