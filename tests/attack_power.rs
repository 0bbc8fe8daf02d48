use fleethub_core::asw::{AswAttackParams, AswAttackType, AswAttacker, AswTime, ProficiencyModifiers};
use fleethub_core::formation::{adjusted_anti_air, day_cutin_air_states, AirState, Side};
use fleethub_core::power::{accuracy_term, isqrt, softcap, AttackPowerModifier, AttackPowerParams};

#[test]
fn accuracy_floor_before_multiplication() {
    assert_eq!(accuracy_term(80_000, 39_999, 0, 0, 800, 1_000), 95_200);
    assert_ne!(accuracy_term(80_000, 39_999, 0, 0, 800, 1_000), 95_000);
    assert_eq!(accuracy_term(80_000, 39_999, 4_000, 500, 1_000, 1_200), 148_800);
}

#[test]
fn integer_square_root() {
    assert_eq!(isqrt(0), 0);
    assert_eq!(isqrt(1), 1);
    assert_eq!(isqrt(15), 3);
    assert_eq!(isqrt(16), 4);
    assert_eq!(isqrt(30_000_000), 5_477);
    assert_eq!(isqrt(u128::MAX), u64::MAX as u128);
}

#[test]
fn softcap_passes_and_compresses() {
    assert_eq!(softcap(100_000, 170_000), 100_000);
    assert_eq!(softcap(170_000, 170_000), 170_000);
    assert_eq!(softcap(200_000, 170_000), 175_477);
    assert_eq!(softcap(170_001, 170_000), 170_031);
}

#[test]
fn power_pipeline_order() {
    let params = AttackPowerParams {
        basic: 200_000,
        cap: 170_000,
        precap_mod: AttackPowerModifier::identity(),
        postcap_mod: AttackPowerModifier::identity(),
        proficiency_critical_mod: None,
    };
    let p = params.calc();
    assert_eq!((p.precap, p.capped, p.normal, p.critical), (200_000, 175_477, 175_477, 263_215));

    let params = AttackPowerParams { proficiency_critical_mod: Some(1_100), ..params };
    assert_eq!(params.calc().critical, 289_536);

    let params = AttackPowerParams {
        basic: 100_000,
        cap: 170_000,
        precap_mod: AttackPowerModifier::new(1_200, 5_000),
        postcap_mod: AttackPowerModifier::new(1_500, 0),
        proficiency_critical_mod: None,
    };
    let p = params.calc();
    assert_eq!((p.precap, p.capped, p.normal), (125_000, 125_000, 187_500));
    assert_eq!(AttackPowerModifier::new(1_200, 5_000).apply(100_000), 125_000);
}

fn attacker() -> AswAttacker {
    AswAttacker {
        is_carrier_or_oiler: false,
        proficiency_mods: ProficiencyModifiers {
            critical_power_mod: 1_100,
            hit_percentage_bonus: 5_000,
            critical_percentage_bonus: 3_000,
        },
        naked_asw: Some(64),
        equip_asw: 10,
        ebonus_asw: 2,
        ibonus_asw_power: 1_500,
        damage_power_mod: 1_000,
        asw_synergy_mod: 1_150,
        basic_accuracy_term: Some(39_999),
        equipment_accuracy_mod: 4_000,
        ibonus_asw_accuracy: 0,
        morale_accuracy_mod: 1_000,
    }
}

fn params(time: AswTime, attack_type: AswAttackType, attacker: AswAttacker) -> AswAttackParams {
    AswAttackParams {
        time,
        attack_type,
        engagement_mod: 1_000,
        formation_power_mod: 1_000,
        formation_accuracy_mod: 1_000,
        attacker,
    }
}

#[test]
fn asw_aircraft_attack() {
    let r = params(AswTime::Day, AswAttackType::Aircraft, attacker()).attack_params();
    let ap = r.attack_power_params.unwrap();
    assert_eq!(ap.basic, 43_500);
    assert_eq!(ap.cap, 170_000);
    assert_eq!(ap.precap_mod, AttackPowerModifier::new(1_150, 0));
    assert_eq!(ap.proficiency_critical_mod, Some(1_100));
    assert_eq!(r.accuracy_term, Some(123_000));
    assert_eq!(r.critical_rate_constant, 1_100);
    assert_eq!((r.hit_percentage_bonus, r.critical_percentage_bonus), (5_000, 3_000));
}

#[test]
fn asw_proficiency_absent() {
    let r = params(AswTime::Day, AswAttackType::DepthCharge, attacker()).attack_params();
    let ap = r.attack_power_params.unwrap();
    assert_eq!(ap.basic, 48_500);
    assert_eq!(ap.proficiency_critical_mod, None);
    assert_eq!((r.hit_percentage_bonus, r.critical_percentage_bonus), (0, 0));

    let r = params(AswTime::Opening, AswAttackType::Aircraft, attacker()).attack_params();
    assert_eq!(r.attack_power_params.unwrap().proficiency_critical_mod, None);

    let carrier = AswAttacker { is_carrier_or_oiler: true, ..attacker() };
    let r = params(AswTime::Night, AswAttackType::Aircraft, carrier).attack_params();
    assert_eq!(r.attack_power_params.unwrap().proficiency_critical_mod, None);
    assert_eq!(r.hit_percentage_bonus, 0);
}

#[test]
fn asw_missing_inputs_are_absent() {
    let a = AswAttacker { naked_asw: None, basic_accuracy_term: None, ..attacker() };
    let r = params(AswTime::Day, AswAttackType::Aircraft, a).attack_params();
    assert!(r.attack_power_params.is_none());
    assert!(r.accuracy_term.is_none());
}

#[test]
fn asw_small_helpers() {
    assert_eq!(AswAttackType::DepthCharge.type_constant(), 13_000);
    assert_eq!(AswAttackType::Aircraft.type_constant(), 8_000);
    assert!(AswTime::Opening.is_opening());
    assert!(!AswTime::Day.is_opening());
}

#[test]
fn fleet_anti_air_by_side() {
    let c = vec![10_500, 20_300, 5_200];
    assert_eq!(adjusted_anti_air(&c, 1_200, Side::Player), 33_076);
    assert_eq!(adjusted_anti_air(&c, 1_200, Side::Enemy), 43_000);
    assert_eq!(adjusted_anti_air(&vec![], 1_000, Side::Player), 0);
    assert!(Side::Player.is_player());
    assert!(!Side::Enemy.is_player());
}

#[test]
fn historical_params_default_is_neutral() {
    let h = fleethub_core::formation::HistoricalParams::default();
    assert_eq!((h.power_mod, h.accuracy_mod, h.target_evasion_mod), (1_000, 1_000, 1_000));
    let f = fleethub_core::formation::FormationParams { power_mod: 1_000, accuracy_mod: 1_200, target_evasion_mod: 800 };
    assert_eq!(f.accuracy_mod, 1_200);
}

#[test]
fn day_cutin_air_states_by_side() {
    assert_eq!(day_cutin_air_states(Side::Player), [AirState::AirSupremacy, AirState::AirSuperiority]);
    assert_eq!(day_cutin_air_states(Side::Enemy), [AirState::AirDenial, AirState::AirIncapability]);
}

#[test]
fn asw_large_modifiers() {
    let a = AswAttacker { damage_power_mod: 65_535, asw_synergy_mod: 65_535, ..attacker() };
    let p = AswAttackParams { engagement_mod: 65_535, formation_power_mod: 65_535, ..params(AswTime::Day, AswAttackType::Aircraft, a) };
    let r = p.attack_params();
    assert_eq!(r.attack_power_params.unwrap().precap_mod.a, 18_445_617_216);
    assert_eq!(r.accuracy_term, Some(123_000));
}
