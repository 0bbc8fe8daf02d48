use fleethub_core::anti_air::{AntiAirAnalyzer, CompAntiAirInfo, ShipAntiAirInput};
use fleethub_core::cutin::{BattleConfig, CutinKind, CutinPatternDef};
use fleethub_core::formation::Side;
use fleethub_core::PROB_ONE;

fn seq_def(id: u8, rate: u64) -> CutinPatternDef {
    CutinPatternDef { id, kind: CutinKind::Sequential { rate } }
}

fn normal_def(id: u8, cumulative_rate: u64) -> CutinPatternDef {
    CutinPatternDef { id, kind: CutinKind::Normal { cumulative_rate } }
}

fn config(defs: Vec<CutinPatternDef>) -> BattleConfig {
    BattleConfig { anti_air_cutin: defs }
}

#[test]
fn sequential_then_normal_example() {
    let config = config(vec![seq_def(5, 200_000_000_000_000_000), normal_def(3, 500_000_000_000_000_000)]);
    let analyzer = AntiAirAnalyzer::new(&config);
    let r = analyzer.ship_anti_air_cutin_chance(&vec![5, 3]);
    assert_eq!(r, vec![(5, 200_000_000_000_000_000), (3, 400_000_000_000_000_000)]);
}

#[test]
fn first_sequential_realizes_raw_rate() {
    let config = config(vec![normal_def(2, 300_000_000_000_000_000), seq_def(9, 650_000_000_000_000_000), seq_def(8, 400_000_000_000_000_000)]);
    let analyzer = AntiAirAnalyzer::new(&config);
    let r = analyzer.ship_anti_air_cutin_chance(&vec![2, 9, 8]);
    assert_eq!(r[0], (9, 650_000_000_000_000_000));
    // the second draws on what the first left: 0.35 * 0.4
    assert_eq!(r[1], (8, 140_000_000_000_000_000));
    // the normal pattern is scaled by what the sequential ones left: 0.21 * 0.3
    assert_eq!(r[2], (2, 63_000_000_000_000_000));
}

#[test]
fn normal_below_prior_realizes_zero() {
    let config = config(vec![normal_def(2, 500_000_000_000_000_000), normal_def(3, 300_000_000_000_000_000), normal_def(4, 700_000_000_000_000_000)]);
    let analyzer = AntiAirAnalyzer::new(&config);
    let r = analyzer.ship_anti_air_cutin_chance(&vec![2, 3, 4]);
    assert_eq!(r, vec![(2, 500_000_000_000_000_000), (3, 0), (4, 200_000_000_000_000_000)]);
}

#[test]
fn ship_total_at_most_certainty() {
    let config = config(vec![seq_def(5, 500_000_000_000_000_000), seq_def(4, 500_000_000_000_000_000), normal_def(3, 600_000_000_000_000_000)]);
    let analyzer = AntiAirAnalyzer::new(&config);
    let r = analyzer.ship_anti_air_cutin_chance(&vec![5, 4, 3]);
    assert_eq!(r, vec![(5, 500_000_000_000_000_000), (4, 250_000_000_000_000_000), (3, 150_000_000_000_000_000)]);
    let total: u64 = r.iter().map(|p| p.1).sum();
    assert!(total <= PROB_ONE);

    let config = config_full_rates();
    let analyzer = AntiAirAnalyzer::new(&config);
    let r = analyzer.ship_anti_air_cutin_chance(&vec![1, 2, 3]);
    let total: u64 = r.iter().map(|p| p.1).sum();
    assert_eq!(r, vec![(1, PROB_ONE), (2, 0), (3, 0)]);
    assert!(total <= PROB_ONE);
}

fn config_full_rates() -> BattleConfig {
    config(vec![seq_def(1, PROB_ONE), seq_def(2, PROB_ONE), normal_def(3, PROB_ONE)])
}

#[test]
fn unknown_ids_are_left_out() {
    let config = config(vec![normal_def(7, 400_000_000_000_000_000)]);
    let analyzer = AntiAirAnalyzer::new(&config);
    assert_eq!(analyzer.ship_anti_air_cutin_chance(&vec![1, 7, 200]), vec![(7, 400_000_000_000_000_000)]);
    assert_eq!(analyzer.ship_anti_air_cutin_chance(&vec![]), vec![]);
}

#[test]
fn find_aaci_takes_first_match() {
    let config = config(vec![normal_def(7, 400_000_000_000_000_000), seq_def(7, 100_000_000_000_000_000), seq_def(9, 1)]);
    let analyzer = AntiAirAnalyzer::new(&config);
    assert_eq!(analyzer.find_aaci(7), Some(&normal_def(7, 400_000_000_000_000_000)));
    assert_eq!(analyzer.find_aaci(9), Some(&seq_def(9, 1)));
    assert_eq!(analyzer.find_aaci(8), None);
}

#[test]
fn pattern_accessors() {
    assert!(seq_def(1, 5).is_sequential());
    assert!(!normal_def(1, 5).is_sequential());
    assert_eq!(seq_def(1, 5).rate(), 5);
    assert_eq!(normal_def(1, 6).rate(), 6);
}

#[test]
fn analyze_joins_both_passes() {
    let config = config(vec![seq_def(5, 200_000_000_000_000_000), normal_def(3, 500_000_000_000_000_000), normal_def(10, 500_000_000_000_000_000)]);
    let analyzer = AntiAirAnalyzer::new(&config);
    let ships = vec![
        ShipAntiAirInput { ship_id: 101, fleet_anti_air_mod: 10_500, cutin_ids: vec![5, 3] },
        ShipAntiAirInput { ship_id: 102, fleet_anti_air_mod: 25_500, cutin_ids: vec![] },
    ];
    let info = analyzer.analyze(&ships, 1_200, Side::Enemy);
    assert_eq!(info.ships.len(), 2);
    assert_eq!(info.ships[0].ship_id, 101);
    assert_eq!(info.ships[0].anti_air_cutin_chance, vec![(5, 200_000_000_000_000_000), (3, 400_000_000_000_000_000)]);
    assert_eq!(info.ships[1].ship_id, 102);
    assert!(info.ships[1].anti_air_cutin_chance.is_empty());
    assert_eq!(info.anti_air_cutin_chance, vec![(3, 400_000_000_000_000_000), (5, 200_000_000_000_000_000)]);
    assert_eq!(info.fleet_anti_air, 43_000);
}

#[test]
fn tiny_sequential_rates_add_up() {
    // two draws of 1e-9 each: 1 - (1 - 1e-9)^2 is just under 2e-9
    let config = config(vec![seq_def(2, 1_000_000_000), seq_def(1, 1_000_000_000)]);
    let analyzer = AntiAirAnalyzer::new(&config);
    let r = analyzer.ship_anti_air_cutin_chance(&vec![2, 1]);
    assert_eq!(r, vec![(2, 1_000_000_000), (1, 999_999_999)]);
    let exact = 1.0 - (1.0 - 1e-9f64) * (1.0 - 1e-9f64);
    let sum = (r[0].1 + r[1].1) as f64 / PROB_ONE as f64;
    assert!((sum - exact).abs() <= 1e-12);
}

#[test]
fn comp_anti_air_info_new_matches_analyze() {
    let config = config(vec![seq_def(5, 200_000_000_000_000_000), normal_def(3, 500_000_000_000_000_000)]);
    let ships = vec![
        ShipAntiAirInput { ship_id: 7, fleet_anti_air_mod: 36_000, cutin_ids: vec![5, 3] },
        ShipAntiAirInput { ship_id: 8, fleet_anti_air_mod: 0, cutin_ids: vec![5] },
    ];
    let info = CompAntiAirInfo::new(&config, &ships, 1_200, Side::Player);
    assert_eq!(info.fleet_anti_air, 33_076);
    assert_eq!(info.ships[1].anti_air_cutin_chance, vec![(5, 200_000_000_000_000_000)]);
    // id 5: 1 - 0.8 * 0.8; id 3: what remains up to 1 - 0.4 * 0.8
    assert_eq!(info.anti_air_cutin_chance, vec![(3, 320_000_000_000_000_000), (5, 360_000_000_000_000_000)]);
}
