use fleethub_core::anti_air::{AntiAirAnalyzer, ShipAntiAirInput};
use fleethub_core::cutin::{BattleConfig, CutinKind, CutinPatternDef};
use fleethub_core::fleet::fleet_anti_air_cutin_chance;
use fleethub_core::formation::Side;
use fleethub_core::PROB_ONE;

fn complement(ships: &[Vec<(u8, u64)>], t: u8) -> u64 {
    let one = PROB_ONE as u128;
    let mut c = one;
    for s in ships {
        let sum: u64 = s.iter().filter(|p| p.0 >= t).map(|p| p.1).sum();
        c = c * (one - sum as u128) / one;
    }
    c as u64
}

#[test]
fn two_ships_same_pattern_example() {
    let ships = vec![vec![(10, 500_000_000_000_000_000)], vec![(10, 500_000_000_000_000_000)]];
    assert_eq!(fleet_anti_air_cutin_chance(&ships), vec![(10, 750_000_000_000_000_000)]);
}

#[test]
fn fleet_mass_from_threshold() {
    let ships = vec![
        vec![(5, 200_000_000_000_000_000), (3, 400_000_000_000_000_000)],
        vec![(3, 500_000_000_000_000_000)],
        vec![(7, 100_000_000_000_000_000)],
    ];
    let r = fleet_anti_air_cutin_chance(&ships);
    assert_eq!(r, vec![(3, 540_000_000_000_000_000), (5, 180_000_000_000_000_000), (7, 100_000_000_000_000_000)]);
    for t in 0..=255u8 {
        let sum: u64 = r.iter().filter(|p| p.0 >= t).map(|p| p.1).sum();
        assert_eq!(sum, PROB_ONE - complement(&ships, t));
    }
}

#[test]
fn fleet_without_cutins() {
    let empty: Vec<Vec<(u8, u64)>> = vec![vec![], vec![]];
    assert!(fleet_anti_air_cutin_chance(&empty).is_empty());
    let none: Vec<Vec<(u8, u64)>> = vec![];
    assert!(fleet_anti_air_cutin_chance(&none).is_empty());
    let zeros = vec![vec![(4, 0), (2, 0)], vec![], vec![(9, 0)]];
    assert_eq!(fleet_anti_air_cutin_chance(&zeros), vec![(2, 0), (4, 0), (9, 0)]);
}

#[test]
fn fleet_is_deterministic() {
    let ships = vec![vec![(6, 330_000_000_000_000_000), (2, 120_000_000_000_000_000)], vec![(6, 250_000_000_000_000_000)], vec![(4, 777_777_777_000_000_000)]];
    let a = fleet_anti_air_cutin_chance(&ships);
    let b = fleet_anti_air_cutin_chance(&ships);
    assert_eq!(a, b);
    let total: u64 = a.iter().map(|p| p.1).sum();
    assert!(total <= PROB_ONE);
    assert!(a.windows(2).all(|w| w[0].0 < w[1].0));

    let config = BattleConfig {
        anti_air_cutin: vec![
            CutinPatternDef { id: 5, kind: CutinKind::Sequential { rate: 200_000_000_000_000_000 } },
            CutinPatternDef { id: 3, kind: CutinKind::Normal { cumulative_rate: 500_000_000_000_000_000 } },
        ],
    };
    let analyzer = AntiAirAnalyzer::new(&config);
    let input = vec![ShipAntiAirInput { ship_id: 1, fleet_anti_air_mod: 0, cutin_ids: vec![5, 3] }];
    let x = analyzer.analyze(&input, 1_000, Side::Player);
    let y = analyzer.analyze(&input, 1_000, Side::Player);
    assert_eq!(x.anti_air_cutin_chance, y.anti_air_cutin_chance);
    assert_eq!(x.ships[0].anti_air_cutin_chance, y.ships[0].anti_air_cutin_chance);
}

#[test]
fn fleet_single_ship_keeps_its_values() {
    let ships = vec![vec![(5, 200_000_000_000_000_000), (3, 400_000_000_000_000_000)]];
    assert_eq!(fleet_anti_air_cutin_chance(&ships), vec![(3, 400_000_000_000_000_000), (5, 200_000_000_000_000_000)]);
}

#[test]
fn fleet_certain_ship() {
    let ships = vec![vec![(200, PROB_ONE)], vec![(100, 500_000_000_000_000_000)]];
    assert_eq!(fleet_anti_air_cutin_chance(&ships), vec![(100, 0), (200, PROB_ONE)]);
    let ships = vec![vec![(255, 300_000_000_000_000_000)], vec![(0, 500_000_000_000_000_000)]];
    assert_eq!(fleet_anti_air_cutin_chance(&ships), vec![(0, 350_000_000_000_000_000), (255, 300_000_000_000_000_000)]);
}
