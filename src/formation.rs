//! Fleet anti-air, as the formation and organization side determine it.
use vstd::prelude::*;

verus! {

#[derive(Debug, Clone, Copy, PartialEq, Eq, Structural)]
pub enum Side {
    Player,
    Enemy,
}

impl Side {
    pub fn is_player(&self) -> (r: bool)
        ensures
            r == (*self is Player),
    {
        matches!(self, Side::Player)
    }
}

/// The state of air control.
#[derive(Debug, Clone, Copy, PartialEq, Eq, Structural)]
pub enum AirState {
    AirSupremacy,
    AirSuperiority,
    AirParity,
    AirDenial,
    AirIncapability,
}

/// The two air states under which a side's day cutins are analyzed: air
/// supremacy and air superiority for the player, air denial and air
/// incapability for the enemy.
pub fn day_cutin_air_states(side: Side) -> (r: [AirState; 2])
    ensures
        side is Player ==> r@ == seq![AirState::AirSupremacy, AirState::AirSuperiority],
        side is Enemy ==> r@ == seq![AirState::AirDenial, AirState::AirIncapability],
{
    let r = if side.is_player() {
        [AirState::AirSupremacy, AirState::AirSuperiority]
    } else {
        [AirState::AirDenial, AirState::AirIncapability]
    };
    assert(r@ =~= if side is Player {
        seq![AirState::AirSupremacy, AirState::AirSuperiority]
    } else {
        seq![AirState::AirDenial, AirState::AirIncapability]
    });
    r
}

/// The power, accuracy and target evasion multipliers of a formation, in
/// thousandths.
#[derive(Debug, Clone, Copy, PartialEq, Eq, Structural)]
pub struct FormationParams {
    pub power_mod: u32,
    pub accuracy_mod: u32,
    pub target_evasion_mod: u32,
}

/// The power, accuracy and target evasion multipliers of a historical
/// bonus, in thousandths.
#[derive(Debug, Clone, Copy, PartialEq, Eq, Structural)]
pub struct HistoricalParams {
    pub power_mod: u32,
    pub accuracy_mod: u32,
    pub target_evasion_mod: u32,
}

impl Default for HistoricalParams {
    /// No bonus: every multiplier is 1.
    fn default() -> (r: Self)
        ensures
            r.power_mod == 1000,
            r.accuracy_mod == 1000,
            r.target_evasion_mod == 1000,
    {
        HistoricalParams { power_mod: 1000, accuracy_mod: 1000, target_evasion_mod: 1000 }
    }
}

pub open spec fn seq_sum(s: Seq<u32>) -> int
    decreases s.len(),
{
    if s.len() == 0 {
        0
    } else {
        seq_sum(s.drop_last()) + s.last()
    }
}

/// The fleet anti-air value, in thousandths: the members' contributions
/// summed, multiplied by the formation modifier and rounded down to a whole
/// number; on the player side that is then divided by 1.3 (rounded down to a
/// thousandth).
pub open spec fn adjusted_anti_air_spec(contributions: Seq<u32>, formation_mod: int, side: Side) -> int {
    let post_floor = seq_sum(contributions) * formation_mod / 1000000int;
    match side {
        Side::Player => post_floor * 10000 / 13,
        Side::Enemy => post_floor * 1000,
    }
}

/// The fleet anti-air value from the members' contributions and the
/// formation modifier, both in thousandths.
pub fn adjusted_anti_air(contributions: &Vec<u32>, formation_mod: u32, side: Side) -> (r: u128)
    ensures
        r == adjusted_anti_air_spec(contributions@, formation_mod as int, side),
{
    let mut total: u128 = 0;
    let mut i: usize = 0;
    while i < contributions.len()
        invariant
            i <= contributions@.len(),
            total == seq_sum(contributions@.take(i as int)),
            total <= i * 0xffff_ffffu128,
        decreases contributions@.len() - i,
    {
        proof {
            assert(contributions@.take(i as int + 1).drop_last() =~= contributions@.take(i as int));
        }
        assert(i < 0x1_0000_0000_0000_0000u128);
        total = total + contributions[i] as u128;
        i = i + 1;
    }
    proof {
        assert(contributions@.take(contributions@.len() as int) =~= contributions@);
    }
    assert(total * (formation_mod as u128) <= u128::MAX) by (nonlinear_arith)
        requires
            0 <= total <= 0xffff_ffff_ffff_ffffu128 * 0xffff_ffffu128,
            0 <= formation_mod <= 0xffff_ffffu128,
    ;
    let post_floor: u128 = total * (formation_mod as u128) / 1000000;
    if side.is_player() {
        post_floor * 10000 / 13
    } else {
        post_floor * 1000
    }
}

} // verus!
