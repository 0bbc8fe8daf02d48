//! The anti-air cutin analyzer: table lookup, the per-ship pass and the
//! fleet-wide aggregation.
use vstd::prelude::*;

use crate::cutin::{
    candidate_defs, find_def, lemma_find_def_wf, lemma_normal_pass_bounds, lemma_realized_bounds,
    lemma_sequential_pass_bounds, normal_pass, realize, sequential_pass, total, BattleConfig,
    CutinKind, CutinPatternDef,
};
use crate::fleet::{fleet_anti_air_cutin_chance, is_fleet_distribution, ship_views};
use crate::formation::{adjusted_anti_air, adjusted_anti_air_spec, Side};
use crate::PROB_ONE;

verus! {

/// One ship as the anti-air analysis reads it.
pub struct ShipAntiAirInput {
    pub ship_id: u16,
    /// The ship's contribution to fleet anti-air, in thousandths.
    pub fleet_anti_air_mod: u32,
    /// The ids of the anti-air cutins that the ship can trigger, in the order
    /// in which they are tried.
    pub cutin_ids: Vec<u8>,
}

/// The anti-air cutin analysis of one ship.
pub struct ShipAntiAirInfo {
    pub ship_id: u16,
    pub anti_air_cutin_chance: Vec<(u8, u64)>,
}

/// The anti-air analysis of a fleet.
pub struct CompAntiAirInfo {
    /// In thousandths.
    pub fleet_anti_air: u128,
    pub ships: Vec<ShipAntiAirInfo>,
    pub anti_air_cutin_chance: Vec<(u8, u64)>,
}

/// The realized lists of the analysis, one for each ship.
pub open spec fn realized_lists(ships: Seq<ShipAntiAirInfo>) -> Seq<Seq<(u8, u64)>> {
    ships.map_values(|s: ShipAntiAirInfo| s.anti_air_cutin_chance@)
}

pub open spec fn contributions(ships: Seq<ShipAntiAirInput>) -> Seq<u32> {
    ships.map_values(|s: ShipAntiAirInput| s.fleet_anti_air_mod)
}

fn copy_pairs(v: &Vec<(u8, u64)>) -> (r: Vec<(u8, u64)>)
    ensures
        r@ == v@,
{
    let mut r: Vec<(u8, u64)> = Vec::new();
    let mut i: usize = 0;
    while i < v.len()
        invariant
            i <= v@.len(),
            r@ == v@.take(i as int),
        decreases v@.len() - i,
    {
        r.push(v[i]);
        i = i + 1;
        proof {
            assert(r@ =~= v@.take(i as int));
        }
    }
    proof {
        assert(v@.take(v@.len() as int) =~= v@);
    }
    r
}

/// Reads the cutin table of a battle configuration.
pub struct AntiAirAnalyzer<'a> {
    config: &'a BattleConfig,
}

proof fn lemma_find_def_step(t: Seq<CutinPatternDef>, i: int, id: u8)
    requires
        0 <= i < t.len(),
        t[i].id != id,
    ensures
        find_def(t.subrange(i, t.len() as int), id) == find_def(t.subrange(i + 1, t.len() as int), id),
{
    assert(t.subrange(i, t.len() as int).drop_first() =~= t.subrange(i + 1, t.len() as int));
}

impl<'a> AntiAirAnalyzer<'a> {
    pub closed spec fn table(&self) -> Seq<CutinPatternDef> {
        self.config.anti_air_cutin@
    }

    pub closed spec fn wf(&self) -> bool {
        self.config.wf()
    }

    pub fn new(config: &'a BattleConfig) -> (r: Self)
        ensures
            r.table() == config.anti_air_cutin@,
            r.wf() == config.wf(),
    {
        Self { config }
    }

    /// The first pattern of the table with the given id.
    pub fn find_aaci(&self, id: u8) -> (r: Option<&CutinPatternDef>)
        ensures
            match r {
                Some(d) => find_def(self.table(), id) == Some(*d),
                None => find_def(self.table(), id) is None,
            },
    {
        let t = &self.config.anti_air_cutin;
        let mut i: usize = 0;
        assert(t@.subrange(0, t@.len() as int) =~= t@);
        while i < t.len()
            invariant
                i <= t@.len(),
                t@ == self.table(),
                find_def(t@, id) == find_def(t@.subrange(i as int, t@.len() as int), id),
            decreases t@.len() - i,
        {
            if t[i].id == id {
                return Some(&t[i]);
            }
            proof {
                lemma_find_def_step(t@, i as int, id);
            }
            i = i + 1;
        }
        None
    }

    /// The realized probability of each pattern that the candidate ids of one
    /// ship name: the sequential patterns in candidate order, each drawing on
    /// what the earlier ones left, then the normal ones.
    pub fn ship_anti_air_cutin_chance(&self, candidate_ids: &Vec<u8>) -> (r: Vec<(u8, u64)>)
        requires
            self.wf(),
        ensures
            r@ == realize(candidate_defs(self.table(), candidate_ids@)),
            total(r@) <= PROB_ONE,
            forall|i: int| 0 <= i < r@.len() ==> (#[trigger] r@[i]).1 <= PROB_ONE,
    {
        let ghost table = self.table();
        let mut defs: Vec<CutinPatternDef> = Vec::new();
        let mut sequential: Vec<(u8, u64)> = Vec::new();
        let mut consumed: u64 = 0;
        let mut i: usize = 0;
        while i < candidate_ids.len()
            invariant
                i <= candidate_ids@.len(),
                self.wf(),
                table == self.table(),
                defs@ == candidate_defs(table, candidate_ids@.take(i as int)),
                forall|j: int| 0 <= j < defs@.len() ==> #[trigger] defs@[j].wf(),
                sequential@ == sequential_pass(defs@).0,
                consumed as int == sequential_pass(defs@).1,
            decreases candidate_ids@.len() - i,
        {
            proof {
                lemma_sequential_pass_bounds(defs@);
                assert(candidate_ids@.take(i as int + 1).drop_last() =~= candidate_ids@.take(i as int));
            }
            let found = self.find_aaci(candidate_ids[i]);
            if let Some(d) = found {
                proof {
                    lemma_find_def_wf(table, candidate_ids@[i as int]);
                }
                let ghost pre = defs@;
                defs.push(*d);
                proof {
                    assert(defs@.drop_last() =~= pre);
                }
                if let CutinKind::Sequential { rate } = d.kind {
                    assert((PROB_ONE - consumed) * rate <= PROB_ONE * PROB_ONE) by (nonlinear_arith)
                        requires
                            consumed <= PROB_ONE,
                            rate <= PROB_ONE,
                    ;
                    let scaled: u128 = (PROB_ONE - consumed) as u128 * rate as u128 / PROB_ONE as u128;
                    let realized: u64 = if scaled < PROB_ONE as u128 { scaled as u64 } else { PROB_ONE };
                    sequential.push((d.id, realized));
                    consumed = consumed + realized;
                }
            } else {
                proof {
                    assert(candidate_defs(table, candidate_ids@.take(i as int + 1)) == defs@);
                }
            }
            i = i + 1;
        }
        proof {
            assert(candidate_ids@.take(candidate_ids@.len() as int) =~= candidate_ids@);
            lemma_sequential_pass_bounds(defs@);
        }
        let mut normal: Vec<(u8, u64)> = Vec::new();
        let mut prev: u64 = 0;
        let mut j: usize = 0;
        while j < defs.len()
            invariant
                j <= defs@.len(),
                forall|k: int| 0 <= k < defs@.len() ==> #[trigger] defs@[k].wf(),
                consumed <= PROB_ONE,
                normal@ == normal_pass(defs@.take(j as int), consumed as int).0,
                prev as int == normal_pass(defs@.take(j as int), consumed as int).1,
            decreases defs@.len() - j,
        {
            let ghost pre = defs@.take(j as int);
            proof {
                assert(defs@.take(j as int + 1).drop_last() =~= pre);
                assert forall|k: int| 0 <= k < pre.len() implies #[trigger] pre[k].wf() by {
                    assert(pre[k] == defs@[k]);
                }
                lemma_normal_pass_bounds(pre, consumed as int);
            }
            let d = defs[j];
            assert(d.wf());
            if let CutinKind::Normal { cumulative_rate } = d.kind {
                if cumulative_rate < prev {
                    normal.push((d.id, 0));
                } else {
                    let step: u64 = cumulative_rate - prev;
                    assert((PROB_ONE - consumed) * step <= PROB_ONE * PROB_ONE) by (nonlinear_arith)
                        requires
                            consumed <= PROB_ONE,
                            step <= PROB_ONE,
                    ;
                    let realized: u64 = if consumed > 0 {
                        let scaled: u128 = (PROB_ONE - consumed) as u128 * step as u128 / PROB_ONE as u128;
                        assert(scaled <= step) by (nonlinear_arith)
                            requires
                                scaled == (PROB_ONE - consumed) * step / PROB_ONE as int,
                                consumed <= PROB_ONE,
                                step >= 0,
                        ;
                        scaled as u64
                    } else {
                        step
                    };
                    normal.push((d.id, realized));
                    prev = cumulative_rate;
                }
            }
            j = j + 1;
        }
        proof {
            assert(defs@.take(defs@.len() as int) =~= defs@);
            lemma_realized_bounds(defs@);
        }
        let mut r = sequential;
        let mut normal = normal;
        r.append(&mut normal);
        r
    }

    /// The anti-air analysis of a fleet: each ship's realized cutin
    /// probabilities (all ships first), then their fleet-wide distribution,
    /// and the fleet anti-air value.
    pub fn analyze(&self, ships: &Vec<ShipAntiAirInput>, formation_mod: u32, side: Side) -> (r: CompAntiAirInfo)
        requires
            self.wf(),
        ensures
            r.ships@.len() == ships@.len(),
            forall|i: int| 0 <= i < ships@.len() ==> {
                &&& (#[trigger] r.ships@[i]).ship_id == ships@[i].ship_id
                &&& r.ships@[i].anti_air_cutin_chance@ == realize(candidate_defs(self.table(), ships@[i].cutin_ids@))
            },
            is_fleet_distribution(realized_lists(r.ships@), r.anti_air_cutin_chance@),
            forall|k: int| 0 <= k < r.anti_air_cutin_chance@.len() ==> (#[trigger] r.anti_air_cutin_chance@[k]).1 <= PROB_ONE,
            r.fleet_anti_air == adjusted_anti_air_spec(contributions(ships@), formation_mod as int, side),
    {
        let mut infos: Vec<ShipAntiAirInfo> = Vec::new();
        let mut lists: Vec<Vec<(u8, u64)>> = Vec::new();
        let mut contribs: Vec<u32> = Vec::new();
        let mut i: usize = 0;
        while i < ships.len()
            invariant
                i <= ships@.len(),
                self.wf(),
                infos@.len() == i,
                lists@.len() == i,
                contribs@ == contributions(ships@).take(i as int),
                forall|k: int| 0 <= k < i ==> {
                    &&& (#[trigger] infos@[k]).ship_id == ships@[k].ship_id
                    &&& infos@[k].anti_air_cutin_chance@ == realize(candidate_defs(self.table(), ships@[k].cutin_ids@))
                    &&& lists@[k]@ == infos@[k].anti_air_cutin_chance@
                    &&& total(lists@[k]@) <= PROB_ONE
                },
            decreases ships@.len() - i,
        {
            let ship = &ships[i];
            let chance = self.ship_anti_air_cutin_chance(&ship.cutin_ids);
            lists.push(copy_pairs(&chance));
            infos.push(ShipAntiAirInfo { ship_id: ship.ship_id, anti_air_cutin_chance: chance });
            contribs.push(ship.fleet_anti_air_mod);
            proof {
                assert(contribs@ =~= contributions(ships@).take(i as int + 1));
            }
            i = i + 1;
        }
        proof {
            assert(contribs@ =~= contributions(ships@));
            assert(ship_views(lists@) =~= realized_lists(infos@));
            assert forall|k: int| 0 <= k < ship_views(lists@).len() implies total(#[trigger] ship_views(lists@)[k]) <= PROB_ONE by {
                assert(ship_views(lists@)[k] == lists@[k]@);
            }
        }
        let anti_air_cutin_chance = fleet_anti_air_cutin_chance(&lists);
        let fleet_anti_air = adjusted_anti_air(&contribs, formation_mod, side);
        CompAntiAirInfo { fleet_anti_air, ships: infos, anti_air_cutin_chance }
    }
}

impl CompAntiAirInfo {
    /// The anti-air analysis of a fleet under the cutin table of `config`.
    pub fn new(config: &BattleConfig, ships: &Vec<ShipAntiAirInput>, formation_mod: u32, side: Side) -> (r: CompAntiAirInfo)
        requires
            config.wf(),
        ensures
            r.ships@.len() == ships@.len(),
            forall|i: int| 0 <= i < ships@.len() ==> {
                &&& (#[trigger] r.ships@[i]).ship_id == ships@[i].ship_id
                &&& r.ships@[i].anti_air_cutin_chance@ == realize(candidate_defs(config.anti_air_cutin@, ships@[i].cutin_ids@))
            },
            is_fleet_distribution(realized_lists(r.ships@), r.anti_air_cutin_chance@),
            forall|k: int| 0 <= k < r.anti_air_cutin_chance@.len() ==> (#[trigger] r.anti_air_cutin_chance@[k]).1 <= PROB_ONE,
            r.fleet_anti_air == adjusted_anti_air_spec(contributions(ships@), formation_mod as int, side),
    {
        AntiAirAnalyzer::new(config).analyze(ships, formation_mod, side)
    }
}

} // verus!
