//! Fleet-wide aggregation of per-ship cutin realizations.
//!
//! Ships are taken as independent. For a pattern id `t`, `complement` is the
//! probability that no ship triggers any pattern with an id of `t` or more;
//! the fleet probability of `t` is the probability that `t` is the highest id
//! triggered anywhere in the fleet.
use vstd::prelude::*;

use crate::cutin::{lemma_total_append, total};
use crate::PROB_ONE;

verus! {

/// The per-ship lists as sequences.
pub open spec fn ship_views(ships: Seq<Vec<(u8, u64)>>) -> Seq<Seq<(u8, u64)>> {
    ships.map_values(|v: Vec<(u8, u64)>| v@)
}

/// Each ship realizes at most certainty in all.
pub open spec fn valid_ships(ships: Seq<Seq<(u8, u64)>>) -> bool {
    forall|i: int| 0 <= i < ships.len() ==> total(#[trigger] ships[i]) <= PROB_ONE
}

/// The sum of a ship's realized probabilities for ids of `t` or more.
pub open spec fn sum_from(s: Seq<(u8, u64)>, t: int) -> int
    decreases s.len(),
{
    if s.len() == 0 {
        0
    } else {
        sum_from(s.drop_last(), t) + if s.last().0 >= t { s.last().1 as int } else { 0 }
    }
}

/// The product over ships of `1 - sum_from(ship, t)`, multiplied in ship
/// order and rounded down to a unit of 10^-18 after each factor.
pub open spec fn complement(ships: Seq<Seq<(u8, u64)>>, t: int) -> int
    decreases ships.len(),
{
    if ships.len() == 0 {
        PROB_ONE as int
    } else {
        complement(ships.drop_last(), t) * (PROB_ONE - sum_from(ships.last(), t)) / PROB_ONE as int
    }
}

/// Some ship realizes a pattern with id `t`.
pub open spec fn present(ships: Seq<Seq<(u8, u64)>>, t: int) -> bool {
    exists|i: int, j: int| 0 <= i < ships.len() && 0 <= j < ships[i].len() && #[trigger] ships[i][j].0 == t
}

/// The complement of the next higher id of the distribution, or certainty
/// after the highest one.
pub open spec fn upper(ships: Seq<Seq<(u8, u64)>>, out: Seq<(u8, u64)>, k: int) -> int {
    if k + 1 < out.len() {
        complement(ships, out[k + 1].0 as int)
    } else {
        PROB_ONE as int
    }
}

/// `out` is the fleet distribution of `ships`: one entry for each id that
/// some ship realizes, in ascending order of id, each with the probability
/// that it is the highest id triggered in the fleet. That is what remains of
/// certainty once the mass of the higher ids and the complement of the id
/// are taken away: `upper - complement`.
pub open spec fn is_fleet_distribution(ships: Seq<Seq<(u8, u64)>>, out: Seq<(u8, u64)>) -> bool {
    &&& forall|i: int, j: int| 0 <= i < j < out.len() ==> out[i].0 < out[j].0
    &&& forall|k: int| 0 <= k < out.len() ==> present(ships, #[trigger] out[k].0 as int)
    &&& forall|u: u8| present(ships, u as int) ==> exists|k: int| 0 <= k < out.len() && #[trigger] out[k].0 == u
    &&& forall|k: int| 0 <= k < out.len() ==> (#[trigger] out[k]).1 == upper(ships, out, k) - complement(ships, out[k].0 as int)
}

proof fn lemma_valid_ships_take(ships: Seq<Seq<(u8, u64)>>, n: int)
    requires
        valid_ships(ships),
        0 <= n <= ships.len(),
    ensures
        valid_ships(ships.take(n)),
{
    assert forall|i: int| 0 <= i < ships.take(n).len() implies total(#[trigger] ships.take(n)[i]) <= PROB_ONE by {
        assert(ships.take(n)[i] == ships[i]);
    }
}

proof fn lemma_total_nonneg(s: Seq<(u8, u64)>)
    ensures
        total(s) >= 0,
    decreases s.len(),
{
    if s.len() > 0 {
        lemma_total_nonneg(s.drop_last());
    }
}

proof fn lemma_total_prefix(s: Seq<(u8, u64)>, i: int)
    requires
        0 <= i <= s.len(),
    ensures
        total(s.take(i)) <= total(s),
{
    lemma_total_append(s.take(i), s.skip(i));
    assert(s.take(i) + s.skip(i) =~= s);
    lemma_total_nonneg(s.skip(i));
}

proof fn lemma_sum_from_bounds(s: Seq<(u8, u64)>, t: int)
    ensures
        0 <= sum_from(s, t) <= total(s),
    decreases s.len(),
{
    if s.len() > 0 {
        lemma_sum_from_bounds(s.drop_last(), t);
    }
}

proof fn lemma_sum_from_mono(s: Seq<(u8, u64)>, t1: int, t2: int)
    requires
        t1 <= t2,
    ensures
        sum_from(s, t2) <= sum_from(s, t1),
    decreases s.len(),
{
    if s.len() > 0 {
        lemma_sum_from_mono(s.drop_last(), t1, t2);
    }
}

/// Where a ship realizes no id in `[t1, t2)`, its sums from `t1` and from
/// `t2` agree.
proof fn lemma_sum_from_gap(s: Seq<(u8, u64)>, t1: int, t2: int)
    requires
        t1 <= t2,
        forall|j: int| 0 <= j < s.len() ==> !(t1 <= #[trigger] s[j].0 < t2),
    ensures
        sum_from(s, t1) == sum_from(s, t2),
    decreases s.len(),
{
    if s.len() > 0 {
        let pre = s.drop_last();
        assert forall|j: int| 0 <= j < pre.len() implies !(t1 <= #[trigger] pre[j].0 < t2) by {
            assert(pre[j] == s[j]);
        }
        lemma_sum_from_gap(pre, t1, t2);
        assert(!(t1 <= s[s.len() - 1].0 < t2));
    }
}

proof fn lemma_complement_bounds(ships: Seq<Seq<(u8, u64)>>, t: int)
    requires
        valid_ships(ships),
    ensures
        0 <= complement(ships, t) <= PROB_ONE,
    decreases ships.len(),
{
    if ships.len() > 0 {
        let pre = ships.drop_last();
        lemma_valid_ships_take(ships, ships.len() - 1);
        assert(pre =~= ships.take(ships.len() - 1));
        lemma_complement_bounds(pre, t);
        let c = complement(pre, t);
        assert(total(ships[ships.len() - 1]) <= PROB_ONE);
        lemma_sum_from_bounds(ships.last(), t);
        let f = PROB_ONE - sum_from(ships.last(), t);
        assert(0 <= c * f / PROB_ONE as int <= PROB_ONE) by (nonlinear_arith)
            requires
                0 <= c <= PROB_ONE,
                0 <= f <= PROB_ONE,
        ;
    }
}

/// The complement does not grow as the threshold falls.
proof fn lemma_complement_mono(ships: Seq<Seq<(u8, u64)>>, t1: int, t2: int)
    requires
        valid_ships(ships),
        t1 <= t2,
    ensures
        complement(ships, t1) <= complement(ships, t2),
    decreases ships.len(),
{
    if ships.len() > 0 {
        let pre = ships.drop_last();
        lemma_valid_ships_take(ships, ships.len() - 1);
        assert(pre =~= ships.take(ships.len() - 1));
        lemma_complement_mono(pre, t1, t2);
        lemma_complement_bounds(pre, t1);
        lemma_complement_bounds(pre, t2);
        let s = ships.last();
        assert(total(ships[ships.len() - 1]) <= PROB_ONE);
        lemma_sum_from_bounds(s, t1);
        lemma_sum_from_bounds(s, t2);
        lemma_sum_from_mono(s, t1, t2);
        let c1 = complement(pre, t1);
        let c2 = complement(pre, t2);
        let f1 = PROB_ONE - sum_from(s, t1);
        let f2 = PROB_ONE - sum_from(s, t2);
        assert(c1 * f1 <= c2 * f2) by (nonlinear_arith)
            requires
                0 <= c1 <= c2,
                0 <= f1 <= f2,
        ;
        assert(c1 * f1 / PROB_ONE as int <= c2 * f2 / PROB_ONE as int) by (nonlinear_arith)
            requires
                c1 * f1 <= c2 * f2,
        ;
    }
}

/// The sum of a ship's probabilities for ids of `t` or more.
fn ship_sum_from(s: &Vec<(u8, u64)>, t: u8) -> (r: u64)
    requires
        total(s@) <= PROB_ONE,
    ensures
        r == sum_from(s@, t as int),
{
    let mut acc: u64 = 0;
    let mut i: usize = 0;
    while i < s.len()
        invariant
            i <= s@.len(),
            total(s@) <= PROB_ONE,
            acc == sum_from(s@.take(i as int), t as int),
        decreases s@.len() - i,
    {
        proof {
            assert(s@.take(i as int + 1).drop_last() =~= s@.take(i as int));
            lemma_sum_from_bounds(s@.take(i as int + 1), t as int);
            lemma_total_prefix(s@, i as int + 1);
        }
        if s[i].0 >= t {
            acc = acc + s[i].1;
        }
        i = i + 1;
    }
    proof {
        assert(s@.take(s@.len() as int) =~= s@);
    }
    acc
}

/// The fleet complement at `t`.
fn complement_at(ships: &Vec<Vec<(u8, u64)>>, t: u8) -> (r: u64)
    requires
        valid_ships(ship_views(ships@)),
    ensures
        r == complement(ship_views(ships@), t as int),
{
    let ghost all = ship_views(ships@);
    let mut c: u64 = PROB_ONE;
    let mut i: usize = 0;
    while i < ships.len()
        invariant
            i <= ships@.len(),
            all == ship_views(ships@),
            valid_ships(all),
            c == complement(all.take(i as int), t as int),
        decreases ships@.len() - i,
    {
        let ghost pre = all.take(i as int);
        proof {
            assert(all.take(i as int + 1).drop_last() =~= pre);
            lemma_valid_ships_take(all, i as int);
            lemma_complement_bounds(pre, t as int);
            assert(all[i as int] == ships@[i as int]@);
            assert(total(all[i as int]) <= PROB_ONE);
        }
        let s = ship_sum_from(&ships[i], t);
        proof {
            lemma_sum_from_bounds(ships@[i as int]@, t as int);
        }
        let f: u64 = PROB_ONE - s;
        assert(c * f <= PROB_ONE * PROB_ONE) by (nonlinear_arith)
            requires
                c <= PROB_ONE,
                f <= PROB_ONE,
        ;
        c = (c as u128 * f as u128 / PROB_ONE as u128) as u64;
        proof {
            assert(all.take(i as int + 1).last() == all[i as int]);
        }
        i = i + 1;
    }
    proof {
        assert(all.take(ships@.len() as int) =~= all);
    }
    c
}

/// Whether some ship realizes a pattern with id `t`.
fn present_at(ships: &Vec<Vec<(u8, u64)>>, t: u8) -> (r: bool)
    ensures
        r == present(ship_views(ships@), t as int),
{
    let ghost all = ship_views(ships@);
    let mut i: usize = 0;
    while i < ships.len()
        invariant
            i <= ships@.len(),
            all == ship_views(ships@),
            forall|a: int, b: int| 0 <= a < i && 0 <= b < all[a].len() ==> #[trigger] all[a][b].0 != t,
        decreases ships@.len() - i,
    {
        let s = &ships[i];
        assert(all[i as int] == s@);
        let mut j: usize = 0;
        while j < s.len()
            invariant
                j <= s@.len(),
                i < ships@.len(),
                all == ship_views(ships@),
                all[i as int] == s@,
                forall|a: int, b: int| 0 <= a < i && 0 <= b < all[a].len() ==> #[trigger] all[a][b].0 != t,
                forall|b: int| 0 <= b < j ==> #[trigger] s@[b].0 != t,
            decreases s@.len() - j,
        {
            if s[j].0 == t {
                assert(all[i as int][j as int].0 == t);
                return true;
            }
            j = j + 1;
        }
        proof {
            assert forall|a: int, b: int| 0 <= a <= i && 0 <= b < all[a].len() implies #[trigger] all[a][b].0 != t by {
                if a == i {
                    assert(all[a][b] == s@[b]);
                }
            }
        }
        i = i + 1;
    }
    false
}

/// The fleet distribution of the per-ship realizations: for each id that
/// some ship realizes, from the highest down, the fleet probability is what
/// remains of certainty after the mass assigned to higher ids and the
/// complement of the id. Ships that realize nothing count as a factor of 1.
pub fn fleet_anti_air_cutin_chance(ships: &Vec<Vec<(u8, u64)>>) -> (r: Vec<(u8, u64)>)
    requires
        valid_ships(ship_views(ships@)),
    ensures
        is_fleet_distribution(ship_views(ships@), r@),
        forall|k: int| 0 <= k < r@.len() ==> (#[trigger] r@[k]).1 <= PROB_ONE,
{
    let ghost all = ship_views(ships@);
    let mut out: Vec<(u8, u64)> = Vec::new();
    let mut mass: u64 = 0;
    let mut t: u16 = 256;
    while t > 0
        invariant
            t <= 256,
            all == ship_views(ships@),
            valid_ships(all),
            forall|i: int, j: int| 0 <= i < j < out@.len() ==> out@[i].0 < out@[j].0,
            forall|k: int| 0 <= k < out@.len() ==> (#[trigger] out@[k]).0 >= t && present(all, out@[k].0 as int),
            forall|u: u8| t <= u && present(all, u as int) ==> exists|k: int| 0 <= k < out@.len() && #[trigger] out@[k].0 == u,
            forall|k: int| 0 <= k < out@.len() ==> (#[trigger] out@[k]).1 == upper(all, out@, k) - complement(all, out@[k].0 as int),
            forall|k: int| 0 <= k < out@.len() ==> (#[trigger] out@[k]).1 <= PROB_ONE,
            mass == PROB_ONE - upper(all, seq![(0u8, 0u64)] + out@, 0),
        decreases t,
    {
        t = t - 1;
        let id = t as u8;
        if present_at(ships, id) {
            let c = complement_at(ships, id);
            let ghost old_out = out@;
            proof {
                lemma_complement_bounds(all, id as int);
                if old_out.len() > 0 {
                    lemma_complement_mono(all, id as int, old_out[0].0 as int);
                    lemma_complement_bounds(all, old_out[0].0 as int);
                }
            }
            let realized: u64 = PROB_ONE - (mass + c);
            out.insert(0, (id, realized));
            mass = mass + realized;
            proof {
                let n = out@;
                assert(n =~= seq![(id, realized)] + old_out);
                assert forall|k: int| 1 <= k < n.len() implies upper(all, n, k) == upper(all, old_out, k - 1) by {
                    assert(n[k] == old_out[k - 1]);
                    if k + 1 < n.len() {
                        assert(n[k + 1] == old_out[k]);
                    }
                }
                assert forall|k: int| 0 <= k < n.len() implies (#[trigger] n[k]).0 >= t && present(all, n[k].0 as int) by {
                    if k > 0 {
                        assert(n[k] == old_out[k - 1]);
                    }
                }
                assert forall|k: int| 0 <= k < n.len() implies (#[trigger] n[k]).1 == upper(all, n, k) - complement(all, n[k].0 as int) && n[k].1 <= PROB_ONE by {
                    if k > 0 {
                        assert(n[k] == old_out[k - 1]);
                    }
                }
                assert forall|u: u8| t <= u && present(all, u as int) implies exists|k: int| 0 <= k < n.len() && #[trigger] n[k].0 == u by {
                    if u == id {
                        assert(n[0].0 == u);
                    } else {
                        let k = choose|k: int| 0 <= k < old_out.len() && #[trigger] old_out[k].0 == u;
                        assert(n[k + 1].0 == u);
                    }
                }
                assert((seq![(0u8, 0u64)] + n)[1] == n[0]);
                assert((seq![(0u8, 0u64)] + old_out).len() == old_out.len() + 1);
                if old_out.len() > 0 {
                    assert((seq![(0u8, 0u64)] + old_out)[1] == old_out[0]);
                }
            }
        } else {
            proof {
                assert forall|u: u8| t <= u && present(all, u as int) implies exists|k: int| 0 <= k < out@.len() && #[trigger] out@[k].0 == u by {
                    assert(u != t);
                }
            }
        }
    }
    proof {
        assert forall|u: u8| present(all, u as int) implies exists|k: int| 0 <= k < out@.len() && #[trigger] out@[k].0 == u by {
            assert(t <= u);
        }
    }
    out
}

} // verus!

verus! {

proof fn lemma_total_single(x: (u8, u64))
    ensures
        total(seq![x]) == x.1,
{
    assert(seq![x].drop_last() =~= Seq::<(u8, u64)>::empty());
    assert(total(seq![x].drop_last()) == 0);
}

/// The fleet probabilities from position `k` on sum to what remains of
/// certainty after the complement at `out[k]`.
proof fn lemma_suffix_total(ships: Seq<Seq<(u8, u64)>>, out: Seq<(u8, u64)>, k: int)
    requires
        is_fleet_distribution(ships, out),
        0 <= k <= out.len(),
    ensures
        total(out.subrange(k, out.len() as int)) == if k < out.len() {
            PROB_ONE - complement(ships, out[k].0 as int)
        } else {
            0
        },
    decreases out.len() - k,
{
    if k < out.len() {
        lemma_suffix_total(ships, out, k + 1);
        let rest = out.subrange(k + 1, out.len() as int);
        assert(out.subrange(k, out.len() as int) =~= seq![out[k]] + rest);
        lemma_total_append(seq![out[k]], rest);
        lemma_total_single(out[k]);
        assert(out[k].1 == upper(ships, out, k) - complement(ships, out[k].0 as int));
    } else {
        assert(out.subrange(k, out.len() as int).len() == 0);
    }
}

spec fn first_at_least(out: Seq<(u8, u64)>, t: int, k: int) -> int
    decreases out.len() - k,
{
    if k >= out.len() {
        out.len() as int
    } else if out[k].0 >= t {
        k
    } else {
        first_at_least(out, t, k + 1)
    }
}

proof fn lemma_first_at_least(out: Seq<(u8, u64)>, t: int, k: int)
    requires
        0 <= k <= out.len(),
        forall|i: int, j: int| 0 <= i < j < out.len() ==> out[i].0 < out[j].0,
        forall|j: int| 0 <= j < k ==> (#[trigger] out[j]).0 < t,
    ensures
        k <= first_at_least(out, t, k) <= out.len(),
        forall|j: int| 0 <= j < first_at_least(out, t, k) ==> (#[trigger] out[j]).0 < t,
        forall|j: int| first_at_least(out, t, k) <= j < out.len() ==> (#[trigger] out[j]).0 >= t,
    decreases out.len() - k,
{
    if k < out.len() {
        if out[k].0 >= t {
            assert forall|j: int| k <= j < out.len() implies (#[trigger] out[j]).0 >= t by {
                if j > k {
                    assert(out[k].0 < out[j].0);
                }
            }
        } else {
            lemma_first_at_least(out, t, k + 1);
        }
    }
}

proof fn lemma_sum_from_below(s: Seq<(u8, u64)>, t: int)
    requires
        forall|j: int| 0 <= j < s.len() ==> (#[trigger] s[j]).0 < t,
    ensures
        sum_from(s, t) == 0,
    decreases s.len(),
{
    if s.len() > 0 {
        let pre = s.drop_last();
        assert forall|j: int| 0 <= j < pre.len() implies (#[trigger] pre[j]).0 < t by {
            assert(pre[j] == s[j]);
        }
        lemma_sum_from_below(pre, t);
        assert(s[s.len() - 1].0 < t);
    }
}

proof fn lemma_sum_from_split(s: Seq<(u8, u64)>, t: int, k0: int)
    requires
        0 <= k0 <= s.len(),
        forall|j: int| 0 <= j < k0 ==> (#[trigger] s[j]).0 < t,
        forall|j: int| k0 <= j < s.len() ==> (#[trigger] s[j]).0 >= t,
    ensures
        sum_from(s, t) == total(s.subrange(k0, s.len() as int)),
    decreases s.len(),
{
    if s.len() == k0 {
        lemma_sum_from_below(s, t);
        assert(s.subrange(k0, s.len() as int).len() == 0);
    } else {
        let pre = s.drop_last();
        assert forall|j: int| 0 <= j < k0 implies (#[trigger] pre[j]).0 < t by {
            assert(pre[j] == s[j]);
        }
        assert forall|j: int| k0 <= j < pre.len() implies (#[trigger] pre[j]).0 >= t by {
            assert(pre[j] == s[j]);
        }
        lemma_sum_from_split(pre, t, k0);
        assert(s.subrange(k0, s.len() as int).drop_last() =~= pre.subrange(k0, pre.len() as int));
        assert(s[s.len() - 1].0 >= t);
    }
}

proof fn lemma_complement_congruent(ships: Seq<Seq<(u8, u64)>>, t1: int, t2: int)
    requires
        forall|i: int| 0 <= i < ships.len() ==> sum_from(#[trigger] ships[i], t1) == sum_from(ships[i], t2),
    ensures
        complement(ships, t1) == complement(ships, t2),
    decreases ships.len(),
{
    if ships.len() > 0 {
        let pre = ships.drop_last();
        assert forall|i: int| 0 <= i < pre.len() implies sum_from(#[trigger] pre[i], t1) == sum_from(pre[i], t2) by {
            assert(pre[i] == ships[i]);
        }
        lemma_complement_congruent(pre, t1, t2);
        assert(sum_from(ships[ships.len() - 1], t1) == sum_from(ships[ships.len() - 1], t2));
    }
}

proof fn lemma_complement_all_zero(ships: Seq<Seq<(u8, u64)>>, t: int)
    requires
        forall|i: int| 0 <= i < ships.len() ==> sum_from(#[trigger] ships[i], t) == 0,
    ensures
        complement(ships, t) == PROB_ONE,
    decreases ships.len(),
{
    if ships.len() > 0 {
        let pre = ships.drop_last();
        assert forall|i: int| 0 <= i < pre.len() implies sum_from(#[trigger] pre[i], t) == 0 by {
            assert(pre[i] == ships[i]);
        }
        lemma_complement_all_zero(pre, t);
        assert(sum_from(ships[ships.len() - 1], t) == 0);
        assert(PROB_ONE * PROB_ONE / PROB_ONE as int == PROB_ONE) by (nonlinear_arith);
    }
}

/// For every threshold `t`, the fleet probabilities of the ids of `t` or
/// more sum to one minus the complement at `t`, computed on its own from the
/// per-ship lists.
pub proof fn lemma_fleet_mass_from(ships: Seq<Seq<(u8, u64)>>, out: Seq<(u8, u64)>, t: u8)
    requires
        is_fleet_distribution(ships, out),
    ensures
        sum_from(out, t as int) == PROB_ONE - complement(ships, t as int),
{
    lemma_first_at_least(out, t as int, 0);
    let k0 = first_at_least(out, t as int, 0);
    lemma_sum_from_split(out, t as int, k0);
    lemma_suffix_total(ships, out, k0);
    // No ship realizes an id from t up to the first id of the distribution
    // at or above t (or up to 256 where there is none).
    let t2: int = if k0 < out.len() { out[k0].0 as int } else { 256 };
    assert forall|i: int| 0 <= i < ships.len() implies sum_from(#[trigger] ships[i], t as int) == sum_from(ships[i], t2) by {
        assert forall|j: int| 0 <= j < ships[i].len() implies !(t as int <= #[trigger] ships[i][j].0 < t2) by {
            let u = ships[i][j].0;
            if t as int <= u < t2 {
                assert(present(ships, u as int));
                let k = choose|k: int| 0 <= k < out.len() && #[trigger] out[k].0 == u;
                if k < k0 {
                    assert(out[k].0 < t);
                } else if k > k0 {
                    assert(out[k0].0 < out[k].0);
                }
            }
        }
        lemma_sum_from_gap(ships[i], t as int, t2);
    }
    lemma_complement_congruent(ships, t as int, t2);
    if k0 == out.len() {
        assert forall|i: int| 0 <= i < ships.len() implies sum_from(#[trigger] ships[i], 256) == 0 by {
            lemma_sum_from_below(ships[i], 256);
        }
        lemma_complement_all_zero(ships, 256);
    }
}

proof fn lemma_sum_from_zero_entries(s: Seq<(u8, u64)>, t: int)
    requires
        forall|j: int| 0 <= j < s.len() ==> (#[trigger] s[j]).1 == 0,
    ensures
        sum_from(s, t) == 0,
    decreases s.len(),
{
    if s.len() > 0 {
        let pre = s.drop_last();
        assert forall|j: int| 0 <= j < pre.len() implies (#[trigger] pre[j]).1 == 0 by {
            assert(pre[j] == s[j]);
        }
        lemma_sum_from_zero_entries(pre, t);
        assert(s[s.len() - 1].1 == 0);
    }
}

/// A fleet whose ships realize nothing but zeros has a distribution of
/// zeros, and an empty one where no ship realizes any pattern.
pub proof fn lemma_fleet_without_cutins(ships: Seq<Seq<(u8, u64)>>, out: Seq<(u8, u64)>)
    requires
        is_fleet_distribution(ships, out),
        forall|i: int, j: int| 0 <= i < ships.len() && 0 <= j < ships[i].len() ==> (#[trigger] ships[i][j]).1 == 0,
    ensures
        forall|k: int| 0 <= k < out.len() ==> (#[trigger] out[k]).1 == 0,
        (forall|i: int| 0 <= i < ships.len() ==> (#[trigger] ships[i]).len() == 0) ==> out.len() == 0,
{
    assert forall|t: int| #[trigger] complement(ships, t) == PROB_ONE by {
        assert forall|i: int| 0 <= i < ships.len() implies sum_from(#[trigger] ships[i], t) == 0 by {
            assert forall|j: int| 0 <= j < ships[i].len() implies (#[trigger] ships[i][j]).1 == 0 by {
                assert(ships[i][j].1 == 0);
            }
            lemma_sum_from_zero_entries(ships[i], t);
        }
        lemma_complement_all_zero(ships, t);
    }
    assert forall|k: int| 0 <= k < out.len() implies (#[trigger] out[k]).1 == 0 by {
        assert(complement(ships, out[k].0 as int) == PROB_ONE);
        if k + 1 < out.len() {
            assert(complement(ships, out[k + 1].0 as int) == PROB_ONE);
        }
    }
    if forall|i: int| 0 <= i < ships.len() ==> (#[trigger] ships[i]).len() == 0 {
        if out.len() > 0 {
            assert(present(ships, out[0].0 as int));
            let (i, j) = choose|i: int, j: int| 0 <= i < ships.len() && 0 <= j < ships[i].len() && #[trigger] ships[i][j].0 == out[0].0 as int;
            assert(ships[i].len() == 0);
        }
    }
}

proof fn lemma_ids_agree(ships: Seq<Seq<(u8, u64)>>, a: Seq<(u8, u64)>, b: Seq<(u8, u64)>, k: int)
    requires
        is_fleet_distribution(ships, a),
        is_fleet_distribution(ships, b),
        0 <= k < a.len(),
        k < b.len(),
    ensures
        a[k].0 == b[k].0,
    decreases k,
{
    assert forall|j: int| 0 <= j < k implies a[j].0 == b[j].0 by {
        lemma_ids_agree(ships, a, b, j);
    }
    if a[k].0 < b[k].0 {
        assert(present(ships, a[k].0 as int));
        let m = choose|m: int| 0 <= m < b.len() && #[trigger] b[m].0 == a[k].0;
        if m < k {
            assert(a[m].0 < a[k].0);
        } else if m > k {
            assert(b[k].0 < b[m].0);
        }
    } else if b[k].0 < a[k].0 {
        assert(present(ships, b[k].0 as int));
        let m = choose|m: int| 0 <= m < a.len() && #[trigger] a[m].0 == b[k].0;
        if m < k {
            assert(b[m].0 < b[k].0);
        } else if m > k {
            assert(a[k].0 < a[m].0);
        }
    }
}

proof fn lemma_no_longer(ships: Seq<Seq<(u8, u64)>>, a: Seq<(u8, u64)>, b: Seq<(u8, u64)>)
    requires
        is_fleet_distribution(ships, a),
        is_fleet_distribution(ships, b),
    ensures
        b.len() <= a.len(),
{
    if b.len() > a.len() {
        let n = a.len() as int;
        assert(present(ships, b[n].0 as int));
        let m = choose|m: int| 0 <= m < a.len() && #[trigger] a[m].0 == b[n].0;
        lemma_ids_agree(ships, a, b, m);
        assert(b[m].0 < b[n].0);
    }
}

/// The fleet distribution is a function of the per-ship lists: two results
/// for the same ships are identical.
pub proof fn lemma_fleet_distribution_unique(ships: Seq<Seq<(u8, u64)>>, a: Seq<(u8, u64)>, b: Seq<(u8, u64)>)
    requires
        is_fleet_distribution(ships, a),
        is_fleet_distribution(ships, b),
    ensures
        a == b,
{
    lemma_no_longer(ships, a, b);
    lemma_no_longer(ships, b, a);
    assert forall|k: int| 0 <= k < a.len() implies a[k] == b[k] by {
        lemma_ids_agree(ships, a, b, k);
        if k + 1 < a.len() {
            lemma_ids_agree(ships, a, b, k + 1);
        }
        assert(a[k].1 == upper(ships, a, k) - complement(ships, a[k].0 as int));
        assert(b[k].1 == upper(ships, b, k) - complement(ships, b[k].0 as int));
    }
    assert(a =~= b);
}

} // verus!
