//! Cutin pattern definitions and the per-ship realization pass.
use vstd::prelude::*;

use crate::PROB_ONE;

verus! {

/// How a cutin pattern is drawn.
#[derive(Debug, Clone, Copy, PartialEq, Eq, Structural)]
pub enum CutinKind {
    /// Drawn on its own against the probability mass that earlier sequential
    /// patterns left over.
    Sequential { rate: u64 },
    /// Triggered when a single shared draw falls under a cumulative threshold.
    Normal { cumulative_rate: u64 },
}

/// A cutin pattern: its id (a higher id has a higher priority) and its kind.
#[derive(Debug, Clone, Copy, PartialEq, Eq, Structural)]
pub struct CutinPatternDef {
    pub id: u8,
    pub kind: CutinKind,
}

impl CutinKind {
    /// The rate is a probability.
    pub open spec fn wf(self) -> bool {
        match self {
            CutinKind::Sequential { rate } => rate <= PROB_ONE,
            CutinKind::Normal { cumulative_rate } => cumulative_rate <= PROB_ONE,
        }
    }

    pub open spec fn rate_spec(self) -> u64 {
        match self {
            CutinKind::Sequential { rate } => rate,
            CutinKind::Normal { cumulative_rate } => cumulative_rate,
        }
    }
}

impl CutinPatternDef {
    pub open spec fn wf(self) -> bool {
        self.kind.wf()
    }

    pub fn is_sequential(&self) -> (r: bool)
        ensures
            r == (self.kind is Sequential),
    {
        matches!(self.kind, CutinKind::Sequential { .. })
    }

    /// The raw rate of a sequential pattern, or the cumulative rate of a
    /// normal one.
    pub fn rate(&self) -> (r: u64)
        ensures
            r == self.kind.rate_spec(),
    {
        match self.kind {
            CutinKind::Sequential { rate } => rate,
            CutinKind::Normal { cumulative_rate } => cumulative_rate,
        }
    }
}

/// The static battle configuration that the analyzers read: the table of
/// anti-air cutin patterns.
pub struct BattleConfig {
    pub anti_air_cutin: Vec<CutinPatternDef>,
}

impl BattleConfig {
    /// Every pattern of the table carries a probability as its rate.
    pub open spec fn wf(&self) -> bool {
        forall|i: int| 0 <= i < self.anti_air_cutin@.len() ==> #[trigger] self.anti_air_cutin@[i].wf()
    }
}

/// The first pattern of `table` with the given id.
pub open spec fn find_def(table: Seq<CutinPatternDef>, id: u8) -> Option<CutinPatternDef>
    decreases table.len(),
{
    if table.len() == 0 {
        None
    } else if table[0].id == id {
        Some(table[0])
    } else {
        find_def(table.drop_first(), id)
    }
}

/// The patterns that the candidate ids name in `table`, in candidate order;
/// ids without a pattern are left out.
pub open spec fn candidate_defs(table: Seq<CutinPatternDef>, ids: Seq<u8>) -> Seq<CutinPatternDef>
    decreases ids.len(),
{
    if ids.len() == 0 {
        seq![]
    } else {
        let rest = candidate_defs(table, ids.drop_last());
        match find_def(table, ids.last()) {
            Some(d) => rest.push(d),
            None => rest,
        }
    }
}

pub open spec fn min_int(a: int, b: int) -> int {
    if a <= b { a } else { b }
}

/// The sequential pass over `defs`: each sequential pattern realizes
/// `min(1, (1 - consumed) * rate)` and adds that to the consumed mass.
/// Gives the realized pairs and the consumed mass.
pub open spec fn sequential_pass(defs: Seq<CutinPatternDef>) -> (Seq<(u8, u64)>, int)
    decreases defs.len(),
{
    if defs.len() == 0 {
        (seq![], 0)
    } else {
        let (out, consumed) = sequential_pass(defs.drop_last());
        let d = defs.last();
        match d.kind {
            CutinKind::Sequential { rate } => {
                let r = min_int(PROB_ONE as int, (PROB_ONE - consumed) * rate / PROB_ONE as int);
                (out.push((d.id, r as u64)), consumed + r)
            },
            CutinKind::Normal { .. } => (out, consumed),
        }
    }
}

/// The normal pass over `defs`, after sequential patterns consumed
/// `consumed`: a normal pattern realizes the step from the previous
/// cumulative rate to its own, scaled by `1 - consumed` when `consumed` is
/// positive, or exactly 0 where its cumulative rate falls below the previous
/// one. Gives the realized pairs and the last cumulative rate reached.
pub open spec fn normal_pass(defs: Seq<CutinPatternDef>, consumed: int) -> (Seq<(u8, u64)>, int)
    decreases defs.len(),
{
    if defs.len() == 0 {
        (seq![], 0)
    } else {
        let (out, prev) = normal_pass(defs.drop_last(), consumed);
        let d = defs.last();
        match d.kind {
            CutinKind::Normal { cumulative_rate } => {
                if (cumulative_rate as int) < prev {
                    (out.push((d.id, 0u64)), prev)
                } else {
                    let step = cumulative_rate - prev;
                    let r = if consumed > 0 { (PROB_ONE - consumed) * step / PROB_ONE as int } else { step };
                    (out.push((d.id, r as u64)), cumulative_rate as int)
                }
            },
            CutinKind::Sequential { .. } => (out, prev),
        }
    }
}

/// The realized probabilities of one ship's patterns: the sequential ones
/// first, then the normal ones.
pub open spec fn realize(defs: Seq<CutinPatternDef>) -> Seq<(u8, u64)> {
    sequential_pass(defs).0 + normal_pass(defs, sequential_pass(defs).1).0
}

/// The sum of the probabilities of a list of (id, probability) pairs.
pub open spec fn total(s: Seq<(u8, u64)>) -> int
    decreases s.len(),
{
    if s.len() == 0 {
        0
    } else {
        total(s.drop_last()) + s.last().1
    }
}

pub proof fn lemma_total_append(a: Seq<(u8, u64)>, b: Seq<(u8, u64)>)
    ensures
        total(a + b) == total(a) + total(b),
    decreases b.len(),
{
    if b.len() == 0 {
        assert(a + b =~= a);
    } else {
        lemma_total_append(a, b.drop_last());
        assert((a + b).drop_last() =~= a + b.drop_last());
    }
}

pub(crate) proof fn lemma_sequential_pass_bounds(defs: Seq<CutinPatternDef>)
    requires
        forall|i: int| 0 <= i < defs.len() ==> #[trigger] defs[i].wf(),
    ensures
        0 <= sequential_pass(defs).1 <= PROB_ONE,
        total(sequential_pass(defs).0) == sequential_pass(defs).1,
    decreases defs.len(),
{
    if defs.len() > 0 {
        let pre = defs.drop_last();
        assert forall|i: int| 0 <= i < pre.len() implies #[trigger] pre[i].wf() by {
            assert(pre[i] == defs[i]);
        }
        lemma_sequential_pass_bounds(pre);
        let (out, c) = sequential_pass(pre);
        let d = defs.last();
        assert(d.wf());
        if let CutinKind::Sequential { rate } = d.kind {
            let x = (PROB_ONE - c) * rate;
            assert(0 <= x <= (PROB_ONE - c) * PROB_ONE) by (nonlinear_arith)
                requires
                    0 <= c <= PROB_ONE,
                    rate <= PROB_ONE,
                    x == (PROB_ONE - c) * rate,
            ;
            assert(x / PROB_ONE as int <= PROB_ONE - c) by (nonlinear_arith)
                requires
                    0 <= x <= (PROB_ONE - c) * PROB_ONE,
                    c <= PROB_ONE,
            ;
            assert(x / PROB_ONE as int >= 0) by (nonlinear_arith)
                requires
                    x >= 0,
            ;
            let (out2, _) = sequential_pass(defs);
            assert(out2.drop_last() =~= out);
        }
    }
}

pub(crate) proof fn lemma_normal_pass_bounds(defs: Seq<CutinPatternDef>, consumed: int)
    requires
        forall|i: int| 0 <= i < defs.len() ==> #[trigger] defs[i].wf(),
        0 <= consumed <= PROB_ONE,
    ensures
        0 <= normal_pass(defs, consumed).1 <= PROB_ONE,
        0 <= total(normal_pass(defs, consumed).0),
        total(normal_pass(defs, consumed).0) * PROB_ONE <= (PROB_ONE - consumed) * normal_pass(defs, consumed).1,
        forall|i: int| 0 <= i < normal_pass(defs, consumed).0.len() ==>
            (#[trigger] normal_pass(defs, consumed).0[i]).1 <= PROB_ONE,
    decreases defs.len(),
{
    if defs.len() > 0 {
        let pre = defs.drop_last();
        assert forall|i: int| 0 <= i < pre.len() implies #[trigger] pre[i].wf() by {
            assert(pre[i] == defs[i]);
        }
        lemma_normal_pass_bounds(pre, consumed);
        let (out, prev) = normal_pass(pre, consumed);
        let s = total(out);
        let d = defs.last();
        assert(d.wf());
        if let CutinKind::Normal { cumulative_rate } = d.kind {
            let (out2, _) = normal_pass(defs, consumed);
            if (cumulative_rate as int) >= prev {
                let step = cumulative_rate - prev;
                let r = if consumed > 0 { (PROB_ONE - consumed) * step / PROB_ONE as int } else { step };
                assert(0 <= r <= step && r * PROB_ONE <= (PROB_ONE - consumed) * step) by (nonlinear_arith)
                    requires
                        0 <= consumed <= PROB_ONE,
                        step >= 0,
                        consumed > 0 ==> r == (PROB_ONE - consumed) * step / PROB_ONE as int,
                        consumed <= 0 ==> r == step,
                ;
                assert((s + r) * PROB_ONE <= (PROB_ONE - consumed) * cumulative_rate) by (nonlinear_arith)
                    requires
                        s * PROB_ONE <= (PROB_ONE - consumed) * prev,
                        r * PROB_ONE <= (PROB_ONE - consumed) * step,
                        step == cumulative_rate - prev,
                ;
            }
            assert(out2.drop_last() =~= out);
            assert forall|i: int| 0 <= i < out2.len() implies (#[trigger] out2[i]).1 <= PROB_ONE by {
                if i < out.len() {
                    assert(out2[i] == out[i]);
                }
            }
        }
    }
}

} // verus!

verus! {

pub proof fn lemma_find_def_wf(table: Seq<CutinPatternDef>, id: u8)
    requires
        forall|i: int| 0 <= i < table.len() ==> #[trigger] table[i].wf(),
    ensures
        find_def(table, id) matches Some(d) ==> d.wf() && d.id == id,
    decreases table.len(),
{
    if table.len() > 0 {
        let rest = table.drop_first();
        assert forall|i: int| 0 <= i < rest.len() implies #[trigger] rest[i].wf() by {
            assert(rest[i] == table[i + 1]);
        }
        assert(table[0].wf());
        lemma_find_def_wf(rest, id);
    }
}

/// Each realized probability lies in [0, 1], and so does their sum: a ship
/// never realizes more than certainty in all.
pub proof fn lemma_realized_bounds(defs: Seq<CutinPatternDef>)
    requires
        forall|i: int| 0 <= i < defs.len() ==> #[trigger] defs[i].wf(),
    ensures
        total(realize(defs)) <= PROB_ONE,
        forall|i: int| 0 <= i < realize(defs).len() ==> (#[trigger] realize(defs)[i]).1 <= PROB_ONE,
{
    lemma_sequential_pass_bounds(defs);
    let (s, c) = sequential_pass(defs);
    lemma_normal_pass_bounds(defs, c);
    let (n, prev) = normal_pass(defs, c);
    lemma_total_append(s, n);
    let tn = total(n);
    assert(tn <= PROB_ONE - c) by (nonlinear_arith)
        requires
            tn * PROB_ONE <= (PROB_ONE - c) * prev,
            0 <= prev <= PROB_ONE,
            0 <= c <= PROB_ONE,
    ;
    lemma_sequential_entries(defs);
    let r = realize(defs);
    assert forall|i: int| 0 <= i < r.len() implies (#[trigger] r[i]).1 <= PROB_ONE by {
        if i < s.len() {
            assert(r[i] == s[i]);
        } else {
            assert(r[i] == n[i - s.len()]);
        }
    }
}

pub(crate) proof fn lemma_sequential_entries(defs: Seq<CutinPatternDef>)
    requires
        forall|i: int| 0 <= i < defs.len() ==> #[trigger] defs[i].wf(),
    ensures
        forall|i: int| 0 <= i < sequential_pass(defs).0.len() ==> (#[trigger] sequential_pass(defs).0[i]).1 <= PROB_ONE,
    decreases defs.len(),
{
    if defs.len() > 0 {
        let pre = defs.drop_last();
        assert forall|i: int| 0 <= i < pre.len() implies #[trigger] pre[i].wf() by {
            assert(pre[i] == defs[i]);
        }
        lemma_sequential_entries(pre);
        lemma_sequential_pass_bounds(pre);
        let out = sequential_pass(defs.drop_last()).0;
        let out2 = sequential_pass(defs).0;
        if defs.last().kind is Sequential {
            assert(out2.drop_last() =~= out);
            assert forall|i: int| 0 <= i < out2.len() implies (#[trigger] out2[i]).1 <= PROB_ONE by {
                if i < out.len() {
                    assert(out2[i] == out[i]);
                }
            }
        }
    }
}

} // verus!

verus! {

proof fn lemma_sequential_pass_no_sequential(defs: Seq<CutinPatternDef>)
    requires
        forall|j: int| 0 <= j < defs.len() ==> (#[trigger] defs[j]).kind is Normal,
    ensures
        sequential_pass(defs).0.len() == 0,
        sequential_pass(defs).1 == 0,
    decreases defs.len(),
{
    if defs.len() > 0 {
        let pre = defs.drop_last();
        assert forall|j: int| 0 <= j < pre.len() implies (#[trigger] pre[j]).kind is Normal by {
            assert(pre[j] == defs[j]);
        }
        lemma_sequential_pass_no_sequential(pre);
        assert(defs[defs.len() - 1].kind is Normal);
    }
}

/// The first sequential pattern evaluated draws on the whole probability
/// mass, so it realizes exactly its raw rate, and it heads the realized list.
pub proof fn lemma_first_sequential_exact(defs: Seq<CutinPatternDef>, k: int)
    requires
        0 <= k < defs.len(),
        defs[k].wf(),
        defs[k].kind is Sequential,
        forall|j: int| 0 <= j < k ==> (#[trigger] defs[j]).kind is Normal,
    ensures
        sequential_pass(defs).0.len() > 0,
        sequential_pass(defs).0[0] == (defs[k].id, defs[k].kind->Sequential_rate),
        realize(defs)[0] == (defs[k].id, defs[k].kind->Sequential_rate),
    decreases defs.len(),
{
    let pre = defs.drop_last();
    if k == defs.len() - 1 {
        assert forall|j: int| 0 <= j < pre.len() implies (#[trigger] pre[j]).kind is Normal by {
            assert(pre[j] == defs[j]);
        }
        lemma_sequential_pass_no_sequential(pre);
        let rate = defs[k].kind->Sequential_rate;
        assert(PROB_ONE * rate / PROB_ONE as int == rate) by (nonlinear_arith);
    } else {
        assert(pre[k] == defs[k]);
        assert forall|j: int| 0 <= j < k implies (#[trigger] pre[j]).kind is Normal by {
            assert(pre[j] == defs[j]);
        }
        lemma_first_sequential_exact(pre, k);
    }
}

proof fn lemma_normal_pass_prev_covers(defs: Seq<CutinPatternDef>, consumed: int)
    ensures
        normal_pass(defs, consumed).1 >= 0,
        forall|j: int| 0 <= j < defs.len() && (#[trigger] defs[j]).kind is Normal ==>
            defs[j].kind->Normal_cumulative_rate <= normal_pass(defs, consumed).1,
    decreases defs.len(),
{
    if defs.len() > 0 {
        let pre = defs.drop_last();
        lemma_normal_pass_prev_covers(pre, consumed);
        assert forall|j: int| 0 <= j < defs.len() && (#[trigger] defs[j]).kind is Normal implies
            defs[j].kind->Normal_cumulative_rate <= normal_pass(defs, consumed).1 by {
            if j < pre.len() {
                assert(pre[j] == defs[j]);
            }
        }
    }
}

/// The normal pass over a prefix of `defs` is a prefix of the normal pass
/// over all of `defs`.
pub(crate) proof fn lemma_normal_pass_prefix(defs: Seq<CutinPatternDef>, i: int, consumed: int)
    requires
        0 <= i <= defs.len(),
    ensures
        normal_pass(defs.take(i), consumed).0.len() <= normal_pass(defs, consumed).0.len(),
        forall|j: int| 0 <= j < normal_pass(defs.take(i), consumed).0.len() ==>
            normal_pass(defs.take(i), consumed).0[j] == #[trigger] normal_pass(defs, consumed).0[j],
    decreases defs.len(),
{
    if i == defs.len() {
        assert(defs.take(i) =~= defs);
    } else {
        let pre = defs.drop_last();
        assert(pre.take(i) =~= defs.take(i));
        lemma_normal_pass_prefix(pre, i, consumed);
        let a = normal_pass(pre, consumed).0;
        let b = normal_pass(defs, consumed).0;
        if defs.last().kind is Normal {
            assert forall|j: int| 0 <= j < a.len() implies a[j] == b[j] by {
                assert(b == a.push(b.last()));
            }
        }
    }
}

/// A normal pattern whose cumulative rate is below that of an earlier normal
/// pattern realizes exactly 0, wherever it stands among the candidates, and
/// leaves the threshold that the next normal pattern is measured from
/// unchanged.
pub proof fn lemma_normal_below_prior_is_zero(defs: Seq<CutinPatternDef>, j: int, k: int)
    requires
        0 <= j < k < defs.len(),
        defs[j].kind is Normal,
        defs[k].kind is Normal,
        defs[k].kind->Normal_cumulative_rate < defs[j].kind->Normal_cumulative_rate,
    ensures
        ({
            let c = sequential_pass(defs).1;
            let upto = normal_pass(defs.take(k + 1), c);
            let pos = sequential_pass(defs).0.len() + upto.0.len() - 1;
            &&& upto.0.len() > 0
            &&& upto.0.last() == (defs[k].id, 0u64)
            &&& upto.1 == normal_pass(defs.take(k), c).1
            &&& 0 <= pos < realize(defs).len()
            &&& realize(defs)[pos] == (defs[k].id, 0u64)
        }),
{
    let c = sequential_pass(defs).1;
    let pre = defs.take(k);
    let upto = defs.take(k + 1);
    assert(upto.drop_last() =~= pre);
    assert(upto.last() == defs[k]);
    lemma_normal_pass_prev_covers(pre, c);
    assert(pre[j] == defs[j]);
    let n = normal_pass(upto, c).0;
    lemma_normal_pass_prefix(defs, k + 1, c);
    let s = sequential_pass(defs).0;
    let m = n.len() - 1;
    assert(n[m] == normal_pass(defs, c).0[m]);
    assert(realize(defs)[s.len() + m] == normal_pass(defs, c).0[m]);
}

} // verus!
