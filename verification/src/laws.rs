//! Catalog-independent properties of the scoring model, stated over the
//! specification functions and proved once for every catalog and solution.

use vstd::prelude::*;

use crate::catalog::Game;
use crate::model::champ_at;
use crate::model::fitness_max;
use crate::model::lemma_occ_bounds;
use crate::model::lemma_push_step;
use crate::model::met_upto;
use crate::model::primary_max;
use crate::model::tier_bonus;
use crate::model::tier_sum;
use crate::model::trait_count;
use crate::model::trait_met;
use crate::model::valid_solution;

verus! {

/// Equal tallies give equal active-trait counts.
proof fn lemma_met_upto_same(g: Game, a: Seq<i8>, b: Seq<i8>, t: int)
    requires
        forall|tt: i8| #[trigger] trait_count(g, a, tt) == trait_count(g, b, tt),
    ensures
        met_upto(g, a, t) == met_upto(g, b, t),
    decreases t,
{
    if t > 1 {
        lemma_met_upto_same(g, a, b, t - 1);
    }
}

/// Pointwise larger tallies give at least as many active traits.
proof fn lemma_met_upto_mono(g: Game, a: Seq<i8>, b: Seq<i8>, t: int)
    requires
        forall|tt: i8| #[trigger] trait_count(g, a, tt) <= trait_count(g, b, tt),
    ensures
        met_upto(g, a, t) <= met_upto(g, b, t),
    decreases t,
{
    if t > 1 {
        lemma_met_upto_mono(g, a, b, t - 1);
        if trait_met(g, a, (t - 1) as i8) {
            assert(trait_count(g, a, (t - 1) as i8) <= trait_count(g, b, (t - 1) as i8));
            assert(trait_met(g, b, (t - 1) as i8));
        }
    }
}

/// A repeated champion key contributes nothing: appending a key that the
/// solution already holds leaves every trait tally, and with it the
/// maximize-mode primary metric, unchanged.  Each distinct key counts
/// exactly once for trait purposes, however often it repeats.
pub proof fn lemma_duplicate_key_adds_nothing(g: Game, s: Seq<i8>, k: i8, t: i8)
    requires
        s.contains(k),
    ensures
        trait_count(g, s.push(k), t) == trait_count(g, s, t),
        primary_max(g, s.push(k)) == primary_max(g, s),
{
    lemma_push_step(g, s, k);
    lemma_met_upto_same(g, s.push(k), s, g.traits@.len() as int + 1);
}

/// Maximize-mode scoring is monotone: appending any valid champion key to
/// a solution never lowers the primary metric or the fitness.  In
/// particular, adding an item that helps an unmet trait toward its
/// threshold cannot hurt the score.
pub proof fn lemma_score_monotone(g: Game, s: Seq<i8>, k: i8)
    requires
        g.wf(),
        valid_solution(g, s),
        1 <= k <= g.pool@.len(),
    ensures
        primary_max(g, s.push(k)) >= primary_max(g, s),
        fitness_max(g, s.push(k)) >= fitness_max(g, s),
{
    lemma_push_step(g, s, k);
    assert forall|tt: i8| #[trigger] trait_count(g, s, tt) <= trait_count(g, s.push(k), tt) by {
        lemma_occ_bounds(champ_at(g, k).traits@, tt);
    }
    lemma_met_upto_mono(g, s, s.push(k), g.traits@.len() as int + 1);
    if g.high_tier {
        assert(tier_sum(g, s.push(k)) >= tier_sum(g, s));
        assert(tier_sum(g, s) * g.coef_num <= tier_sum(g, s.push(k)) * g.coef_num)
            by (nonlinear_arith)
            requires
                tier_sum(g, s) <= tier_sum(g, s.push(k)),
                g.coef_num >= 0,
        ;
        assert(5 * g.coef_den >= 5) by (nonlinear_arith)
            requires
                g.coef_den >= 1,
        ;
        vstd::arithmetic::div_mod::lemma_div_is_ordered(
            tier_sum(g, s) * g.coef_num,
            tier_sum(g, s.push(k)) * g.coef_num,
            5 * g.coef_den,
        );
        assert(tier_bonus(g, s, 5) <= tier_bonus(g, s.push(k), 5));
    }
}

} // verus!
