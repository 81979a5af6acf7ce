//! The mathematical model of scoring: specification functions over a
//! catalog and a solution (a sequence of champion keys), and the basic
//! lemmas about their ranges.
//!
//! Both scoring modes share one reading of a solution: trait tallies are
//! taken over the distinct champion keys only, while tier weights are summed
//! over every slot.

use vstd::prelude::*;

use crate::catalog::Champion;
use crate::catalog::Game;

verus! {

/// Every slot of the solution names an existing champion key.
pub open spec fn valid_solution(g: Game, s: Seq<i8>) -> bool {
    forall|i: int| 0 <= i < s.len() ==> 1 <= #[trigger] s[i] <= g.pool@.len()
}

/// The champion the key `k` names (keys are 1-based).
pub open spec fn champ_at(g: Game, k: i8) -> Champion {
    g.pool@[k as int - 1]
}

/// Number of occurrences of the tag `t` in the tag list `s`.
pub open spec fn occ(s: Seq<i8>, t: i8) -> int
    decreases s.len(),
{
    if s.len() == 0 {
        0
    } else {
        occ(s.drop_last(), t) + if s.last() == t {
            1int
        } else {
            0int
        }
    }
}

/// The tally of the trait tag `t` over the solution `s`: each distinct
/// champion key contributes the occurrences of `t` in its tag list; a
/// repeated key contributes nothing beyond its first appearance.
pub open spec fn trait_count(g: Game, s: Seq<i8>, t: i8) -> int
    decreases s.len(),
{
    if s.len() == 0 {
        0
    } else {
        trait_count(g, s.drop_last(), t) + if s.drop_last().contains(s.last()) {
            0int
        } else {
            occ(champ_at(g, s.last()).traits@, t)
        }
    }
}

/// Sum of the tier weights of every slot, repetitions included.
pub open spec fn tier_sum(g: Game, s: Seq<i8>) -> int
    decreases s.len(),
{
    if s.len() == 0 {
        0
    } else {
        tier_sum(g, s.drop_last()) + champ_at(g, s.last()).tier as int
    }
}

/// Number of slots whose key already appeared in an earlier slot.
pub open spec fn dup_count(s: Seq<i8>) -> int
    decreases s.len(),
{
    if s.len() == 0 {
        0
    } else {
        dup_count(s.drop_last()) + if s.drop_last().contains(s.last()) {
            1int
        } else {
            0int
        }
    }
}

/// The trait with tag `t` is active in `s`: it is tallied at all and its
/// tally reaches the trait's minimum threshold.
pub open spec fn trait_met(g: Game, s: Seq<i8>, t: i8) -> bool {
    &&& trait_count(g, s, t) >= 1
    &&& g.traits@[t as int - 1].min as int <= trait_count(g, s, t)
}

/// Number of active traits among the tags `1 .. t` (exclusive upper bound).
pub open spec fn met_upto(g: Game, s: Seq<i8>, t: int) -> int
    decreases t,
{
    if t <= 1 {
        0
    } else {
        met_upto(g, s, t - 1) + if trait_met(g, s, (t - 1) as i8) {
            1int
        } else {
            0int
        }
    }
}

/// Maximize-mode primary metric: the number of active traits.
pub open spec fn primary_max(g: Game, s: Seq<i8>) -> int {
    met_upto(g, s, g.traits@.len() as int + 1)
}

/// The tier bonus with divisor `d` (5 in maximize mode, 10 in
/// minimize-penalty mode), scaled by the rational coefficient.
pub open spec fn tier_bonus(g: Game, s: Seq<i8>, d: int) -> int {
    (tier_sum(g, s) * g.coef_num) / (d * g.coef_den)
}

/// Maximize-mode fitness: the primary metric, plus the tier bonus when
/// tier weighting is enabled.  Greater is better.
pub open spec fn fitness_max(g: Game, s: Seq<i8>) -> int {
    primary_max(g, s) + if g.high_tier {
        tier_bonus(g, s, 5)
    } else {
        0int
    }
}

/// Minimize-penalty primary metric: one penalty per repeated slot, plus one
/// penalty per active trait.
pub open spec fn primary_bd(g: Game, s: Seq<i8>) -> int {
    dup_count(s) + met_upto(g, s, g.traits@.len() as int + 1)
}

/// Minimize-penalty fitness: doubled penalties when any exist; otherwise
/// the negated tier bonus (a reward, since lower is better).
pub open spec fn fitness_bd(g: Game, s: Seq<i8>) -> int {
    if primary_bd(g, s) > 0 {
        primary_bd(g, s) * 2
    } else {
        0int - if g.high_tier {
            tier_bonus(g, s, 10)
        } else {
            0int
        }
    }
}

/// The trait breakdown of a solution: the pairs `(t, tally)` for every
/// tallied tag `t` below `t_end`, in ascending tag order.
pub open spec fn trait_breakdown(g: Game, s: Seq<i8>, t_end: int) -> Seq<(i8, i8)>
    decreases t_end,
{
    if t_end <= 1 {
        Seq::empty()
    } else {
        let rest = trait_breakdown(g, s, t_end - 1);
        if trait_count(g, s, (t_end - 1) as i8) >= 1 {
            rest.push((((t_end - 1) as i8), trait_count(g, s, (t_end - 1) as i8) as i8))
        } else {
            rest
        }
    }
}

/// No single-slot substitution strictly raises the maximize-mode fitness:
/// the solution is a local optimum of the substitution neighborhood.
pub open spec fn local_opt_max(g: Game, s: Seq<i8>) -> bool {
    forall|i: int, j: int|
        #![trigger s.update(i, j as i8)]
        0 <= i < s.len() && 1 <= j <= g.pool@.len() ==> fitness_max(g, s.update(i, j as i8))
            <= fitness_max(g, s)
}

/// No single-slot substitution strictly lowers the minimize-penalty
/// fitness: the solution is a local optimum of the substitution
/// neighborhood.
pub open spec fn local_opt_bd(g: Game, s: Seq<i8>) -> bool {
    forall|i: int, j: int|
        #![trigger s.update(i, j as i8)]
        0 <= i < s.len() && 1 <= j <= g.pool@.len() ==> fitness_bd(g, s.update(i, j as i8))
            >= fitness_bd(g, s)
}

/// The `m`-th candidate of a local-search pass over `s` with pool size
/// `p`: candidates are enumerated slot-major, so candidate `m` substitutes
/// key `1 + m % p` into slot `m / p`.
pub open spec fn scan_cand(s: Seq<i8>, p: int, m: int) -> Seq<i8> {
    s.update(m / p, (1 + m % p) as i8)
}

/// The best recorded candidate after the first `n` candidates of a
/// maximize-mode pass, as `(solution, fitness)`.  The fitness starts at 0
/// and a later candidate replaces the record only when strictly better, so
/// the earliest candidate with the maximum fitness wins.
pub open spec fn scan_best_max(g: Game, s: Seq<i8>, n: int) -> (Seq<i8>, int)
    decreases n,
{
    if n <= 0 {
        (s, 0int)
    } else {
        let bf = scan_best_max(g, s, n - 1);
        let c = scan_cand(s, g.pool@.len() as int, n - 1);
        if fitness_max(g, c) > bf.1 {
            (c, fitness_max(g, c))
        } else {
            bf
        }
    }
}

/// The best recorded candidate after the first `n` candidates of a
/// minimize-penalty pass; the recorded fitness starts at the `i32` maximum
/// and only a strictly lower candidate replaces it.
pub open spec fn scan_best_bd(g: Game, s: Seq<i8>, n: int) -> (Seq<i8>, int)
    decreases n,
{
    if n <= 0 {
        (s, 2147483647int)
    } else {
        let bf = scan_best_bd(g, s, n - 1);
        let c = scan_cand(s, g.pool@.len() as int, n - 1);
        if fitness_bd(g, c) < bf.1 {
            (c, fitness_bd(g, c))
        } else {
            bf
        }
    }
}

/// The condition under which the local-search specifications are defined:
/// a well-formed catalog, a valid solution of team size, a non-empty pool.
pub open spec fn search_pre(g: Game, s: Seq<i8>) -> bool {
    &&& g.wf()
    &&& valid_solution(g, s)
    &&& 1 <= s.len() <= 11
    &&& 1 <= g.pool@.len()
}

/// The exact result of maximize-mode local search: scan the full
/// substitution neighborhood, adopt the recorded best candidate while it
/// strictly improves, and stop at a local optimum.
pub open spec fn ls_spec_max(g: Game, s: Seq<i8>) -> Seq<i8>
    decreases 561000127int - fitness_max(g, s)
        when search_pre(g, s)
        via ls_spec_max_dec
{
    let bf = scan_best_max(g, s, s.len() as int * g.pool@.len() as int);
    if bf.1 > fitness_max(g, s) {
        ls_spec_max(g, bf.0)
    } else {
        s
    }
}

#[via_fn]
proof fn ls_spec_max_dec(g: Game, s: Seq<i8>) {
    let n = s.len() as int * g.pool@.len() as int;
    lemma_scan_best_max(g, s, n);
    lemma_fitness_bounds(g, s);
    let bf = scan_best_max(g, s, n);
    if bf.1 > fitness_max(g, s) {
        assert(bf.1 == fitness_max(g, bf.0));
        lemma_fitness_bounds(g, bf.0);
    }
}

/// The exact result of minimize-penalty local search.
pub open spec fn ls_spec_bd(g: Game, s: Seq<i8>) -> Seq<i8>
    decreases fitness_bd(g, s) + 280500000int
        when search_pre(g, s)
        via ls_spec_bd_dec
{
    let bf = scan_best_bd(g, s, s.len() as int * g.pool@.len() as int);
    if bf.1 < fitness_bd(g, s) {
        ls_spec_bd(g, bf.0)
    } else {
        s
    }
}

#[via_fn]
proof fn ls_spec_bd_dec(g: Game, s: Seq<i8>) {
    let n = s.len() as int * g.pool@.len() as int;
    lemma_scan_best_bd(g, s, n);
    lemma_fitness_bounds(g, s);
    let bf = scan_best_bd(g, s, n);
    if bf.1 < fitness_bd(g, s) {
        assert(bf.1 == fitness_bd(g, bf.0));
        lemma_fitness_bounds(g, bf.0);
    }
}

/// Each pass candidate substitutes a pool key into a slot, so it is a
/// valid solution of the same length.
pub proof fn lemma_scan_cand_shape(g: Game, s: Seq<i8>, m: int)
    requires
        search_pre(g, s),
        0 <= m < s.len() * g.pool@.len(),
    ensures
        0 <= m / (g.pool@.len() as int) < s.len(),
        0 <= m % (g.pool@.len() as int) < g.pool@.len(),
        scan_cand(s, g.pool@.len() as int, m).len() == s.len(),
        valid_solution(g, scan_cand(s, g.pool@.len() as int, m)),
{
    let p = g.pool@.len() as int;
    vstd::arithmetic::div_mod::lemma_mod_division_less_than_divisor(m, p);
    vstd::arithmetic::div_mod::lemma_fundamental_div_mod(m, p);
    vstd::arithmetic::div_mod::lemma_div_pos_is_pos(m, p);
    assert(m / p < s.len()) by (nonlinear_arith)
        requires
            m == p * (m / p) + m % p,
            0 <= m % p,
            m < s.len() * p,
            p >= 1,
            0 <= m / p,
    ;
    let c = scan_cand(s, p, m);
    assert forall|q: int| 0 <= q < c.len() implies 1 <= #[trigger] c[q] <= g.pool@.len() by {
        if q != m / p {
            assert(c[q] == s[q]);
        }
    }
}

/// The pass record is sound: the recorded fitness is the fitness of a
/// valid recorded candidate (or nothing was recorded), and no scanned
/// candidate beats it.
pub proof fn lemma_scan_best_max(g: Game, s: Seq<i8>, n: int)
    requires
        search_pre(g, s),
        n <= s.len() * g.pool@.len(),
    ensures
        scan_best_max(g, s, n).1 >= 0,
        scan_best_max(g, s, n).1 == 0 || (scan_best_max(g, s, n).1 == fitness_max(
            g,
            scan_best_max(g, s, n).0,
        ) && scan_best_max(g, s, n).0.len() == s.len() && valid_solution(
            g,
            scan_best_max(g, s, n).0,
        )),
        forall|m: int|
            0 <= m < n ==> fitness_max(g, #[trigger] scan_cand(s, g.pool@.len() as int, m))
                <= scan_best_max(g, s, n).1,
    decreases n,
{
    if n > 0 {
        lemma_scan_best_max(g, s, n - 1);
        lemma_scan_cand_shape(g, s, n - 1);
        lemma_fitness_bounds(g, scan_cand(s, g.pool@.len() as int, n - 1));
    }
}

/// The minimize-penalty pass record is sound in the same way; with a
/// non-empty scan the sentinel is always replaced, since every fitness
/// lies far below it.
pub proof fn lemma_scan_best_bd(g: Game, s: Seq<i8>, n: int)
    requires
        search_pre(g, s),
        n <= s.len() * g.pool@.len(),
    ensures
        n <= 0 ==> scan_best_bd(g, s, n).1 == 2147483647,
        scan_best_bd(g, s, n).1 == 2147483647 || (scan_best_bd(g, s, n).1 == fitness_bd(
            g,
            scan_best_bd(g, s, n).0,
        ) && scan_best_bd(g, s, n).0.len() == s.len() && valid_solution(
            g,
            scan_best_bd(g, s, n).0,
        )),
        forall|m: int|
            0 <= m < n ==> fitness_bd(g, #[trigger] scan_cand(s, g.pool@.len() as int, m))
                >= scan_best_bd(g, s, n).1,
    decreases n,
{
    if n > 0 {
        lemma_scan_best_bd(g, s, n - 1);
        lemma_scan_cand_shape(g, s, n - 1);
        lemma_fitness_bounds(g, scan_cand(s, g.pool@.len() as int, n - 1));
    }
}

/// Appending a slot turns each recursive walk definition into one step.
pub proof fn lemma_push_step(g: Game, s: Seq<i8>, k: i8)
    ensures
        s.push(k).drop_last() == s,
        s.push(k).last() == k,
        forall|t: i8|
            #![trigger trait_count(g, s.push(k), t)]
            trait_count(g, s.push(k), t) == trait_count(g, s, t) + if s.contains(k) {
                0int
            } else {
                occ(champ_at(g, k).traits@, t)
            },
        tier_sum(g, s.push(k)) == tier_sum(g, s) + champ_at(g, k).tier as int,
        dup_count(s.push(k)) == dup_count(s) + if s.contains(k) {
            1int
        } else {
            0int
        },
{
    assert(s.push(k).drop_last() =~= s);
}

/// Appending one tag to a tag list adjusts its occurrence count by one step.
pub proof fn lemma_occ_push(s: Seq<i8>, x: i8, t: i8)
    ensures
        occ(s.push(x), t) == occ(s, t) + if x == t {
            1int
        } else {
            0int
        },
{
    assert(s.push(x).drop_last() =~= s);
}

/// Membership in a sequence extended by one element.
pub proof fn lemma_contains_push(s: Seq<i8>, k: i8, x: i8)
    ensures
        s.push(k).contains(x) <==> (s.contains(x) || x == k),
{
    if s.contains(x) {
        let i = choose|i: int| 0 <= i < s.len() && s[i] == x;
        assert(s.push(k)[i] == x);
    }
    if x == k {
        assert(s.push(k)[s.len() as int] == x);
    }
    if s.push(k).contains(x) {
        let i = choose|i: int| 0 <= i < s.push(k).len() && s.push(k)[i] == x;
        if i < s.len() {
            assert(s[i] == x);
        }
    }
}

/// A tag with a positive occurrence count occurs somewhere.
pub proof fn lemma_occ_witness(s: Seq<i8>, t: i8)
    requires
        occ(s, t) >= 1,
    ensures
        exists|j: int| 0 <= j < s.len() && s[j] == t,
    decreases s.len(),
{
    if s.last() == t {
        assert(s[s.len() - 1] == t);
    } else {
        lemma_occ_witness(s.drop_last(), t);
        let j = choose|j: int| 0 <= j < s.drop_last().len() && s.drop_last()[j] == t;
        assert(s[j] == t);
    }
}

/// A tag occurs at most `s.len()` times, and at most once in a
/// duplicate-free list.
pub proof fn lemma_occ_bounds(s: Seq<i8>, t: i8)
    ensures
        0 <= occ(s, t) <= s.len(),
        (forall|j1: int, j2: int| 0 <= j1 < j2 < s.len() ==> s[j1] != s[j2]) ==> occ(s, t) <= 1,
    decreases s.len(),
{
    if s.len() > 0 {
        lemma_occ_bounds(s.drop_last(), t);
        if (forall|j1: int, j2: int| 0 <= j1 < j2 < s.len() ==> s[j1] != s[j2]) && s.last() == t
            && occ(s.drop_last(), t) >= 1 {
            lemma_occ_witness(s.drop_last(), t);
            let j = choose|j: int| 0 <= j < s.drop_last().len() && s.drop_last()[j] == t;
            assert(s[j] == t && s[s.len() - 1] == t);
            assert(false);
        }
    }
}

/// Dropping the last slot of a valid solution keeps it valid.
pub proof fn lemma_valid_drop_last(g: Game, s: Seq<i8>)
    requires
        valid_solution(g, s),
        s.len() > 0,
    ensures
        valid_solution(g, s.drop_last()),
{
    assert(forall|i: int| 0 <= i < s.drop_last().len() ==> s.drop_last()[i] == s[i]);
}

/// Tallies, tier sums and duplicate counts of a well-formed catalog stay in
/// small ranges.
pub proof fn lemma_walk_bounds(g: Game, s: Seq<i8>, t: i8)
    requires
        g.wf(),
        valid_solution(g, s),
    ensures
        0 <= trait_count(g, s, t) <= s.len(),
        0 <= tier_sum(g, s) <= 255 * s.len(),
        0 <= dup_count(s) <= s.len(),
    decreases s.len(),
{
    if s.len() > 0 {
        lemma_valid_drop_last(g, s);
        lemma_walk_bounds(g, s.drop_last(), t);
        let k = s.last();
        assert(1 <= k <= g.pool@.len());
        let c = champ_at(g, k);
        assert(c.wf(g.traits@.len() as int));
        lemma_occ_bounds(c.traits@, t);
    }
}

/// At most `t - 1` traits are active among the tags below `t`.
pub proof fn lemma_met_upto_bounds(g: Game, s: Seq<i8>, t: int)
    ensures
        0 <= met_upto(g, s, t),
        t >= 1 ==> met_upto(g, s, t) <= t - 1,
        t < 1 ==> met_upto(g, s, t) == 0,
    decreases t,
{
    if t > 1 {
        lemma_met_upto_bounds(g, s, t - 1);
    }
}

/// The tier bonus is non-negative and bounded by the worst-case tier sum
/// times the largest coefficient, over the divisor.
pub proof fn lemma_tier_bonus_bounds(g: Game, s: Seq<i8>, d: int)
    requires
        g.wf(),
        valid_solution(g, s),
        s.len() <= 11,
        d == 5 || d == 10,
    ensures
        0 <= tier_bonus(g, s, d) <= 2805000000int / d,
{
    lemma_walk_bounds(g, s, 1i8);
    assert(0 <= tier_sum(g, s) * g.coef_num <= 2805000000int) by (nonlinear_arith)
        requires
            0 <= tier_sum(g, s) <= 2805,
            0 <= g.coef_num <= 1000000,
    ;
    assert(d * g.coef_den >= d) by (nonlinear_arith)
        requires
            g.coef_den >= 1,
            d >= 1,
    ;
    let num = tier_sum(g, s) * g.coef_num;
    let den = d * g.coef_den;
    vstd::arithmetic::div_mod::lemma_div_pos_is_pos(num, den);
    vstd::arithmetic::div_mod::lemma_div_is_ordered_by_denominator(num, d, den);
    vstd::arithmetic::div_mod::lemma_div_is_ordered(num, 2805000000int, d);
}

/// The maximize-mode fitness of a bounded solution lies in
/// `[0, 561000127]`, and the minimize-penalty fitness in
/// `[-280500000, 276]`.
pub proof fn lemma_fitness_bounds(g: Game, s: Seq<i8>)
    requires
        g.wf(),
        valid_solution(g, s),
        s.len() <= 11,
    ensures
        0 <= primary_max(g, s) <= 127,
        0 <= fitness_max(g, s) <= 561000127,
        0 <= primary_bd(g, s) <= 138,
        -280500000 <= fitness_bd(g, s) <= 276,
{
    lemma_met_upto_bounds(g, s, g.traits@.len() as int + 1);
    lemma_walk_bounds(g, s, 1i8);
    lemma_tier_bonus_bounds(g, s, 5);
    lemma_tier_bonus_bounds(g, s, 10);
}

} // verus!
