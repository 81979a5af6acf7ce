//! The two scorers and the trait breakdown.
//!
//! All three share one verified walk over the solution that tallies trait
//! tags over distinct champion keys, sums tier weights over every slot, and
//! counts repeated slots.

use vstd::prelude::*;

use crate::catalog::Game;
use crate::model::champ_at;
use crate::model::dup_count;
use crate::model::fitness_bd;
use crate::model::fitness_max;
use crate::model::lemma_contains_push;
use crate::model::lemma_fitness_bounds;
use crate::model::lemma_occ_bounds;
use crate::model::lemma_occ_push;
use crate::model::lemma_push_step;
use crate::model::lemma_walk_bounds;
use crate::model::met_upto;
use crate::model::occ;
use crate::model::primary_bd;
use crate::model::primary_max;
use crate::model::tier_bonus;
use crate::model::tier_sum;
use crate::model::trait_breakdown;
use crate::model::trait_count;
use crate::model::valid_solution;

verus! {

/// A vector of `n` `false` flags.
pub(crate) fn falses(n: usize) -> (v: Vec<bool>)
    ensures
        v@.len() == n,
        forall|i: int| 0 <= i < n ==> !(#[trigger] v@[i]),
{
    let mut v: Vec<bool> = Vec::new();
    let mut i: usize = 0;
    while i < n
        invariant
            i <= n,
            v@.len() == i,
            forall|j: int| 0 <= j < i ==> !(#[trigger] v@[j]),
        decreases n - i,
    {
        v.push(false);
        i += 1;
    }
    v
}

/// A vector of `n` zero tallies.
pub(crate) fn zeros(n: usize) -> (v: Vec<i32>)
    ensures
        v@.len() == n,
        forall|i: int| 0 <= i < n ==> (#[trigger] v@[i]) == 0i32,
{
    let mut v: Vec<i32> = Vec::new();
    let mut i: usize = 0;
    while i < n
        invariant
            i <= n,
            v@.len() == i,
            forall|j: int| 0 <= j < i ==> (#[trigger] v@[j]) == 0i32,
        decreases n - i,
    {
        v.push(0);
        i += 1;
    }
    v
}

/// An element-for-element copy of a key sequence.
pub(crate) fn copy_keys(v: &Vec<i8>) -> (r: Vec<i8>)
    ensures
        r@ == v@,
{
    let mut r: Vec<i8> = Vec::new();
    let mut i: usize = 0;
    while i < v.len()
        invariant
            i <= v@.len(),
            r@ =~= v@.take(i as int),
        decreases v@.len() - i,
    {
        let x = v[i];
        r.push(x);
        proof {
            assert(v@.take(i as int + 1) =~= v@.take(i as int).push(x));
        }
        i += 1;
    }
    proof {
        assert(v@.take(v@.len() as int) =~= v@);
    }
    r
}

impl Game {
    /// One pass over the solution: the tag tallies (indexed by tag), the
    /// tier sum, and the duplicate-slot count.
    fn walk(&self, solution: &Vec<i8>) -> (r: (Vec<i32>, u32, i32))
        requires
            self.wf(),
            valid_solution(*self, solution@),
            solution@.len() <= 11,
        ensures
            r.0@.len() == self.traits@.len() + 1,
            forall|t: int|
                1 <= t <= self.traits@.len() ==> (#[trigger] r.0@[t]) as int == trait_count(
                    *self,
                    solution@,
                    t as i8,
                ),
            r.1 as int == tier_sum(*self, solution@),
            r.2 as int == dup_count(solution@),
    {
        let n = solution.len();
        let m = self.traits.len();
        let p = self.pool.len();
        let mut seen: Vec<bool> = falses(p + 1);
        let mut tally: Vec<i32> = zeros(m + 1);
        let mut sum_tier: u32 = 0;
        let mut dups: i32 = 0;
        let mut idx: usize = 0;
        while idx < n
            invariant
                self.wf(),
                valid_solution(*self, solution@),
                solution@.len() == n,
                n <= 11,
                m == self.traits@.len(),
                p == self.pool@.len(),
                idx <= n,
                seen@.len() == p + 1,
                tally@.len() == m + 1,
                forall|k: int|
                    1 <= k <= p ==> ((#[trigger] seen@[k]) <==> solution@.take(
                        idx as int,
                    ).contains(k as i8)),
                forall|t: int|
                    1 <= t <= m ==> (#[trigger] tally@[t]) as int == trait_count(
                        *self,
                        solution@.take(idx as int),
                        t as i8,
                    ),
                sum_tier as int == tier_sum(*self, solution@.take(idx as int)),
                dups as int == dup_count(solution@.take(idx as int)),
            decreases n - idx,
        {
            let ghost prefix = solution@.take(idx as int);
            let ghost prefix1 = solution@.take(idx as int + 1);
            let key = solution[idx];
            proof {
                assert(solution@[idx as int] == key);
                assert(1 <= key <= p);
                assert(prefix1 =~= prefix.push(key));
                assert(forall|i: int| 0 <= i < prefix.len() ==> prefix[i] == solution@[i]);
                assert(valid_solution(*self, prefix));
                lemma_push_step(*self, prefix, key);
                lemma_walk_bounds(*self, prefix, 1i8);
            }
            let ki = (key - 1) as usize;
            let champ_tier = self.pool[ki].tier;
            if !seen[key as usize] {
                seen.set(key as usize, true);
                let ghost tags = champ_at(*self, key).traits@;
                let tags_len = self.pool[ki].traits.len();
                proof {
                    assert(champ_at(*self, key).wf(m as int));
                    assert(tags.take(0) =~= Seq::<i8>::empty());
                }
                let mut jj: usize = 0;
                while jj < tags_len
                    invariant
                        self.wf(),
                        m == self.traits@.len(),
                        p == self.pool@.len(),
                        1 <= key <= p,
                        ki == key - 1,
                        tags == champ_at(*self, key).traits@,
                        tags_len == tags.len(),
                        champ_at(*self, key).wf(m as int),
                        jj <= tags_len,
                        tally@.len() == m + 1,
                        valid_solution(*self, prefix),
                        prefix.len() <= 11,
                        forall|t: int|
                            1 <= t <= m ==> (#[trigger] tally@[t]) as int == trait_count(
                                *self,
                                prefix,
                                t as i8,
                            ) + occ(tags.take(jj as int), t as i8),
                    decreases tags_len - jj,
                {
                    let tag = self.pool[ki].traits[jj];
                    proof {
                        assert(tags[jj as int] == tag);
                        assert(1 <= tag <= m);
                        assert(tags.take(jj as int + 1) =~= tags.take(jj as int).push(tag));
                        lemma_occ_push(tags.take(jj as int), tag, tag as i8);
                        assert forall|t: int| 1 <= t <= m implies #[trigger] occ(
                            tags.take(jj as int + 1),
                            t as i8,
                        ) == occ(tags.take(jj as int), t as i8) + (if tag == t as i8 {
                            1int
                        } else {
                            0int
                        }) by {
                            lemma_occ_push(tags.take(jj as int), tag, t as i8);
                        }
                        lemma_walk_bounds(*self, prefix, tag as i8);
                        lemma_occ_bounds(tags.take(jj as int), tag as i8);
                        assert(tags.take(jj as int).len() <= 127);
                    }
                    let cur = tally[tag as usize];
                    tally.set(tag as usize, cur + 1);
                    jj += 1;
                }
                proof {
                    assert(tags.take(tags_len as int) =~= tags);
                    assert(!prefix.contains(key));
                }
            } else {
                proof {
                    assert(prefix.contains(key));
                }
                dups = dups + 1;
            }
            sum_tier = sum_tier + champ_tier as u32;
            proof {
                assert(champ_at(*self, key).tier == champ_tier);
                assert forall|k: int| 1 <= k <= p implies ((#[trigger] seen@[k])
                    <==> prefix1.contains(k as i8)) by {
                    lemma_contains_push(prefix, key, k as i8);
                }
            }
            idx += 1;
        }
        proof {
            assert(solution@.take(n as int) =~= solution@);
        }
        (tally, sum_tier, dups)
    }

    /// Count the active traits from a completed tally.
    fn count_met(&self, tally: &Vec<i32>, Ghost(s): Ghost<Seq<i8>>) -> (eval: i32)
        requires
            self.wf(),
            tally@.len() == self.traits@.len() + 1,
            forall|t: int|
                1 <= t <= self.traits@.len() ==> (#[trigger] tally@[t]) as int == trait_count(
                    *self,
                    s,
                    t as i8,
                ),
        ensures
            eval as int == met_upto(*self, s, self.traits@.len() as int + 1),
            0 <= eval <= 127,
    {
        let m = self.traits.len();
        let mut eval: i32 = 0;
        let mut t: usize = 1;
        while t <= m
            invariant
                self.wf(),
                m == self.traits@.len(),
                m <= 127,
                1 <= t <= m + 1,
                tally@.len() == m + 1,
                forall|tt: int|
                    1 <= tt <= m ==> (#[trigger] tally@[tt]) as int == trait_count(
                        *self,
                        s,
                        tt as i8,
                    ),
                eval as int == met_upto(*self, s, t as int),
                0 <= eval <= t - 1,
            decreases m + 1 - t,
        {
            let cnt = tally[t];
            let mn = self.traits[t - 1].min;
            if cnt >= 1 && (mn as i32) <= cnt {
                eval = eval + 1;
            }
            t += 1;
        }
        eval
    }

    /// Maximize-mode scorer.
    ///
    /// Returns `(primary, fitness)`: the number of active traits, and that
    /// number plus the tier bonus when tier weighting is enabled.
    pub fn evaluate(&self, solution: &Vec<i8>) -> (r: (i32, i32))
        requires
            self.wf(),
            valid_solution(*self, solution@),
            solution@.len() <= 11,
        ensures
            r.0 as int == primary_max(*self, solution@),
            r.1 as int == fitness_max(*self, solution@),
    {
        let (tally, sum_tier, _dups) = self.walk(solution);
        let eval = self.count_met(&tally, Ghost(solution@));
        proof {
            lemma_fitness_bounds(*self, solution@);
        }
        let fit: i32 = if self.high_tier {
            proof {
                lemma_walk_bounds(*self, solution@, 1i8);
                assert((sum_tier as int) * (self.coef_num as int) <= 2805000000int)
                    by (nonlinear_arith)
                    requires
                        0 <= sum_tier as int <= 2805,
                        0 <= self.coef_num <= 1000000,
                ;
            }
            let num: u64 = (sum_tier as u64) * (self.coef_num as u64);
            let den: u64 = 5u64 * (self.coef_den as u64);
            let b: u64 = num / den;
            proof {
                lemma_walk_bounds(*self, solution@, 1i8);
                crate::model::lemma_tier_bonus_bounds(*self, solution@, 5);
                assert(num as int == tier_sum(*self, solution@) * self.coef_num);
                assert(den as int == 5 * self.coef_den);
                assert(b as int == tier_bonus(*self, solution@, 5));
            }
            eval + (b as i32)
        } else {
            eval
        };
        (eval, fit)
    }

    /// Minimize-penalty scorer.
    ///
    /// Returns `(primary, fitness)`: the penalty count (one per repeated
    /// slot, one per active trait), and the doubled penalties — or, for a
    /// penalty-free solution, the negated tier bonus.
    pub fn evaluate_bd(&self, solution: &Vec<i8>) -> (r: (i32, i32))
        requires
            self.wf(),
            valid_solution(*self, solution@),
            solution@.len() <= 11,
        ensures
            r.0 as int == primary_bd(*self, solution@),
            r.1 as int == fitness_bd(*self, solution@),
    {
        let (tally, sum_tier, dups) = self.walk(solution);
        let met = self.count_met(&tally, Ghost(solution@));
        proof {
            lemma_fitness_bounds(*self, solution@);
            lemma_walk_bounds(*self, solution@, 1i8);
        }
        let eval: i32 = dups + met;
        if eval > 0 {
            (eval, eval * 2)
        } else {
            let fit: i32 = if self.high_tier {
                proof {
                    assert((sum_tier as int) * (self.coef_num as int) <= 2805000000int)
                        by (nonlinear_arith)
                        requires
                            0 <= sum_tier as int <= 2805,
                            0 <= self.coef_num <= 1000000,
                    ;
                }
                let num: u64 = (sum_tier as u64) * (self.coef_num as u64);
                let den: u64 = 10u64 * (self.coef_den as u64);
                let b: u64 = num / den;
                proof {
                    crate::model::lemma_tier_bonus_bounds(*self, solution@, 10);
                    assert(num as int == tier_sum(*self, solution@) * self.coef_num);
                    assert(den as int == 10 * self.coef_den);
                    assert(b as int == tier_bonus(*self, solution@, 10));
                }
                0 - (b as i32)
            } else {
                0
            };
            (eval, fit)
        }
    }

    /// The trait breakdown of a solution for presentation: each tallied tag
    /// paired with its tally, in ascending tag order.
    pub fn get_traits(&self, solution: &Vec<i8>) -> (r: Vec<(i8, i8)>)
        requires
            self.wf(),
            valid_solution(*self, solution@),
            solution@.len() <= 11,
        ensures
            r@ == trait_breakdown(*self, solution@, self.traits@.len() as int + 1),
    {
        let (tally, _sum_tier, _dups) = self.walk(solution);
        let m = self.traits.len();
        let mut out: Vec<(i8, i8)> = Vec::new();
        let mut t: usize = 1;
        while t <= m
            invariant
                self.wf(),
                valid_solution(*self, solution@),
                solution@.len() <= 11,
                m == self.traits@.len(),
                m <= 127,
                1 <= t <= m + 1,
                tally@.len() == m + 1,
                forall|tt: int|
                    1 <= tt <= m ==> (#[trigger] tally@[tt]) as int == trait_count(
                        *self,
                        solution@,
                        tt as i8,
                    ),
                out@ == trait_breakdown(*self, solution@, t as int),
            decreases m + 1 - t,
        {
            let cnt = tally[t];
            if cnt >= 1 {
                proof {
                    lemma_walk_bounds(*self, solution@, t as i8);
                }
                out.push((t as i8, cnt as i8));
            }
            t += 1;
        }
        out
    }
}

} // verus!
