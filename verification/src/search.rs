//! Local search and iterated local search, for both scoring modes.
//!
//! Local search explores the full single-position-substitution
//! neighborhood of a solution and repeats while a strict improvement
//! exists; its result is a local optimum no single substitution improves.
//! Iterated local search alternates local search with random perturbation
//! for a fixed budget of rounds and returns the best solution it ever saw.

use vstd::prelude::*;

use crate::catalog::Game;
use crate::catalog::Mode;
use crate::model::fitness_bd;
use crate::model::fitness_max;
use crate::model::lemma_fitness_bounds;
use crate::model::lemma_scan_best_bd;
use crate::model::lemma_scan_best_max;
use crate::model::local_opt_bd;
use crate::model::local_opt_max;
use crate::model::ls_spec_bd;
use crate::model::ls_spec_max;
use crate::model::scan_best_bd;
use crate::model::scan_best_max;
use crate::model::scan_cand;
use crate::model::primary_bd;
use crate::model::primary_max;
use crate::model::trait_breakdown;
use crate::model::valid_solution;
use crate::rng::RandSource;
use crate::scoring::copy_keys;

verus! {

impl Game {
    /// Maximize-mode local search: steepest ascent over single-slot
    /// substitutions, repeated until no substitution strictly improves.
    ///
    /// The result is exactly [`ls_spec_max`] of the input — the search is
    /// deterministic, so equal inputs give equal results.  It scores at
    /// least as well as the input, no single substitution of it scores
    /// strictly better, and unless the input was already a local optimum
    /// the result scores strictly better than the input.
    pub fn local_search(&self, init: &Vec<i8>) -> (r: Vec<i8>)
        requires
            self.wf(),
            valid_solution(*self, init@),
            1 <= init@.len() <= 11,
        ensures
            r@.len() == init@.len(),
            valid_solution(*self, r@),
            fitness_max(*self, r@) >= fitness_max(*self, init@),
            local_opt_max(*self, r@),
            r@ == ls_spec_max(*self, init@),
            local_opt_max(*self, init@) || fitness_max(*self, r@) > fitness_max(*self, init@),
    {
        let size = init.len();
        let pool_size = self.pool.len();
        let mut solution = copy_keys(init);
        let mut eval_first: i32 = self.evaluate(&solution).1;
        let mut better: Vec<i8> = Vec::new();
        let mut eval_better: i32 = 0;
        proof {
            lemma_fitness_bounds(*self, init@);
            assert(1 <= init@[0] <= self.pool@.len());
        }
        loop
            invariant
                self.wf(),
                valid_solution(*self, solution@),
                solution@.len() == size,
                1 <= size <= 11,
                size == init@.len(),
                pool_size == self.pool@.len(),
                1 <= pool_size <= 127,
                eval_first as int == fitness_max(*self, solution@),
                fitness_max(*self, solution@) >= fitness_max(*self, init@),
                eval_better == 0,
                0 <= eval_first <= 561000127,
                ls_spec_max(*self, solution@) == ls_spec_max(*self, init@),
                solution@ == init@ || fitness_max(*self, solution@) > fitness_max(*self, init@),
            decreases 561000127 - eval_first,
        {
            let ghost base = solution@;
            let mut i: usize = 0;
            while i < size
                invariant
                    self.wf(),
                    valid_solution(*self, base),
                    base.len() == size,
                    1 <= size <= 11,
                    pool_size == self.pool@.len(),
                    pool_size <= 127,
                    solution@ == base,
                    i <= size,
                    eval_first as int == fitness_max(*self, base),
                    0 <= eval_better,
                    1 <= pool_size,
                    eval_better as int == scan_best_max(*self, base, i as int * pool_size as int).1,
                    eval_better > 0 ==> better@ == scan_best_max(
                        *self,
                        base,
                        i as int * pool_size as int,
                    ).0,
                    eval_better == 0 || (better@.len() == size && valid_solution(*self, better@)
                        && eval_better as int == fitness_max(*self, better@)),
                    forall|i2: int, j2: int|
                        #![trigger base.update(i2, j2 as i8)]
                        0 <= i2 < i && 1 <= j2 <= pool_size ==> fitness_max(
                            *self,
                            base.update(i2, j2 as i8),
                        ) <= eval_better as int,
                decreases size - i,
            {
                let mut j: usize = 1;
                while j <= pool_size
                    invariant
                        self.wf(),
                        valid_solution(*self, base),
                        base.len() == size,
                        1 <= size <= 11,
                        pool_size == self.pool@.len(),
                        pool_size <= 127,
                        solution@ == base,
                        i < size,
                        1 <= j <= pool_size + 1,
                        eval_first as int == fitness_max(*self, base),
                        0 <= eval_better,
                        1 <= pool_size,
                        eval_better as int == scan_best_max(
                            *self,
                            base,
                            i as int * pool_size as int + j as int - 1,
                        ).1,
                        eval_better > 0 ==> better@ == scan_best_max(
                            *self,
                            base,
                            i as int * pool_size as int + j as int - 1,
                        ).0,
                        eval_better == 0 || (better@.len() == size && valid_solution(
                            *self,
                            better@,
                        ) && eval_better as int == fitness_max(*self, better@)),
                        forall|i2: int, j2: int|
                            #![trigger base.update(i2, j2 as i8)]
                            0 <= i2 < i && 1 <= j2 <= pool_size ==> fitness_max(
                                *self,
                                base.update(i2, j2 as i8),
                            ) <= eval_better as int,
                        forall|j2: int|
                            #![trigger base.update(i as int, j2 as i8)]
                            1 <= j2 < j ==> fitness_max(*self, base.update(i as int, j2 as i8))
                                <= eval_better as int,
                    decreases pool_size + 1 - j,
                {
                    let prev = solution[i];
                    let cand: i8 = j as i8;
                    solution.set(i, cand);
                    proof {
                        assert(solution@ =~= base.update(i as int, cand));
                        assert forall|q: int| 0 <= q < solution@.len() implies 1
                            <= #[trigger] solution@[q] <= self.pool@.len() by {
                            if q != i as int {
                                assert(solution@[q] == base[q]);
                            }
                        }
                        let p = pool_size as int;
                        let m = i as int * p + j as int - 1;
                        vstd::arithmetic::div_mod::lemma_fundamental_div_mod_converse_div(
                            m,
                            p,
                            i as int,
                            j as int - 1,
                        );
                        vstd::arithmetic::div_mod::lemma_fundamental_div_mod_converse_mod(
                            m,
                            p,
                            i as int,
                            j as int - 1,
                        );
                        assert(scan_cand(base, p, m) =~= solution@);
                    }
                    let et = self.evaluate(&solution).1;
                    if et > eval_better {
                        better = copy_keys(&solution);
                        eval_better = et;
                        proof {
                            lemma_fitness_bounds(*self, better@);
                        }
                    }
                    proof {
                        let p = pool_size as int;
                        let m = i as int * p + j as int - 1;
                        assert(eval_better as int == scan_best_max(*self, base, m + 1).1);
                    }
                    solution.set(i, prev);
                    proof {
                        assert(base[i as int] == prev);
                        assert(solution@ =~= base);
                    }
                    j += 1;
                }
                proof {
                    assert(i as int * pool_size as int + pool_size as int == (i as int + 1)
                        * pool_size as int) by (nonlinear_arith);
                }
                i += 1;
            }
            proof {
                let n = size as int * pool_size as int;
                lemma_scan_best_max(*self, base, n);
            }
            if eval_better > eval_first {
                proof {
                    assert(ls_spec_max(*self, base) == ls_spec_max(*self, better@));
                }
                solution = better;
                eval_first = eval_better;
                better = Vec::new();
                eval_better = 0;
                proof {
                    lemma_fitness_bounds(*self, solution@);
                }
            } else {
                proof {
                    assert(ls_spec_max(*self, base) == base);
                }
                return solution;
            }
        }
    }

    /// Minimize-penalty local search: steepest descent over single-slot
    /// substitutions, repeated until no substitution strictly improves
    /// (here: strictly lowers the fitness).
    ///
    /// The result is exactly [`ls_spec_bd`] of the input: the search is
    /// deterministic, a local optimum, no worse than the input, and
    /// strictly better unless the input was already a local optimum.
    pub fn local_search_bd(&self, init: &Vec<i8>) -> (r: Vec<i8>)
        requires
            self.wf(),
            valid_solution(*self, init@),
            1 <= init@.len() <= 11,
        ensures
            r@.len() == init@.len(),
            valid_solution(*self, r@),
            fitness_bd(*self, r@) <= fitness_bd(*self, init@),
            local_opt_bd(*self, r@),
            r@ == ls_spec_bd(*self, init@),
            local_opt_bd(*self, init@) || fitness_bd(*self, r@) < fitness_bd(*self, init@),
    {
        let size = init.len();
        let pool_size = self.pool.len();
        let mut solution = copy_keys(init);
        let mut eval_first: i32 = self.evaluate_bd(&solution).1;
        let mut better: Vec<i8> = Vec::new();
        let mut eval_better: i32 = i32::MAX;
        proof {
            lemma_fitness_bounds(*self, init@);
            assert(1 <= init@[0] <= self.pool@.len());
        }
        loop
            invariant
                self.wf(),
                valid_solution(*self, solution@),
                solution@.len() == size,
                1 <= size <= 11,
                size == init@.len(),
                pool_size == self.pool@.len(),
                1 <= pool_size <= 127,
                eval_first as int == fitness_bd(*self, solution@),
                fitness_bd(*self, solution@) <= fitness_bd(*self, init@),
                eval_better == i32::MAX,
                -280500000 <= eval_first <= 276,
                ls_spec_bd(*self, solution@) == ls_spec_bd(*self, init@),
                solution@ == init@ || fitness_bd(*self, solution@) < fitness_bd(*self, init@),
            decreases eval_first + 280500000,
        {
            let ghost base = solution@;
            let mut i: usize = 0;
            while i < size
                invariant
                    self.wf(),
                    valid_solution(*self, base),
                    base.len() == size,
                    1 <= size <= 11,
                    pool_size == self.pool@.len(),
                    pool_size <= 127,
                    solution@ == base,
                    i <= size,
                    eval_first as int == fitness_bd(*self, base),
                    eval_first <= 276,
                    1 <= pool_size,
                    eval_better as int == scan_best_bd(*self, base, i as int * pool_size as int).1,
                    eval_better < i32::MAX ==> better@ == scan_best_bd(
                        *self,
                        base,
                        i as int * pool_size as int,
                    ).0,
                    eval_better == i32::MAX || (better@.len() == size && valid_solution(
                        *self,
                        better@,
                    ) && eval_better as int == fitness_bd(*self, better@)),
                    forall|i2: int, j2: int|
                        #![trigger base.update(i2, j2 as i8)]
                        0 <= i2 < i && 1 <= j2 <= pool_size ==> fitness_bd(
                            *self,
                            base.update(i2, j2 as i8),
                        ) >= eval_better as int,
                decreases size - i,
            {
                let mut j: usize = 1;
                while j <= pool_size
                    invariant
                        self.wf(),
                        valid_solution(*self, base),
                        base.len() == size,
                        1 <= size <= 11,
                        pool_size == self.pool@.len(),
                        pool_size <= 127,
                        solution@ == base,
                        i < size,
                        1 <= j <= pool_size + 1,
                        eval_first as int == fitness_bd(*self, base),
                        eval_first <= 276,
                        1 <= pool_size,
                        eval_better as int == scan_best_bd(
                            *self,
                            base,
                            i as int * pool_size as int + j as int - 1,
                        ).1,
                        eval_better < i32::MAX ==> better@ == scan_best_bd(
                            *self,
                            base,
                            i as int * pool_size as int + j as int - 1,
                        ).0,
                        eval_better == i32::MAX || (better@.len() == size && valid_solution(
                            *self,
                            better@,
                        ) && eval_better as int == fitness_bd(*self, better@)),
                        forall|i2: int, j2: int|
                            #![trigger base.update(i2, j2 as i8)]
                            0 <= i2 < i && 1 <= j2 <= pool_size ==> fitness_bd(
                                *self,
                                base.update(i2, j2 as i8),
                            ) >= eval_better as int,
                        forall|j2: int|
                            #![trigger base.update(i as int, j2 as i8)]
                            1 <= j2 < j ==> fitness_bd(*self, base.update(i as int, j2 as i8))
                                >= eval_better as int,
                    decreases pool_size + 1 - j,
                {
                    let prev = solution[i];
                    let cand: i8 = j as i8;
                    solution.set(i, cand);
                    proof {
                        assert(solution@ =~= base.update(i as int, cand));
                        assert forall|q: int| 0 <= q < solution@.len() implies 1
                            <= #[trigger] solution@[q] <= self.pool@.len() by {
                            if q != i as int {
                                assert(solution@[q] == base[q]);
                            }
                        }
                        lemma_fitness_bounds(*self, solution@);
                        let p = pool_size as int;
                        let m = i as int * p + j as int - 1;
                        vstd::arithmetic::div_mod::lemma_fundamental_div_mod_converse_div(
                            m,
                            p,
                            i as int,
                            j as int - 1,
                        );
                        vstd::arithmetic::div_mod::lemma_fundamental_div_mod_converse_mod(
                            m,
                            p,
                            i as int,
                            j as int - 1,
                        );
                        assert(scan_cand(base, p, m) =~= solution@);
                    }
                    let et = self.evaluate_bd(&solution).1;
                    if et < eval_better {
                        better = copy_keys(&solution);
                        eval_better = et;
                    }
                    proof {
                        let p = pool_size as int;
                        let m = i as int * p + j as int - 1;
                        assert(eval_better as int == scan_best_bd(*self, base, m + 1).1);
                    }
                    solution.set(i, prev);
                    proof {
                        assert(base[i as int] == prev);
                        assert(solution@ =~= base);
                    }
                    j += 1;
                }
                proof {
                    assert(i as int * pool_size as int + pool_size as int == (i as int + 1)
                        * pool_size as int) by (nonlinear_arith);
                }
                i += 1;
            }
            proof {
                let n = size as int * pool_size as int;
                lemma_scan_best_bd(*self, base, n);
            }
            if eval_better < eval_first {
                proof {
                    assert(ls_spec_bd(*self, base) == ls_spec_bd(*self, better@));
                }
                solution = better;
                eval_first = eval_better;
                better = Vec::new();
                eval_better = i32::MAX;
                proof {
                    lemma_fitness_bounds(*self, solution@);
                }
            } else {
                proof {
                    assert(ls_spec_bd(*self, base) == base);
                }
                return solution;
            }
        }
    }

    /// Overwrite up to three random slots (fewer for shorter solutions)
    /// with random champion keys, to escape the current basin.
    fn perturb(&self, solution: &mut Vec<i8>, src: &mut RandSource)
        requires
            self.wf(),
            valid_solution(*self, old(solution)@),
            1 <= old(solution)@.len() <= 11,
        ensures
            final(solution)@.len() == old(solution)@.len(),
            valid_solution(*self, final(solution)@),
    {
        let len = solution.len();
        proof {
            assert(1 <= old(solution)@[0] <= self.pool@.len());
        }
        let strength: usize = if len < 3 {
            len
        } else {
            3
        };
        let mut c: usize = 0;
        while c < strength
            invariant
                self.wf(),
                solution@.len() == len,
                1 <= len <= 11,
                valid_solution(*self, solution@),
                1 <= self.pool@.len() <= 127,
                c <= strength,
            decreases strength - c,
        {
            let i = src.next_in(0, len - 1);
            let j = src.next_in(1, self.pool.len());
            let ghost before = solution@;
            solution.set(i, j as i8);
            proof {
                assert forall|q: int| 0 <= q < solution@.len() implies 1 <= #[trigger] solution@[q]
                    <= self.pool@.len() by {
                    if q != i as int {
                        assert(solution@[q] == before[q]);
                    }
                }
            }
            c += 1;
        }
    }

    /// Maximize-mode iterated local search with the system random source.
    ///
    /// Whatever the random draws, the returned best-ever solution is a
    /// local optimum and scores at least as well as the round-1 converged
    /// solution `ls_spec_max(self, init)`.
    pub fn ils(&self, init: &Vec<i8>) -> (r: Vec<i8>)
        requires
            self.wf(),
            valid_solution(*self, init@),
            1 <= init@.len() <= 11,
        ensures
            r@.len() == init@.len(),
            valid_solution(*self, r@),
            fitness_max(*self, r@) >= fitness_max(*self, init@),
            fitness_max(*self, r@) >= fitness_max(*self, ls_spec_max(*self, init@)),
            local_opt_max(*self, r@),
    {
        let mut src = RandSource::system();
        self.ils_with(init, &mut src)
    }

    /// Maximize-mode iterated local search with an injectable random
    /// source.
    pub fn ils_with(&self, init: &Vec<i8>, src: &mut RandSource) -> (r: Vec<i8>)
        requires
            self.wf(),
            valid_solution(*self, init@),
            1 <= init@.len() <= 11,
        ensures
            r@.len() == init@.len(),
            valid_solution(*self, r@),
            fitness_max(*self, r@) >= fitness_max(*self, init@),
            fitness_max(*self, r@) >= fitness_max(*self, ls_spec_max(*self, init@)),
            local_opt_max(*self, r@),
    {
        let first = self.local_search(init);
        let r = self.ils_resume(init, &first, src);
        proof {
            if r@ == init@ {
                assert(fitness_max(*self, first@) == fitness_max(*self, init@));
                assert(local_opt_max(*self, init@));
            }
        }
        r
    }

    /// The rounds of maximize-mode iterated local search that follow the
    /// first convergence, which the caller passes in as `first` (a local
    /// optimum, normally the result of [`Game::local_search`] on `init`).
    ///
    /// The returned best-ever solution scores at least as well as `first`
    /// and as `init`, and is `init` itself or a local optimum.
    pub fn ils_resume(&self, init: &Vec<i8>, first: &Vec<i8>, src: &mut RandSource) -> (r: Vec<
        i8,
    >)
        requires
            self.wf(),
            valid_solution(*self, init@),
            valid_solution(*self, first@),
            first@.len() == init@.len(),
            1 <= init@.len() <= 11,
            local_opt_max(*self, first@),
        ensures
            r@.len() == init@.len(),
            valid_solution(*self, r@),
            fitness_max(*self, r@) >= fitness_max(*self, first@),
            fitness_max(*self, r@) >= fitness_max(*self, init@),
            r@ == init@ || local_opt_max(*self, r@),
    {
        let mut best = copy_keys(init);
        let mut eval_best: i32 = self.evaluate(init).1;
        let mut solution = copy_keys(first);
        let e1 = self.evaluate(first).1;
        if eval_best < e1 {
            best = copy_keys(first);
            eval_best = e1;
        }
        self.perturb(&mut solution, src);
        let mut round: usize = 1;
        while round < 500
            invariant
                self.wf(),
                valid_solution(*self, best@),
                best@.len() == init@.len(),
                valid_solution(*self, solution@),
                solution@.len() == init@.len(),
                1 <= init@.len() <= 11,
                eval_best as int == fitness_max(*self, best@),
                fitness_max(*self, best@) >= fitness_max(*self, init@),
                fitness_max(*self, best@) >= fitness_max(*self, first@),
                local_opt_max(*self, first@),
                best@ == init@ || local_opt_max(*self, best@),
                round <= 500,
            decreases 500 - round,
        {
            solution = self.local_search(&solution);
            let e = self.evaluate(&solution).1;
            if eval_best < e {
                best = copy_keys(&solution);
                eval_best = e;
            }
            self.perturb(&mut solution, src);
            round += 1;
        }
        best
    }

    /// Minimize-penalty iterated local search with the system random
    /// source.
    ///
    /// Whatever the random draws, the returned best-ever solution is a
    /// local optimum and scores no worse than the round-1 converged
    /// solution `ls_spec_bd(self, init)`.
    pub fn ils_bd(&self, init: &Vec<i8>) -> (r: Vec<i8>)
        requires
            self.wf(),
            valid_solution(*self, init@),
            1 <= init@.len() <= 11,
        ensures
            r@.len() == init@.len(),
            valid_solution(*self, r@),
            fitness_bd(*self, r@) <= fitness_bd(*self, init@),
            fitness_bd(*self, r@) <= fitness_bd(*self, ls_spec_bd(*self, init@)),
            local_opt_bd(*self, r@),
    {
        let mut src = RandSource::system();
        self.ils_bd_with(init, &mut src)
    }

    /// Minimize-penalty iterated local search with an injectable random
    /// source.
    pub fn ils_bd_with(&self, init: &Vec<i8>, src: &mut RandSource) -> (r: Vec<i8>)
        requires
            self.wf(),
            valid_solution(*self, init@),
            1 <= init@.len() <= 11,
        ensures
            r@.len() == init@.len(),
            valid_solution(*self, r@),
            fitness_bd(*self, r@) <= fitness_bd(*self, init@),
            fitness_bd(*self, r@) <= fitness_bd(*self, ls_spec_bd(*self, init@)),
            local_opt_bd(*self, r@),
    {
        let first = self.local_search_bd(init);
        let r = self.ils_bd_resume(init, &first, src);
        proof {
            if r@ == init@ {
                assert(fitness_bd(*self, first@) == fitness_bd(*self, init@));
                assert(local_opt_bd(*self, init@));
            }
        }
        r
    }

    /// The rounds of minimize-penalty iterated local search that follow the
    /// first convergence; the returned best-ever solution scores no worse
    /// than either `first` or `init`.
    pub fn ils_bd_resume(&self, init: &Vec<i8>, first: &Vec<i8>, src: &mut RandSource) -> (r: Vec<
        i8,
    >)
        requires
            self.wf(),
            valid_solution(*self, init@),
            valid_solution(*self, first@),
            first@.len() == init@.len(),
            1 <= init@.len() <= 11,
            local_opt_bd(*self, first@),
        ensures
            r@.len() == init@.len(),
            valid_solution(*self, r@),
            fitness_bd(*self, r@) <= fitness_bd(*self, first@),
            fitness_bd(*self, r@) <= fitness_bd(*self, init@),
            r@ == init@ || local_opt_bd(*self, r@),
    {
        let mut best = copy_keys(init);
        let mut eval_best: i32 = self.evaluate_bd(init).1;
        let mut solution = copy_keys(first);
        let e1 = self.evaluate_bd(first).1;
        if eval_best > e1 {
            best = copy_keys(first);
            eval_best = e1;
        }
        self.perturb(&mut solution, src);
        let mut round: usize = 1;
        while round < 500
            invariant
                self.wf(),
                valid_solution(*self, best@),
                best@.len() == init@.len(),
                valid_solution(*self, solution@),
                solution@.len() == init@.len(),
                1 <= init@.len() <= 11,
                eval_best as int == fitness_bd(*self, best@),
                fitness_bd(*self, best@) <= fitness_bd(*self, init@),
                fitness_bd(*self, best@) <= fitness_bd(*self, first@),
                local_opt_bd(*self, first@),
                best@ == init@ || local_opt_bd(*self, best@),
                round <= 500,
            decreases 500 - round,
        {
            solution = self.local_search_bd(&solution);
            let e = self.evaluate_bd(&solution).1;
            if eval_best > e {
                best = copy_keys(&solution);
                eval_best = e;
            }
            self.perturb(&mut solution, src);
            round += 1;
        }
        best
    }

    /// One full search: build an initial solution of `num_champs` random
    /// keys, run the mode-appropriate iterated local search, and return
    /// the final solution (a local optimum in the mode's direction), its
    /// primary metric, and its trait breakdown.
    pub fn search(&self, num_champs: usize, src: &mut RandSource) -> (r: (Vec<i8>, i32, Vec<(
        i8,
        i8,
    )>))
        requires
            self.wf(),
            1 <= num_champs <= 11,
            1 <= self.pool@.len(),
        ensures
            r.0@.len() == num_champs,
            valid_solution(*self, r.0@),
            self.mode == Mode::Maximize ==> r.1 as int == primary_max(*self, r.0@),
            self.mode == Mode::MinimizePenalty ==> r.1 as int == primary_bd(*self, r.0@),
            r.2@ == trait_breakdown(*self, r.0@, self.traits@.len() as int + 1),
            self.mode == Mode::Maximize ==> local_opt_max(*self, r.0@),
            self.mode == Mode::MinimizePenalty ==> local_opt_bd(*self, r.0@),
    {
        let mut init: Vec<i8> = Vec::new();
        let mut c: usize = 0;
        while c < num_champs
            invariant
                c <= num_champs,
                init@.len() == c,
                1 <= self.pool@.len() <= 127,
                forall|q: int| 0 <= q < c ==> 1 <= (#[trigger] init@[q]) <= self.pool@.len(),
            decreases num_champs - c,
        {
            let k = src.next_in(1, self.pool.len());
            init.push(k as i8);
            c += 1;
        }
        let sol = match self.mode {
            Mode::Maximize => self.ils_with(&init, src),
            Mode::MinimizePenalty => self.ils_bd_with(&init, src),
        };
        let primary = match self.mode {
            Mode::Maximize => self.evaluate(&sol).0,
            Mode::MinimizePenalty => self.evaluate_bd(&sol).0,
        };
        let breakdown = self.get_traits(&sol);
        (sol, primary, breakdown)
    }
}

} // verus!
