use team_solver::catalog::{Champion, Game, Mode, Trait};
use team_solver::rng::RandSource;

fn champ(id: &str, tier: u8, traits: Vec<i8>) -> Champion {
    Champion { id: id.to_string(), tier, traits }
}

fn tdef(name: &str, min: i8) -> Trait {
    Trait { name: name.to_string(), min }
}

fn small_catalog(mode: Mode) -> Game {
    let champions = vec![
        (1, champ("one", 1, vec![1])),
        (2, champ("two", 2, vec![1, 2])),
        (3, champ("three", 1, vec![2])),
    ];
    let traitdefs = vec![(1, tdef("A", 2)), (2, tdef("B", 1))];
    Game::load(champions, traitdefs, false, mode, 1, 1).unwrap()
}

#[test]
fn local_search_never_returns_worse() {
    let g = small_catalog(Mode::Maximize);
    let init = vec![1, 1];
    let r = g.local_search(&init);
    assert!(g.evaluate(&r).1 >= g.evaluate(&init).1);
}

#[test]
fn local_search_finds_the_best_pair() {
    let g = small_catalog(Mode::Maximize);
    // Length-2 solutions top out at fitness 2 ([1, 2] meets A and B); one
    // substitution from [1, 1] reaches it, so local search must too.
    let r = g.local_search(&vec![1, 1]);
    assert_eq!(g.evaluate(&r).1, 2);
}

#[test]
fn local_search_bd_removes_penalties() {
    let g = small_catalog(Mode::MinimizePenalty);
    let init = vec![1, 1, 2];
    let r = g.local_search_bd(&init);
    assert!(g.evaluate_bd(&r).1 <= g.evaluate_bd(&init).1);
}

#[test]
fn single_item_pool_returns_input_unchanged() {
    // One champion, no traits: every neighbor equals the input, so local
    // search stops after one pass without changing anything.
    let champions = vec![(1, champ("only", 1, vec![]))];
    let g = Game::load(champions, vec![], false, Mode::Maximize, 1, 1).unwrap();
    assert_eq!(g.local_search(&vec![1]), vec![1]);
    assert_eq!(g.local_search_bd(&vec![1]), vec![1]);
}

#[test]
fn ils_result_no_worse_than_first_convergence() {
    let g = small_catalog(Mode::Maximize);
    let init = vec![3, 3];
    let first = g.local_search(&init);
    let mut src = RandSource::from_script(vec![4, 17, 0, 2, 9, 1, 6, 3]);
    let best = g.ils_resume(&init, &first, &mut src);
    assert!(g.evaluate(&best).1 >= g.evaluate(&first).1);
    assert!(g.evaluate(&best).1 >= g.evaluate(&init).1);
}

#[test]
fn ils_bd_result_no_worse_than_input() {
    let g = small_catalog(Mode::MinimizePenalty);
    let init = vec![2, 2, 2];
    let mut src = RandSource::from_script(vec![5, 12, 7, 1, 3]);
    let best = g.ils_bd_with(&init, &mut src);
    assert!(g.evaluate_bd(&best).1 <= g.evaluate_bd(&init).1);
}

#[test]
fn scripted_ils_is_deterministic() {
    let g = small_catalog(Mode::Maximize);
    let init = vec![1, 3];
    let mut a = RandSource::from_script(vec![8, 2, 5, 11, 0, 7]);
    let mut b = RandSource::from_script(vec![8, 2, 5, 11, 0, 7]);
    assert_eq!(g.ils_with(&init, &mut a), g.ils_with(&init, &mut b));
}

#[test]
fn ils_with_system_source_stays_valid() {
    let g = small_catalog(Mode::Maximize);
    let init = vec![1, 1, 1];
    let r = g.ils(&init);
    assert_eq!(r.len(), 3);
    for &k in r.iter() {
        assert!(1 <= k && k <= 3);
    }
    assert!(g.evaluate(&r).1 >= g.evaluate(&init).1);
}

#[test]
fn search_reports_the_primary_and_breakdown_of_its_solution() {
    let g = small_catalog(Mode::Maximize);
    let mut src = RandSource::from_script(vec![1, 4, 0, 2, 6, 3, 5, 9]);
    let (sol, primary, breakdown) = g.search(2, &mut src);
    assert_eq!(sol.len(), 2);
    assert_eq!(primary, g.evaluate(&sol).0);
    assert_eq!(breakdown, g.get_traits(&sol));
}

#[test]
fn search_in_minimize_mode_uses_the_penalty_metric() {
    let g = small_catalog(Mode::MinimizePenalty);
    let mut src = RandSource::from_script(vec![0, 3, 1, 8, 2]);
    let (sol, primary, _breakdown) = g.search(3, &mut src);
    assert_eq!(sol.len(), 3);
    assert_eq!(primary, g.evaluate_bd(&sol).0);
}

#[test]
fn scripted_source_reduces_values_into_the_range() {
    let mut src = RandSource::from_script(vec![7, 3]);
    // 0..=4 spans 5 values: 7 % 5 = 2.
    assert_eq!(src.next_in(0, 4), 2);
    // 1..=3 spans 3 values: 1 + 3 % 3 = 1.
    assert_eq!(src.next_in(1, 3), 1);
    // The script is exhausted: draws fall to the low bound.
    assert_eq!(src.next_in(2, 9), 2);
}

#[test]
fn system_source_honors_the_bounds() {
    let mut src = RandSource::system();
    assert_eq!(src.next_in(5, 5), 5);
    for _ in 0..50 {
        let v = src.next_in(3, 4);
        assert!(v == 3 || v == 4);
    }
}

#[test]
fn local_search_is_deterministic() {
    let g = small_catalog(Mode::Maximize);
    assert_eq!(g.local_search(&vec![3, 1, 3]), g.local_search(&vec![3, 1, 3]));
    let gb = small_catalog(Mode::MinimizePenalty);
    assert_eq!(gb.local_search_bd(&vec![2, 2]), gb.local_search_bd(&vec![2, 2]));
}

#[test]
fn search_seeds_each_slot_independently() {
    let g = small_catalog(Mode::Maximize);
    // Scripted draws 0, 1, 2 over keys 1..=3 give the seed [1, 2, 3]; the
    // remaining draws feed the rounds.  The reported metrics must match
    // the returned solution whatever those rounds did.
    let mut src = RandSource::from_script(vec![0, 1, 2, 5, 4, 3, 2, 1, 0]);
    let (sol, primary, breakdown) = g.search(3, &mut src);
    assert_eq!(sol.len(), 3);
    assert_eq!(primary, g.evaluate(&sol).0);
    assert_eq!(breakdown, g.get_traits(&sol));
}
