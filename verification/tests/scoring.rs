use team_solver::catalog::{Champion, Game, LoadError, Mode, Trait};

fn champ(id: &str, tier: u8, traits: Vec<i8>) -> Champion {
    Champion { id: id.to_string(), tier, traits }
}

fn tdef(name: &str, min: i8) -> Trait {
    Trait { name: name.to_string(), min }
}

/// Two traits (`A`: min 2, `B`: min 1) and three champions: 1 carries [A],
/// 2 carries [A, B], 3 carries [B].
fn small_catalog(high_tier: bool, mode: Mode) -> Game {
    let champions = vec![
        (1, champ("one", 1, vec![1])),
        (2, champ("two", 2, vec![1, 2])),
        (3, champ("three", 1, vec![2])),
    ];
    let traitdefs = vec![(1, tdef("A", 2)), (2, tdef("B", 1))];
    Game::load(champions, traitdefs, high_tier, mode, 1, 1).unwrap()
}

/// Two champions with large tiers and no traits at all.
fn tier_catalog(mode: Mode, coef_num: u32, coef_den: u32) -> Game {
    let champions = vec![(1, champ("nine", 9, vec![])), (2, champ("eight", 8, vec![]))];
    Game::load(champions, vec![], true, mode, coef_num, coef_den).unwrap()
}

#[test]
fn maximize_scenario_both_thresholds_met() {
    let g = small_catalog(false, Mode::Maximize);
    let (primary, fitness) = g.evaluate(&vec![1, 2]);
    assert_eq!(primary, 2);
    assert_eq!(fitness, 2);
}

#[test]
fn minimize_scenario_duplicate_and_traits_penalized() {
    let g = small_catalog(false, Mode::MinimizePenalty);
    let (primary, fitness) = g.evaluate_bd(&vec![1, 1, 2]);
    assert_eq!(primary, 3);
    assert_eq!(fitness, 6);
}

#[test]
fn rescoring_yields_identical_pair() {
    let g = small_catalog(false, Mode::Maximize);
    let sol = vec![2, 3, 2, 1];
    assert_eq!(g.evaluate(&sol), g.evaluate(&sol));
    assert_eq!(g.evaluate_bd(&sol), g.evaluate_bd(&sol));
}

#[test]
fn duplicate_keys_tally_traits_once() {
    let g = small_catalog(false, Mode::Maximize);
    // Champion 2 alone meets B (min 1) but not A (min 2); repeating it must
    // not push A over its threshold.
    assert_eq!(g.evaluate(&vec![2]).0, 1);
    assert_eq!(g.evaluate(&vec![2, 2]).0, 1);
    assert_eq!(g.evaluate(&vec![2, 2, 2]).0, 1);
    assert_eq!(g.get_traits(&vec![2, 2]), g.get_traits(&vec![2]));
}

#[test]
fn adding_a_helpful_item_never_lowers_the_score() {
    let g = small_catalog(false, Mode::Maximize);
    let (p1, f1) = g.evaluate(&vec![1]);
    let (p2, f2) = g.evaluate(&vec![1, 2]);
    assert!(p2 >= p1);
    assert!(f2 >= f1);
}

#[test]
fn tier_sum_counts_every_slot() {
    // Duplicates are deduplicated for traits but their tiers still add up.
    let g = tier_catalog(Mode::Maximize, 1, 1);
    // [1, 1]: tier sum 18, bonus 18 / 5 = 3, no traits so primary 0.
    assert_eq!(g.evaluate(&vec![1, 1]), (0, 3));
}

#[test]
fn maximize_tier_bonus_formula() {
    let g = tier_catalog(Mode::Maximize, 3, 2);
    // Tier sum 17, bonus floor(17 * 3 / (5 * 2)) = 5, primary 0.
    assert_eq!(g.evaluate(&vec![1, 2]), (0, 5));
}

#[test]
fn minimize_rewards_a_clean_solution() {
    let g = tier_catalog(Mode::MinimizePenalty, 3, 2);
    // No duplicates and no traits: primary 0, reward floor(51 / 20) = 2.
    assert_eq!(g.evaluate_bd(&vec![1, 2]), (0, -2));
    // With tiers disabled the clean fitness is plain zero.
    let champions = vec![(1, champ("nine", 9, vec![])), (2, champ("eight", 8, vec![]))];
    let g2 = Game::load(champions, vec![], false, Mode::MinimizePenalty, 3, 2).unwrap();
    assert_eq!(g2.evaluate_bd(&vec![1, 2]), (0, 0));
}

#[test]
fn trait_breakdown_lists_tallied_tags_in_order() {
    let g = small_catalog(false, Mode::Maximize);
    assert_eq!(g.get_traits(&vec![1, 2]), vec![(1, 2), (2, 1)]);
    assert_eq!(g.get_traits(&vec![3]), vec![(2, 1)]);
    assert_eq!(g.get_traits(&vec![3, 3, 3]), vec![(2, 1)]);
}

#[test]
fn load_accepts_dense_tables() {
    let g = small_catalog(true, Mode::Maximize);
    assert_eq!(g.pool.len(), 3);
    assert_eq!(g.traits.len(), 2);
    assert_eq!(g.pool[1].id, "two");
    assert_eq!(g.traits[0].name, "A");
    assert!(g.high_tier);
}

#[test]
fn load_rejects_oversized_tables() {
    let mut champions = Vec::new();
    for _ in 0..128 {
        champions.push((1, champ("x", 1, vec![])));
    }
    assert!(matches!(
        Game::load(champions, vec![], false, Mode::Maximize, 1, 1),
        Err(LoadError::TooLarge)
    ));
}

#[test]
fn load_rejects_a_zero_denominator() {
    let champions = vec![(1, champ("x", 1, vec![]))];
    assert!(matches!(
        Game::load(champions, vec![], false, Mode::Maximize, 1, 0),
        Err(LoadError::BadCoefficient)
    ));
}

#[test]
fn load_rejects_an_oversized_numerator() {
    let champions = vec![(1, champ("x", 1, vec![]))];
    assert!(matches!(
        Game::load(champions, vec![], false, Mode::Maximize, 1000001, 1),
        Err(LoadError::BadCoefficient)
    ));
}

#[test]
fn load_rejects_duplicate_champion_keys() {
    let champions = vec![(1, champ("x", 1, vec![])), (1, champ("y", 1, vec![]))];
    assert!(matches!(
        Game::load(champions, vec![], false, Mode::Maximize, 1, 1),
        Err(LoadError::BadChampionKey)
    ));
}

#[test]
fn load_rejects_a_gap_in_champion_keys() {
    let champions = vec![(1, champ("x", 1, vec![])), (3, champ("y", 1, vec![]))];
    assert!(matches!(
        Game::load(champions, vec![], false, Mode::Maximize, 1, 1),
        Err(LoadError::BadChampionKey)
    ));
}

#[test]
fn load_rejects_sparse_trait_keys() {
    let champions = vec![(1, champ("x", 1, vec![]))];
    let traitdefs = vec![(2, tdef("A", 1))];
    assert!(matches!(
        Game::load(champions, traitdefs, false, Mode::Maximize, 1, 1),
        Err(LoadError::BadTraitKey)
    ));
}

#[test]
fn load_rejects_an_unknown_tag() {
    let champions = vec![(1, champ("x", 1, vec![5]))];
    let traitdefs = vec![(1, tdef("A", 1))];
    assert!(matches!(
        Game::load(champions, traitdefs, false, Mode::Maximize, 1, 1),
        Err(LoadError::BadTraitTag)
    ));
}

#[test]
fn load_rejects_a_repeated_tag() {
    let champions = vec![(1, champ("x", 1, vec![1, 1]))];
    let traitdefs = vec![(1, tdef("A", 1))];
    assert!(matches!(
        Game::load(champions, traitdefs, false, Mode::Maximize, 1, 1),
        Err(LoadError::BadTraitTag)
    ));
}

#[test]
fn load_arranges_entries_given_in_any_order() {
    let champions = vec![
        (3, champ("three", 1, vec![2])),
        (1, champ("one", 1, vec![1])),
        (2, champ("two", 2, vec![1, 2])),
    ];
    let traitdefs = vec![(2, tdef("B", 1)), (1, tdef("A", 2))];
    let g = Game::load(champions, traitdefs, false, Mode::Maximize, 1, 1).unwrap();
    assert_eq!(g.pool[0].id, "one");
    assert_eq!(g.pool[2].id, "three");
    assert_eq!(g.traits[1].name, "B");
    assert_eq!(g.evaluate(&vec![1, 2]), (2, 2));
}

#[test]
fn new_catalog_is_empty_with_defaults() {
    let g = Game::new();
    assert_eq!(g.pool.len(), 0);
    assert_eq!(g.traits.len(), 0);
    assert!(!g.high_tier);
    assert!(matches!(g.mode, Mode::Maximize));
    assert_eq!(g.coef_num, 1);
    assert_eq!(g.coef_den, 1);
}

#[test]
fn empty_solution_scores_zero() {
    let g = small_catalog(true, Mode::Maximize);
    assert_eq!(g.evaluate(&vec![]), (0, 0));
    assert_eq!(g.evaluate_bd(&vec![]), (0, 0));
    assert_eq!(g.get_traits(&vec![]), vec![]);
}

#[test]
fn largest_team_size_is_scored() {
    let g = small_catalog(false, Mode::Maximize);
    let sol = vec![1, 2, 3, 1, 2, 3, 1, 2, 3, 1, 2];
    assert_eq!(g.evaluate(&sol).0, 2);
    let penalties = g.evaluate_bd(&sol).0;
    // Eight repeated slots plus two active traits.
    assert_eq!(penalties, 10);
}
