use rand::rngs::StdRng;
use rand::{Rng, SeedableRng};
use rpgpr::chance::{Chance, ChanceKind, Pool, PoolEntry, Weighting, Weightings};

fn pool_of(entries: &[(usize, u64)]) -> Pool {
    let mut pool = Pool::new();
    for (id, weight) in entries {
        pool.insert(*id, *weight);
    }
    pool
}

#[test]
fn empty_pool_draws_nothing_for_any_ticket() {
    let pool = Pool::new();
    assert!(pool.is_empty());
    assert_eq!(pool.span(), 0);
    for ticket in [0u128, 1, 2, 7, 1000, u128::MAX] {
        assert_eq!(pool.draw(ticket), None);
    }
}

#[test]
fn empty_weighting_weighs_nothing_on_every_call() {
    let weighting = Weighting::new(500, 500, ChanceKind::LOOT, Pool::new());
    for _ in 0..1000 {
        assert_eq!(weighting.weigh(), None);
    }
    assert_eq!(Weighting::default().weigh(), None);
}

#[test]
fn entries_are_listed_by_ascending_identifier() {
    let pool = pool_of(&[(7, 1), (2, 5), (9, 0), (4, 3)]);
    assert_eq!(pool.len(), 4);
    assert_eq!(pool.entry(0), Some(PoolEntry { id: 2, weight: 5 }));
    assert_eq!(pool.entry(1), Some(PoolEntry { id: 4, weight: 3 }));
    assert_eq!(pool.entry(2), Some(PoolEntry { id: 7, weight: 1 }));
    assert_eq!(pool.entry(3), Some(PoolEntry { id: 9, weight: 0 }));
    assert_eq!(pool.entry(4), None);
}

#[test]
fn insert_replaces_the_weight_and_returns_the_old_one() {
    let mut pool = Pool::new();
    assert_eq!(pool.insert(3, 10), None);
    assert_eq!(pool.insert(1, 20), None);
    assert_eq!(pool.insert(3, 30), Some(10));
    assert_eq!(pool.len(), 2);
    assert_eq!(pool.get(3), Some(30));
    assert_eq!(pool.get(1), Some(20));
    assert_eq!(pool.get(2), None);
    assert_eq!(pool.total(), 50);
}

#[test]
fn total_and_span_of_a_weighted_pool() {
    let pool = pool_of(&[(1, 10), (2, 30)]);
    assert_eq!(pool.total(), 40);
    assert_eq!(pool.span(), 40);
}

#[test]
fn total_holds_the_sum_of_the_largest_weights() {
    let pool = pool_of(&[(1, u64::MAX), (2, u64::MAX), (3, u64::MAX)]);
    assert_eq!(pool.total(), 3 * (u64::MAX as u128));
    assert_eq!(pool.draw(u64::MAX as u128 - 1), Some(1));
    assert_eq!(pool.draw(u64::MAX as u128), Some(2));
    assert_eq!(pool.draw(3 * (u64::MAX as u128) - 1), Some(3));
}

#[test]
fn each_ticket_falls_to_the_entry_whose_slice_holds_it() {
    let pool = pool_of(&[(2, 30), (1, 10)]);
    assert_eq!(pool.draw(0), Some(1));
    assert_eq!(pool.draw(9), Some(1));
    assert_eq!(pool.draw(10), Some(2));
    assert_eq!(pool.draw(15), Some(2));
    assert_eq!(pool.draw(39), Some(2));
}

#[test]
fn tickets_beyond_the_span_wrap_around() {
    let pool = pool_of(&[(1, 10), (2, 30)]);
    assert_eq!(pool.draw(40), Some(1));
    assert_eq!(pool.draw(49), Some(1));
    assert_eq!(pool.draw(50), Some(2));
    assert_eq!(pool.draw(80 + 9), Some(1));
}

#[test]
fn an_entry_without_weight_is_never_drawn_from_a_weighted_pool() {
    let pool = pool_of(&[(1, 0), (2, 3), (3, 0), (4, 2)]);
    for ticket in 0..5u128 {
        let drawn = pool.draw(ticket).unwrap();
        assert!(drawn == 2 || drawn == 4);
    }
    assert_eq!(pool.draw(2), Some(2));
    assert_eq!(pool.draw(3), Some(4));
}

#[test]
fn a_pool_without_any_weight_is_drawn_from_uniformly() {
    let pool = pool_of(&[(5, 0), (6, 0), (7, 0)]);
    assert_eq!(pool.total(), 0);
    assert_eq!(pool.span(), 3);
    assert_eq!(pool.draw(0), Some(5));
    assert_eq!(pool.draw(1), Some(6));
    assert_eq!(pool.draw(2), Some(7));
    assert_eq!(pool.draw(3), Some(5));
}

#[test]
fn equal_weights_give_every_entry_the_same_number_of_tickets() {
    let pool = pool_of(&[(10, 25), (20, 25), (30, 25), (40, 25)]);
    let mut counts = [0u32; 4];
    for ticket in 0..100u128 {
        let drawn = pool.draw(ticket).unwrap();
        assert_eq!(drawn, pool.entry((ticket / 25) as usize).unwrap().id);
        counts[drawn / 10 - 1] += 1;
    }
    assert_eq!(counts, [25, 25, 25, 25]);
}

#[test]
fn repeated_draws_from_equal_weights_approach_a_uniform_distribution() {
    let weighting = Weighting::new(0, 0, ChanceKind::LOOT, pool_of(&[(0, 7), (1, 7), (2, 7), (3, 7)]));
    let trials = 40_000;
    let mut counts = [0u32; 4];
    for _ in 0..trials {
        counts[weighting.weigh().unwrap()] += 1;
    }
    for count in counts {
        assert!(count > 9_000 && count < 11_000, "count {} is far from 10000", count);
    }
}

#[test]
fn repeated_draws_follow_the_weights() {
    let weighting = Weighting::new(0, 0, ChanceKind::ENEMY, pool_of(&[(0, 1), (1, 3)]));
    let trials = 40_000;
    let mut heavy = 0u32;
    for _ in 0..trials {
        if weighting.weigh().unwrap() == 1 {
            heavy += 1;
        }
    }
    assert!(heavy > 28_500 && heavy < 31_500, "count {} is far from 30000", heavy);
}

#[test]
fn a_random_draw_is_always_an_identifier_of_the_pool() {
    let weighting = Weighting::new(0, 0, ChanceKind::LOOT, pool_of(&[(11, 2), (42, 0), (7, 9), (1000, 1)]));
    for _ in 0..5_000 {
        let drawn = weighting.weigh().unwrap();
        assert!(weighting.pool.get(drawn).is_some());
        assert_ne!(drawn, 42);
    }
}

#[test]
fn random_draws_reach_every_entry_with_weight() {
    let weighting = Weighting::new(0, 0, ChanceKind::LOOT, pool_of(&[(1, 1), (2, 1)]));
    let mut seen = [false; 2];
    for _ in 0..2_000 {
        seen[weighting.weigh().unwrap() - 1] = true;
    }
    assert_eq!(seen, [true, true]);
}

#[test]
fn weigh_with_names_the_owner_of_the_ticket() {
    let weighting = Weighting::new(250, 750, ChanceKind::LOOT, pool_of(&[(3, 2), (8, 2)]));
    assert_eq!(weighting.kind, ChanceKind::LOOT);
    assert_eq!(weighting.chance, Chance { success: 250, failure: 750 });
    assert_eq!(weighting.weigh_with(0), Some(3));
    assert_eq!(weighting.weigh_with(1), Some(3));
    assert_eq!(weighting.weigh_with(2), Some(8));
    assert_eq!(weighting.weigh_with(3), Some(8));
    assert_eq!(Weighting::default().weigh_with(3), None);
}

#[test]
fn a_copy_of_a_weighting_draws_as_the_original() {
    let weighting = Weighting::new(1, 2, ChanceKind::ENEMY, pool_of(&[(3, 2), (8, 5), (9, 1)]));
    let copy = weighting.clone();
    assert_eq!(copy.kind, ChanceKind::ENEMY);
    assert_eq!(copy.pool.len(), 3);
    for ticket in 0..8u128 {
        assert_eq!(copy.weigh_with(ticket), weighting.weigh_with(ticket));
    }
}

#[test]
fn the_encounter_weighting_is_the_first_of_loot_or_enemies() {
    let list = Weightings(vec![
        Weighting::new(0, 0, ChanceKind::BACKGROUND, pool_of(&[(1, 1)])),
        Weighting::new(0, 0, ChanceKind::DEFAULT, pool_of(&[(2, 1)])),
        Weighting::new(0, 0, ChanceKind::ENEMY, pool_of(&[(3, 1)])),
        Weighting::new(0, 0, ChanceKind::LOOT, pool_of(&[(4, 1)])),
    ]);
    let found = list.encounter_weighting().unwrap();
    assert_eq!(found.kind, ChanceKind::ENEMY);
    assert_eq!(found.pool.get(3), Some(1));
    let none = Weightings(vec![Weighting::new(0, 0, ChanceKind::BACKGROUND, pool_of(&[(1, 1)]))]);
    assert!(none.encounter_weighting().is_none());
    assert!(Weightings::default().encounter_weighting().is_none());
}

#[test]
fn draws_with_tickets_from_a_seeded_source_are_reproducible() {
    let weighting = Weighting::new(0, 0, ChanceKind::LOOT, pool_of(&[(1, 5), (2, 1), (3, 14), (4, 0)]));
    let span = weighting.pool.span();
    assert_eq!(span, 20);
    let draws = |seed: u64| -> Vec<usize> {
        let mut source = StdRng::seed_from_u64(seed);
        (0..500)
            .map(|_| weighting.weigh_with(source.gen_range(0..span)).unwrap())
            .collect()
    };
    let first = draws(7);
    assert_eq!(first, draws(7));
    assert_ne!(first, draws(8));
    for id in [1, 2, 3] {
        assert!(first.contains(&id));
    }
    assert!(!first.contains(&4));
}
