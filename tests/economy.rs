use ant_colony::economy::{
    can_consume, consume_food, feed_nests, spawn_from_nests, Food, FoodStore, Nest, SpawnEvent,
    SpawnKind, ANT_COST, FEED_AMOUNT, NEST_START_FOOD, SOURCE_START_FOOD,
};

#[test]
fn nest_spends_reserve_on_several_ants() {
    let mut nest = Nest { store: FoodStore(17), position: (3, -4) };
    let mut events: Vec<SpawnEvent<(i32, i32)>> = Vec::new();
    nest.spawn_ants(ANT_COST, &mut events);
    assert_eq!(events.len(), 3);
    assert_eq!(nest.store, FoodStore(2));
    for e in &events {
        assert_eq!(e.kind, SpawnKind::Ant);
        assert_eq!(e.pos(), (3, -4));
    }
}

#[test]
fn nest_below_cost_spawns_nothing() {
    let mut nest = Nest { store: FoodStore(4), position: 0u8 };
    let mut events = Vec::new();
    nest.spawn_ants(5, &mut events);
    assert!(events.is_empty());
    assert_eq!(nest.store, FoodStore(4));
}

#[test]
fn nest_with_exact_multiple_empties() {
    let mut nest = Nest { store: FoodStore(10), position: 1u8 };
    let mut events = vec![SpawnEvent::new(SpawnKind::Food, 9u8)];
    nest.spawn_ants(5, &mut events);
    assert_eq!(events.len(), 3);
    assert_eq!(events[0].kind, SpawnKind::Food);
    assert_eq!(events[1].kind, SpawnKind::Ant);
    assert_eq!(nest.store, FoodStore(0));
}

#[test]
fn new_nest_and_food_hold_starting_reserves() {
    let nest = Nest::new(7u8);
    assert_eq!(nest.store, FoodStore(NEST_START_FOOD));
    assert_eq!(NEST_START_FOOD, 50);
    let food = Food::new(8u8);
    assert_eq!(food.store, FoodStore(SOURCE_START_FOOD));
    assert_eq!(SOURCE_START_FOOD, 5);
    assert_eq!(food.position, 8);
}

#[test]
fn feeding_adds_to_every_nest() {
    let mut nests = vec![Nest::new(0u8), Nest { store: FoodStore(4), position: 1u8 }];
    feed_nests(&mut nests, FEED_AMOUNT);
    assert_eq!(nests[0].store, FoodStore(51));
    assert_eq!(nests[1].store, FoodStore(5));
    let mut single = Nest { store: FoodStore(2), position: 0u8 };
    single.feed(3);
    assert_eq!(single.store, FoodStore(5));
}

#[test]
fn spawn_pass_runs_over_all_nests_in_order() {
    let mut nests = vec![
        Nest { store: FoodStore(17), position: 1u8 },
        Nest { store: FoodStore(3), position: 2u8 },
        Nest { store: FoodStore(10), position: 3u8 },
    ];
    let mut events = Vec::new();
    spawn_from_nests(&mut nests, ANT_COST, &mut events);
    let positions: Vec<u8> = events.iter().map(|e| e.position).collect();
    assert_eq!(positions, vec![1, 1, 1, 3, 3]);
    assert_eq!(nests[0].store, FoodStore(2));
    assert_eq!(nests[1].store, FoodStore(3));
    assert_eq!(nests[2].store, FoodStore(0));
}

#[test]
fn overlapping_food_moves_into_consumer_once() {
    let mut consumers = vec![FoodStore(2)];
    let mut sources = vec![FoodStore(5)];
    let table = vec![vec![true]];
    assert!(can_consume(&consumers, &sources, &table));
    let removed = consume_food(&mut consumers, &mut sources, &table);
    assert_eq!(consumers, vec![FoodStore(7)]);
    assert_eq!(sources, vec![FoodStore(0)]);
    assert_eq!(removed, vec![0]);
    let again = consume_food(&mut consumers, &mut sources, &table);
    assert_eq!(consumers, vec![FoodStore(7)]);
    assert_eq!(sources, vec![FoodStore(0)]);
    assert_eq!(again, vec![0]);
}

#[test]
fn food_goes_to_first_overlapping_consumer() {
    let mut consumers = vec![FoodStore(0), FoodStore(1), FoodStore(2)];
    let mut sources = vec![FoodStore(5), FoodStore(4), FoodStore(3)];
    let table = vec![vec![false, true, true], vec![false, false, false], vec![true]];
    let removed = consume_food(&mut consumers, &mut sources, &table);
    assert_eq!(consumers, vec![FoodStore(3), FoodStore(6), FoodStore(2)]);
    assert_eq!(sources, vec![FoodStore(0), FoodStore(4), FoodStore(0)]);
    assert_eq!(removed, vec![0, 2]);
}

#[test]
fn missing_overlap_rows_mean_no_contact() {
    let mut consumers = vec![FoodStore(1)];
    let mut sources = vec![FoodStore(5), FoodStore(6)];
    let table = vec![vec![true]];
    let removed = consume_food(&mut consumers, &mut sources, &table);
    assert_eq!(consumers, vec![FoodStore(6)]);
    assert_eq!(sources, vec![FoodStore(0), FoodStore(6)]);
    assert_eq!(removed, vec![0]);
}

#[test]
fn consumption_that_would_overflow_is_refused() {
    let consumers = vec![FoodStore(u16::MAX - 4)];
    let sources = vec![FoodStore(5)];
    let table = vec![vec![true]];
    assert!(!can_consume(&consumers, &sources, &table));
    let fits = vec![FoodStore(4)];
    assert!(can_consume(&consumers, &fits, &table));
    assert!(can_consume(&consumers, &sources, &vec![vec![false]]));
}

#[test]
fn consumption_keeps_total_food() {
    let mut consumers = vec![FoodStore(2), FoodStore(9), FoodStore(0)];
    let mut sources = vec![FoodStore(5), FoodStore(0), FoodStore(3), FoodStore(8)];
    let table = vec![
        vec![false, true, false],
        vec![true, true, true],
        vec![false, false, true],
        vec![false, false, false],
    ];
    let sum = |v: &Vec<FoodStore>| v.iter().map(|s| s.0 as u32).sum::<u32>();
    let before = sum(&consumers) + sum(&sources);
    let removed = consume_food(&mut consumers, &mut sources, &table);
    assert_eq!(sum(&consumers) + sum(&sources), before);
    assert_eq!(consumers, vec![FoodStore(2), FoodStore(14), FoodStore(3)]);
    assert_eq!(removed, vec![0, 1, 2]);
}

#[test]
fn empty_overlapping_source_is_removed_without_transfer() {
    let mut consumers = vec![FoodStore(2)];
    let mut sources = vec![FoodStore(0), FoodStore(4)];
    let table = vec![vec![true], vec![false]];
    let removed = consume_food(&mut consumers, &mut sources, &table);
    assert_eq!(consumers, vec![FoodStore(2)]);
    assert_eq!(sources, vec![FoodStore(0), FoodStore(4)]);
    assert_eq!(removed, vec![0]);
}
