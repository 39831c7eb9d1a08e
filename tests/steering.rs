use ant_colony::ant::{despawn_list, food_trail, Ant, AntState, Trail, ANT_SIZE, FOOD_SIZE, PHEREMONE_LAYER};
use ant_colony::economy::FoodStore;
use ant_colony::field::Color;
use ant_colony::sampling::{arc_angles, circle_angles, Ratio};

fn ratios(v: &[Ratio]) -> Vec<(i128, i128)> {
    v.iter().map(|r| (r.num, r.den)).collect()
}

#[test]
fn single_arc_sample_looks_ahead() {
    assert_eq!(ratios(&arc_angles(1)), vec![(0, 1)]);
}

#[test]
fn arc_samples_span_both_ends_symmetrically() {
    assert_eq!(ratios(&arc_angles(5)), vec![(-4, 4), (-2, 4), (0, 4), (2, 4), (4, 4)]);
    assert_eq!(ratios(&arc_angles(2)), vec![(-1, 1), (1, 1)]);
    assert!(arc_angles(0).is_empty());
}

#[test]
fn circle_samples_step_evenly_from_zero() {
    assert_eq!(ratios(&circle_angles(4)), vec![(0, 4), (1, 4), (2, 4), (3, 4)]);
    assert!(circle_angles(0).is_empty());
}

#[test]
fn searching_ants_leave_nest_trail_and_follow_food() {
    assert_eq!(AntState::Searching.color(), Color::red());
    assert_eq!(AntState::Searching.follow(), Color::green());
}

#[test]
fn new_ant_is_searching_with_its_trail() {
    let (ant, trail) = Ant::new(42);
    assert_eq!(ant.state, AntState::Searching);
    assert_eq!(ant.food, FoodStore(0));
    assert_eq!(ant.seed, 42);
    assert_eq!(trail, Trail::new(PHEREMONE_LAYER, Color::red(), ANT_SIZE));
    assert_eq!(food_trail(), Trail::new(1, Color::green(), FOOD_SIZE));
}

#[test]
fn hidden_agents_are_listed_for_despawn() {
    assert_eq!(despawn_list(&vec![true, false, true, false]), vec![1, 3]);
    assert!(despawn_list(&vec![]).is_empty());
}

#[test]
fn spawned_ants_draw_their_seeds_from_the_global_source() {
    let mut global = bevy_turborand::GlobalRng::with_seed(7);
    let (first, trail) = Ant::spawn(&mut global);
    let (second, _) = Ant::spawn(&mut global);
    assert_eq!(first.state, AntState::Searching);
    assert_eq!(first.food, FoodStore(0));
    assert_eq!(trail.color, Color::red());
    assert_ne!(first.seed, second.seed);
    let mut replay = bevy_turborand::GlobalRng::with_seed(7);
    assert_eq!(Ant::spawn(&mut replay).0.seed, first.seed);
}
