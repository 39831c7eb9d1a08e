use vstd::prelude::*;

use crate::economy::FoodStore;
use crate::field::Color;
use bevy_turborand::GlobalRng;

verus! {

/// The field layer that trails are deposited on.
pub const PHEREMONE_LAYER: u8 = 1;

/// Side, in cells, of the square an ant covers and deposits.
pub const ANT_SIZE: u32 = 2;

/// Side, in cells, of the square a food source covers and deposits.
pub const FOOD_SIZE: u32 = 5;

/// Side, in cells, of the square a nest covers.
pub const NEST_SIZE: u32 = 10;

/// Number of directions an ant samples the field in each tick.
pub const FOLLOW_SAMPLES: usize = 20;

/// What an ant is doing, which decides the trail it leaves and the trail it
/// follows.
#[derive(Clone, Copy, Debug, PartialEq, Eq, Structural)]
pub enum AntState {
    Searching,
}

/// The trail colour of each state.
pub open spec fn trail_color(state: AntState) -> Color {
    match state {
        AntState::Searching => Color { r: 255, g: 0, b: 0, a: 255 },
    }
}

/// The channel weights each state follows.
pub open spec fn follow_color(state: AntState) -> Color {
    match state {
        AntState::Searching => Color { r: 0, g: 255, b: 0, a: 255 },
    }
}

impl AntState {
    /// The colour of the trail an ant in this state deposits: searching ants
    /// mark the way back to the nest.
    pub fn color(&self) -> (c: Color)
        ensures
            c == trail_color(*self),
    {
        match self {
            AntState::Searching => Color::red(),
        }
    }

    /// The colour of the trail an ant in this state steers along: searching
    /// ants follow food.
    pub fn follow(&self) -> (c: Color)
        ensures
            c == follow_color(*self),
    {
        match self {
            AntState::Searching => Color::green(),
        }
    }
}

/// A trail deposit descriptor: what an agent paints into the field, centred
/// on wherever it stands.
#[derive(Clone, Copy, Debug, PartialEq, Eq, Structural)]
pub struct Trail {
    pub layer: u8,
    pub color: Color,
    pub size: u32,
}

impl Trail {
    pub fn new(layer: u8, color: Color, size: u32) -> (t: Trail)
        ensures
            t == (Trail { layer, color, size }),
    {
        Trail { layer, color, size }
    }
}

/// The simulation's global random source, which seeds each ant's own.
#[verifier::external_type_specification]
#[verifier::external_body]
pub struct ExGlobalRng(GlobalRng);

/// Relies on turborand's `GenCore::gen_u64`, reached through
/// `DelegatedRng::get_mut` of bevy_turborand's `GlobalRng`: draws the next
/// random 64-bit value, of which nothing can be promised.
#[verifier::external_body]
fn draw_seed(global: &mut GlobalRng) -> (r: u64) {
    bevy_turborand::GenCore::gen_u64(bevy_turborand::DelegatedRng::get_mut(global))
}

/// The state of one ant apart from its motion: what it does, the food it
/// carries, and the seed of its own random source.
#[derive(Clone, Copy, Debug, PartialEq, Eq, Structural)]
pub struct Ant {
    pub state: AntState,
    pub food: FoodStore,
    pub seed: u64,
}

impl Ant {
    /// A fresh ant, searching and carrying nothing, with its random source
    /// seeded from `seed`; and the trail that marks where it goes, in its
    /// state's colour.
    pub fn new(seed: u64) -> (r: (Ant, Trail))
        ensures
            r.0 == (Ant { state: AntState::Searching, food: FoodStore(0), seed }),
            r.1 == (Trail { layer: PHEREMONE_LAYER, color: trail_color(AntState::Searching), size: ANT_SIZE }),
    {
        let ant = Ant { state: AntState::Searching, food: FoodStore(0), seed };
        let trail = Trail::new(PHEREMONE_LAYER, ant.state.color(), ANT_SIZE);
        (ant, trail)
    }

    /// A fresh ant whose random source is seeded from the global one, with
    /// its trail, as `Ant::new` makes them.
    pub fn spawn(global: &mut GlobalRng) -> (r: (Ant, Trail))
        ensures
            r.0.state == AntState::Searching,
            r.0.food == FoodStore(0),
            r.1 == (Trail { layer: PHEREMONE_LAYER, color: trail_color(AntState::Searching), size: ANT_SIZE }),
    {
        let seed = draw_seed(global);
        Ant::new(seed)
    }
}

/// The trail a food source leaves.
pub fn food_trail() -> (t: Trail)
    ensures
        t == (Trail { layer: PHEREMONE_LAYER, color: Color { r: 0, g: 255, b: 0, a: 255 }, size: FOOD_SIZE }),
{
    Trail::new(PHEREMONE_LAYER, Color::green(), FOOD_SIZE)
}

/// Whether `r` lists, in increasing order, exactly the indices `i` at which
/// `visible[i]` is false.
pub open spec fn lists_hidden(visible: Seq<bool>, r: Seq<usize>) -> bool {
    &&& forall|i: int, j: int| 0 <= i < j < r.len() ==> r[i] < r[j]
    &&& forall|i: int| 0 <= i < r.len() ==> r[i] < visible.len() && !visible[r[i] as int]
    &&& forall|k: int| 0 <= k < visible.len() && !visible[k] ==> r.contains(k as usize)
}

/// The agents to despawn: those, by index, that have left the visible region.
pub fn despawn_list(visible: &Vec<bool>) -> (r: Vec<usize>)
    ensures
        lists_hidden(visible@, r@),
{
    let mut r: Vec<usize> = Vec::new();
    let mut i: usize = 0;
    while i < visible.len()
        invariant
            i <= visible@.len(),
            forall|a: int, b: int| 0 <= a < b < r@.len() ==> r@[a] < r@[b],
            forall|a: int| 0 <= a < r@.len() ==> r@[a] < i && !visible@[r@[a] as int],
            forall|k: int| 0 <= k < i && !visible@[k] ==> r@.contains(k as usize),
        decreases visible@.len() - i,
    {
        if !visible[i] {
            let ghost before = r@;
            r.push(i);
            proof {
                assert forall|k: int| 0 <= k < i + 1 && !visible@[k] implies r@.contains(k as usize) by {
                    if k < i {
                        let a = choose|a: int| 0 <= a < before.len() && before[a] == k as usize;
                        assert(r@[a] == k as usize);
                    } else {
                        assert(r@[before.len() as int] == i);
                    }
                }
            }
        }
        i = i + 1;
    }
    r
}

} // verus!
