//! Streaming core of a side-scrolling world: a weighted sampler over content
//! pools, a registry of areas with a single active selection, and a
//! position-driven scheduler that keeps a fixed window of background tiles
//! alive, spawns encounters along the lanes and resolves them at the player.
//!
//! Every position is an integer number of world units. Arithmetic on
//! positions saturates at the ends of `i64`, so no step can fail.

pub mod area;
pub mod background;
pub mod chance;
pub mod encounter;
pub mod player;
pub mod ui;
pub mod world;

use vstd::prelude::*;

verus! {

// GLOBAL CONSTANTS
/// Factor by which the pictures of characters are enlarged.
pub const CHARACTER_SCALE: i64 = 8;

/// Layer on which characters are drawn, the one nearest to the viewer.
pub const CHARACTER_LAYER: i64 = 2;

/// Factor by which the pictures of loot are enlarged.
pub const ENCOUNTER_SCALE: i64 = 4;

/// Layer on which loot is drawn, between the tiles and the characters.
pub const ENCOUNTER_LAYER: i64 = 1;

/// Factor by which the pictures of tiles are enlarged.
pub const BACKGROUND_SCALE: i64 = 5;

/// Layer on which tiles are drawn, the one farthest from the viewer.
pub const BACKGROUND_LAYER: i64 = 0;

/// Number of lanes along which characters and encounters travel.
pub const LANES: usize = 3;

/// Number of background tiles alive between ticks.
pub const BACKGROUND_WINDOW: usize = 8;

/// Number of background slots in the position table: the window and one
/// re-entry slot.
pub const BACKGROUND_SLOTS: usize = 9;

/// Width of one background tile.
pub const BACKGROUND_GAP: i64 = 320;

/// Distance of the player column from the left edge of the viewport.
pub const PLAYER_INSET: i64 = 200;

/// Distance of the encounter spawn column beyond the viewport width.
pub const ENCOUNTER_LEAD: i64 = 100;

/// Vertical distance between the middle lane and each outer lane.
pub const LANE_SPACING: i64 = 200;

/// The position `by` units to the left of `x`, or the lowest position of the
/// axis where that lies beyond it.
pub open spec fn spec_shift_left(x: int, by: int) -> int {
    if x - by >= i64::MIN {
        x - by
    } else {
        i64::MIN as int
    }
}

/// The position `by` units to the right of `x`, or the highest position of
/// the axis where that lies beyond it.
pub open spec fn spec_shift_right(x: int, by: int) -> int {
    if x + by <= i64::MAX {
        x + by
    } else {
        i64::MAX as int
    }
}

/// Moves `x` to the left by `by` units, stopping at the lowest position.
pub fn shift_left(x: i64, by: u32) -> (r: i64)
    ensures
        r == spec_shift_left(x as int, by as int),
{
    match x.checked_sub_unsigned(by as u64) {
        Some(y) => y,
        None => i64::MIN,
    }
}

/// Moves `x` to the right by `by` units, stopping at the highest position.
pub fn shift_right(x: i64, by: u32) -> (r: i64)
    ensures
        r == spec_shift_right(x as int, by as int),
{
    match x.checked_add_unsigned(by as u64) {
        Some(y) => y,
        None => i64::MAX,
    }
}

// GLOBAL RESOURCES
/// A point of the world: horizontal position, vertical position and the
/// layer it is drawn on.
#[derive(Clone, Copy, Debug, PartialEq, Eq, Structural)]
pub struct Position {
    pub x: i64,
    pub y: i64,
    pub layer: i64,
}

/// A viewport size, as reported when the window is resized.
#[derive(Clone, Copy, Debug, PartialEq, Eq, Structural)]
pub struct Viewport {
    pub width: u32,
    pub height: u32,
}

/// The position table that the schedulers read: lane positions of the
/// characters, background slots, encounter spawn points and the two despawn
/// boundaries (left, right).
#[derive(Clone, Copy, Debug)]
pub struct SpawnLocations {
    pub characters: [Position; 3],
    pub backgrounds: [Position; 9],
    pub encounters: [Position; 3],
    pub despawns: [i64; 2],
}

impl SpawnLocations {
    /// The table for a viewport of the given width. The characters stand in
    /// a column near the left edge, in the middle lane, the upper and the
    /// lower one. The background slots of the window lie a tile apart around
    /// the middle; the re-entry slot lies half a tile beyond the last one,
    /// less two units of underlay. Encounters spawn beyond the right edge.
    /// The despawn boundaries lie half a tile beyond the left edge and
    /// beyond twice the width.
    pub open spec fn spec_for_width(width: u32) -> SpawnLocations {
        let column = (PLAYER_INSET - width / 2) as i64;
        let spawn = (width + ENCOUNTER_LEAD) as i64;
        SpawnLocations {
            characters: [
                Position { x: column, y: 0, layer: CHARACTER_LAYER },
                Position { x: column, y: LANE_SPACING, layer: CHARACTER_LAYER },
                Position { x: column, y: (-LANE_SPACING) as i64, layer: CHARACTER_LAYER },
            ],
            backgrounds: [
                Position { x: 0, y: 0, layer: BACKGROUND_LAYER },
                Position { x: (-BACKGROUND_GAP) as i64, y: 0, layer: BACKGROUND_LAYER },
                Position { x: (-2 * BACKGROUND_GAP) as i64, y: 0, layer: BACKGROUND_LAYER },
                Position { x: (-3 * BACKGROUND_GAP) as i64, y: 0, layer: BACKGROUND_LAYER },
                Position { x: BACKGROUND_GAP, y: 0, layer: BACKGROUND_LAYER },
                Position { x: (2 * BACKGROUND_GAP) as i64, y: 0, layer: BACKGROUND_LAYER },
                Position { x: (3 * BACKGROUND_GAP) as i64, y: 0, layer: BACKGROUND_LAYER },
                Position { x: (4 * BACKGROUND_GAP) as i64, y: 0, layer: BACKGROUND_LAYER },
                Position {
                    x: (4 * BACKGROUND_GAP + BACKGROUND_GAP / 2 - 2) as i64,
                    y: 0,
                    layer: BACKGROUND_LAYER,
                },
            ],
            encounters: [
                Position { x: spawn, y: 0, layer: ENCOUNTER_LAYER },
                Position { x: spawn, y: LANE_SPACING, layer: ENCOUNTER_LAYER },
                Position { x: spawn, y: (-LANE_SPACING) as i64, layer: ENCOUNTER_LAYER },
            ],
            despawns: [
                (-(width / 2) - BACKGROUND_GAP / 2) as i64,
                (2 * width + BACKGROUND_GAP / 2) as i64,
            ],
        }
    }

    /// The table after the viewport changes have been served in order: the
    /// table for the last reported width, or the table as it was where
    /// nothing was reported.
    pub open spec fn spec_resized(self, resized: Seq<Viewport>) -> SpawnLocations {
        if resized.len() == 0 {
            self
        } else {
            Self::spec_for_width(resized.last().width)
        }
    }

    /// The left despawn boundary: a tile whose position lies below it has
    /// left the viewport with its trailing edge.
    pub open spec fn spec_despawn_left(self) -> int {
        self.despawns[0] as int
    }

    /// The interaction boundary: the column of the player in the middle lane.
    pub open spec fn spec_interaction_x(self) -> int {
        self.characters[0].x as int
    }

    /// Computes the table for a viewport of the given width.
    pub fn for_width(width: u32) -> (table: SpawnLocations)
        ensures
            table == Self::spec_for_width(width),
    {
        let x: i64 = width as i64;
        let middle: i64 = 0;
        let lane_one: i64 = 0;
        let lane_two: i64 = LANE_SPACING;
        let lane_three: i64 = -LANE_SPACING;
        let column: i64 = middle - (x / 2) + PLAYER_INSET;
        let character_one = Position { x: column, y: lane_one, layer: CHARACTER_LAYER };
        let character_two = Position { x: column, y: lane_two, layer: CHARACTER_LAYER };
        let character_three = Position { x: column, y: lane_three, layer: CHARACTER_LAYER };
        let gap: i64 = BACKGROUND_GAP;
        let backgrounds_one = Position { x: middle, y: middle, layer: BACKGROUND_LAYER };
        let backgrounds_two = Position { x: middle - gap, y: middle, layer: BACKGROUND_LAYER };
        let backgrounds_three = Position { x: middle - gap * 2, y: middle, layer: BACKGROUND_LAYER };
        let backgrounds_four = Position { x: middle - gap * 3, y: middle, layer: BACKGROUND_LAYER };
        let backgrounds_five = Position { x: middle + gap, y: middle, layer: BACKGROUND_LAYER };
        let backgrounds_six = Position { x: middle + gap * 2, y: middle, layer: BACKGROUND_LAYER };
        let backgrounds_seven = Position { x: middle + gap * 3, y: middle, layer: BACKGROUND_LAYER };
        let backgrounds_eight = Position { x: middle + gap * 4, y: middle, layer: BACKGROUND_LAYER };
        let backgrounds_nine = Position {
            x: middle + gap * 4 + gap / 2 - 2,
            y: middle,
            layer: BACKGROUND_LAYER,
        };
        let spawn: i64 = x + ENCOUNTER_LEAD;
        let encounter_one = Position { x: spawn, y: lane_one, layer: ENCOUNTER_LAYER };
        let encounter_two = Position { x: spawn, y: lane_two, layer: ENCOUNTER_LAYER };
        let encounter_three = Position { x: spawn, y: lane_three, layer: ENCOUNTER_LAYER };
        let despawn_left: i64 = -(x / 2) - gap / 2;
        let despawn_right: i64 = x * 2 + gap / 2;
        SpawnLocations {
            characters: [character_one, character_two, character_three],
            backgrounds: [
                backgrounds_one,
                backgrounds_two,
                backgrounds_three,
                backgrounds_four,
                backgrounds_five,
                backgrounds_six,
                backgrounds_seven,
                backgrounds_eight,
                backgrounds_nine,
            ],
            encounters: [encounter_one, encounter_two, encounter_three],
            despawns: [despawn_left, despawn_right],
        }
    }

    /// The left despawn boundary of this table.
    pub fn despawn_left(&self) -> (x: i64)
        ensures
            x == self.spec_despawn_left(),
    {
        self.despawns[0]
    }

    /// The interaction boundary of this table.
    pub fn interaction_x(&self) -> (x: i64)
        ensures
            x == self.spec_interaction_x(),
    {
        self.characters[0].x
    }
}

/// The table before any viewport is known: every entry at the origin.
pub open spec fn spec_blank_table() -> SpawnLocations {
    let origin = Position { x: 0, y: 0, layer: 0 };
    SpawnLocations {
        characters: [origin, origin, origin],
        backgrounds: [origin, origin, origin, origin, origin, origin, origin, origin, origin],
        encounters: [origin, origin, origin],
        despawns: [0, 0],
    }
}

impl Default for SpawnLocations {
    fn default() -> (table: SpawnLocations)
        ensures
            table == spec_blank_table(),
    {
        let origin = Position { x: 0, y: 0, layer: 0 };
        SpawnLocations {
            characters: [origin, origin, origin],
            backgrounds: [origin, origin, origin, origin, origin, origin, origin, origin, origin],
            encounters: [origin, origin, origin],
            despawns: [0, 0],
        }
    }
}

/// Recomputes the position table for each viewport change, in order: the
/// table ends up as the one for the last reported width, or unchanged where
/// nothing was reported.
pub fn initialize_spawn_locations(resized: &Vec<Viewport>, spawn_locations: &mut SpawnLocations)
    ensures
        *final(spawn_locations) == old(spawn_locations).spec_resized(resized@),
{
    let mut i: usize = 0;
    while i < resized.len()
        invariant
            i <= resized@.len(),
            *spawn_locations == old(spawn_locations).spec_resized(resized@.take(i as int)),
        decreases resized@.len() - i,
    {
        *spawn_locations = SpawnLocations::for_width(resized[i].width);
        i += 1;
    }
    assert(resized@.take(i as int) == resized@);
}

// GLOBAL STATES
/// The outer state of the application.
#[derive(Clone, Copy, Debug, PartialEq, Eq, Hash, Structural)]
pub enum AppState {
    Loading,
    Menu,
    Playing,
    Settings,
    Exit,
}

/// The state of a running session: at home on the road, or in combat once
/// a combat encounter has been handed on.
#[derive(Clone, Copy, Debug, PartialEq, Eq, Hash, Structural)]
pub enum GameState {
    Home,
    Combat,
}

// GLOBAL COMPONENTS
/// A display name.
#[derive(Debug)]
pub struct Title(pub String);

impl Title {
    /// The characters of the name.
    pub open spec fn text(self) -> Seq<char> {
        self.0@
    }
}

impl Clone for Title {
    fn clone(&self) -> (copy: Self)
        ensures
            copy.text() == self.text(),
    {
        Title(self.0.clone())
    }
}

} // verus!
