//! The moving window of background tiles.
//!
//! Tiles scroll to the left. A tile whose position has fallen below the left
//! despawn boundary is destroyed, and in the same step one tile is created
//! next to the leading tile, the one created last, a tile's width further
//! right less one unit of overlap. The new tile is created first, so the
//! number of tiles never drops below what it was and exceeds it by one at
//! most. Slots name the live tiles: the new tile takes the spare slot, and
//! the slot of the destroyed tile becomes the spare one.

use crate::area::{AreaKind, CurrentArea};
use crate::{
    shift_left, shift_right, spec_shift_left, spec_shift_right, SpawnLocations, BACKGROUND_GAP,
    BACKGROUND_SLOTS, BACKGROUND_WINDOW,
};
use vstd::prelude::*;

verus! {

/// Distance between a new tile and the leading tile: a tile's width less one
/// unit of overlap, so that no seam shows.
pub const BACKGROUND_STRIDE: u32 = 319;

/// The picture a tile shows.
#[derive(Clone, Copy, Debug, PartialEq, Eq, Structural)]
pub enum BackgroundTexture {
    Forest0,
    Forest1,
}

/// One background tile: the slot that names it, its position and its
/// picture.
#[derive(Clone, Copy, Debug, PartialEq, Eq, Structural)]
pub struct Background {
    pub slot: usize,
    pub x: i64,
    pub texture: BackgroundTexture,
}

/// A request to create the tile of a slot at the slot's position.
#[derive(Clone, Copy, Debug, PartialEq, Eq, Structural)]
pub struct SpawnBackground(pub usize);

/// What one evaluation of the despawn boundary did: the tiles destroyed, the
/// tiles created in their stead, and the largest number of tiles alive at
/// any moment of it.
#[derive(Debug)]
pub struct Recycled {
    pub despawned: Vec<Background>,
    pub spawned: Vec<Background>,
    pub peak: usize,
}

/// The picture for tiles of an area: forest areas show the first forest
/// picture, all others the second.
pub open spec fn spec_texture(kind: AreaKind) -> BackgroundTexture {
    if kind == AreaKind::Forest {
        BackgroundTexture::Forest0
    } else {
        BackgroundTexture::Forest1
    }
}

/// The requests of a session's entry: one for each slot of the window, in
/// order.
pub open spec fn spec_initial_requests() -> Seq<SpawnBackground> {
    Seq::new(BACKGROUND_WINDOW as nat, |slot: int| SpawnBackground(slot as usize))
}

/// The tiles after the requests have been served in order: each request for
/// a slot of the table adds that slot's tile at the slot's position; a
/// request for any other slot adds nothing.
pub open spec fn spec_spawned(
    tiles: Seq<Background>,
    requests: Seq<SpawnBackground>,
    table: SpawnLocations,
    texture: BackgroundTexture,
) -> Seq<Background>
    decreases requests.len(),
{
    if requests.len() == 0 {
        tiles
    } else {
        let before = spec_spawned(tiles, requests.drop_last(), table, texture);
        let slot = requests.last().0;
        if slot < BACKGROUND_SLOTS {
            before.push(Background { slot, x: table.backgrounds[slot as int].x, texture })
        } else {
            before
        }
    }
}

/// The tiles after one step of scrolling: each has moved left by the
/// velocity.
pub open spec fn spec_moved(tiles: Seq<Background>, velocity: u32) -> Seq<Background> {
    Seq::new(
        tiles.len(),
        |i: int|
            Background {
                slot: tiles[i].slot,
                x: spec_shift_left(tiles[i].x as int, velocity as int) as i64,
                texture: tiles[i].texture,
            },
    )
}

/// The tiles at or beyond the boundary, in order.
pub open spec fn kept(tiles: Seq<Background>, boundary: i64) -> Seq<Background>
    decreases tiles.len(),
{
    if tiles.len() == 0 {
        Seq::empty()
    } else if tiles.last().x < boundary {
        kept(tiles.drop_last(), boundary)
    } else {
        kept(tiles.drop_last(), boundary).push(tiles.last())
    }
}

/// The tiles below the boundary, in order.
pub open spec fn dropped(tiles: Seq<Background>, boundary: i64) -> Seq<Background>
    decreases tiles.len(),
{
    if tiles.len() == 0 {
        Seq::empty()
    } else if tiles.last().x < boundary {
        dropped(tiles.drop_last(), boundary).push(tiles.last())
    } else {
        dropped(tiles.drop_last(), boundary)
    }
}

/// The tiles created for the destroyed ones. The first lies one stride
/// beyond the leading tile at `lead`, each further one a stride beyond the
/// one before. The first takes the spare slot, each further one the slot of
/// the tile destroyed before it.
pub open spec fn replacements(
    destroyed: Seq<Background>,
    spare: usize,
    lead: int,
    texture: BackgroundTexture,
) -> Seq<Background> {
    Seq::new(
        destroyed.len(),
        |j: int|
            Background {
                slot: if j == 0 {
                    spare
                } else {
                    destroyed[j - 1].slot
                },
                x: spec_shift_right(lead, (j + 1) * BACKGROUND_STRIDE) as i64,
                texture,
            },
    )
}

/// The spare slot after tiles have been destroyed: the slot of the last of
/// them.
pub open spec fn spec_spare(destroyed: Seq<Background>, spare: usize) -> usize {
    if destroyed.len() > 0 {
        destroyed.last().slot
    } else {
        spare
    }
}

/// The largest number of tiles alive while `destroyed` of `alive` tiles are
/// replaced one by one, each new tile being created before the old one is
/// destroyed.
pub open spec fn spec_peak(alive: nat, destroyed: nat) -> nat {
    if destroyed > 0 {
        alive + 1
    } else {
        alive
    }
}

/// The tiles after the boundary has been evaluated: those at or beyond it,
/// followed by one new tile for each tile below it.
pub open spec fn spec_recycled(
    tiles: Seq<Background>,
    boundary: i64,
    spare: usize,
    texture: BackgroundTexture,
) -> Seq<Background> {
    kept(tiles, boundary) + replacements(
        dropped(tiles, boundary),
        spare,
        tiles.last().x as int,
        texture,
    )
}

/// Every tile is either kept or dropped: the evaluation of the boundary
/// leaves the number of tiles as it was.
pub proof fn lemma_recycling_keeps_count(
    tiles: Seq<Background>,
    boundary: i64,
    spare: usize,
    texture: BackgroundTexture,
)
    ensures
        kept(tiles, boundary).len() + dropped(tiles, boundary).len() == tiles.len(),
        spec_recycled(tiles, boundary, spare, texture).len() == tiles.len(),
    decreases tiles.len(),
{
    if tiles.len() > 0 {
        lemma_recycling_keeps_count(tiles.drop_last(), boundary, spare, texture);
    }
}

/// A window of tiles with its spare slot.
pub struct Window {
    pub tiles: Seq<Background>,
    pub spare: usize,
}

/// The window after one tick: the tiles have scrolled and the boundary has
/// been evaluated.
pub open spec fn spec_window_step(
    window: Window,
    velocity: u32,
    boundary: i64,
    texture: BackgroundTexture,
) -> Window {
    let moved = spec_moved(window.tiles, velocity);
    Window {
        tiles: spec_recycled(moved, boundary, window.spare, texture),
        spare: spec_spare(dropped(moved, boundary), window.spare),
    }
}

/// The window after a number of ticks.
pub open spec fn spec_window_after(
    window: Window,
    velocity: u32,
    boundary: i64,
    texture: BackgroundTexture,
    ticks: nat,
) -> Window
    decreases ticks,
{
    if ticks == 0 {
        window
    } else {
        spec_window_after(
            spec_window_step(window, velocity, boundary, texture),
            velocity,
            boundary,
            texture,
            (ticks - 1) as nat,
        )
    }
}

/// Number of tiles destroyed, each with one tile created in its stead, over
/// a number of ticks.
pub open spec fn spec_recycles(
    window: Window,
    velocity: u32,
    boundary: i64,
    texture: BackgroundTexture,
    ticks: nat,
) -> nat
    decreases ticks,
{
    if ticks == 0 {
        0
    } else {
        dropped(spec_moved(window.tiles, velocity), boundary).len() + spec_recycles(
            spec_window_step(window, velocity, boundary, texture),
            velocity,
            boundary,
            texture,
            (ticks - 1) as nat,
        )
    }
}

/// Whether the tiles stand in a row from the rearmost to the leading one, a
/// stride apart, none of them below the boundary. This is how the window
/// stands once every tile of the entry has been replaced.
pub open spec fn in_a_row(tiles: Seq<Background>, boundary: i64) -> bool {
    &&& tiles.len() > 0
    &&& tiles[0].x >= boundary
    &&& forall|i: int|
        0 <= i < tiles.len() ==> (#[trigger] tiles[i]).x == tiles[0].x + i * BACKGROUND_STRIDE
}

/// Number of ticks in which the tiles scroll by a tile's width: the width
/// over the velocity, rounded up.
pub open spec fn spec_ticks_per_tile(velocity: u32) -> nat {
    ((BACKGROUND_GAP + velocity - 1) / (velocity as int)) as nat
}

/// Tiles that are all at or beyond the boundary are all kept.
pub proof fn lemma_all_kept(tiles: Seq<Background>, boundary: i64)
    requires
        forall|i: int| 0 <= i < tiles.len() ==> tiles[i].x >= boundary,
    ensures
        kept(tiles, boundary) == tiles,
        dropped(tiles, boundary).len() == 0,
    decreases tiles.len(),
{
    if tiles.len() > 0 {
        let front = tiles.drop_last();
        assert forall|i: int| 0 <= i < front.len() implies front[i].x >= boundary by {
            assert(front[i] == tiles[i]);
        }
        lemma_all_kept(front, boundary);
        assert(tiles.last() == tiles[tiles.len() - 1]);
        assert(front.push(tiles.last()) == tiles);
    }
}

/// Of tiles of which the first alone is below the boundary, the first is
/// dropped and the others are kept.
pub proof fn lemma_first_dropped(tiles: Seq<Background>, boundary: i64)
    requires
        tiles.len() > 0,
        tiles[0].x < boundary,
        forall|i: int| 1 <= i < tiles.len() ==> tiles[i].x >= boundary,
    ensures
        dropped(tiles, boundary) == seq![tiles[0]],
        kept(tiles, boundary) == tiles.subrange(1, tiles.len() as int),
    decreases tiles.len(),
{
    let front = tiles.drop_last();
    assert(tiles.last() == tiles[tiles.len() - 1]);
    if tiles.len() == 1 {
        assert(dropped(front, boundary) == Seq::<Background>::empty());
        assert(kept(front, boundary) == Seq::<Background>::empty());
        assert(dropped(tiles, boundary) == seq![tiles[0]]);
        assert(kept(tiles, boundary) == tiles.subrange(1, tiles.len() as int));
    } else {
        assert(front[0] == tiles[0]);
        assert forall|i: int| 1 <= i < front.len() implies front[i].x >= boundary by {
            assert(front[i] == tiles[i]);
        }
        lemma_first_dropped(front, boundary);
        assert(front.subrange(1, front.len() as int).push(tiles.last()) == tiles.subrange(
            1,
            tiles.len() as int,
        ));
    }
}

/// A tick in which the rearmost tile of a row does not reach the boundary
/// destroys nothing: the row has moved as a whole.
pub proof fn lemma_quiet_step(
    window: Window,
    velocity: u32,
    boundary: i64,
    texture: BackgroundTexture,
)
    requires
        in_a_row(window.tiles, boundary),
        window.tiles[0].x - velocity >= boundary,
    ensures
        dropped(spec_moved(window.tiles, velocity), boundary).len() == 0,
        spec_window_step(window, velocity, boundary, texture).tiles == spec_moved(
            window.tiles,
            velocity,
        ),
        spec_window_step(window, velocity, boundary, texture).spare == window.spare,
        in_a_row(spec_window_step(window, velocity, boundary, texture).tiles, boundary),
        spec_window_step(window, velocity, boundary, texture).tiles[0].x == window.tiles[0].x
            - velocity,
        spec_window_step(window, velocity, boundary, texture).tiles.last().x
            <= window.tiles.last().x,
{
    let tiles = window.tiles;
    let moved = spec_moved(tiles, velocity);
    assert forall|i: int| 0 <= i < moved.len() implies (#[trigger] moved[i]).x == tiles[i].x
        - velocity by {
        assert(tiles[i].x == tiles[0].x + i * BACKGROUND_STRIDE);
    }
    lemma_all_kept(moved, boundary);
    let after = spec_window_step(window, velocity, boundary, texture).tiles;
    assert(after =~= moved);
    assert(after.last() == after[after.len() - 1]);
    assert(tiles.last() == tiles[tiles.len() - 1]);
}

/// A tick in which the rearmost tile of a row falls below the boundary, and
/// no other, destroys that tile and creates one at the head of the row: the
/// row stands as before, a stride further right.
pub proof fn lemma_recycling_step(
    window: Window,
    velocity: u32,
    boundary: i64,
    texture: BackgroundTexture,
)
    requires
        in_a_row(window.tiles, boundary),
        boundary - velocity >= i64::MIN,
        window.tiles.last().x + BACKGROUND_STRIDE <= i64::MAX,
        window.tiles[0].x - velocity < boundary,
        window.tiles[0].x - velocity + BACKGROUND_STRIDE >= boundary,
    ensures
        dropped(spec_moved(window.tiles, velocity), boundary).len() == 1,
        in_a_row(spec_window_step(window, velocity, boundary, texture).tiles, boundary),
        spec_window_step(window, velocity, boundary, texture).tiles.len() == window.tiles.len(),
        spec_window_step(window, velocity, boundary, texture).tiles[0].x == window.tiles[0].x
            - velocity + BACKGROUND_STRIDE,
{
    let tiles = window.tiles;
    let n = tiles.len() as int;
    let moved = spec_moved(tiles, velocity);
    assert(tiles.last() == tiles[n - 1]);
    assert forall|i: int| 0 <= i < n implies (#[trigger] moved[i]).x == tiles[0].x + i
        * BACKGROUND_STRIDE - velocity by {
        assert(tiles[i].x == tiles[0].x + i * BACKGROUND_STRIDE);
        assert(tiles[n - 1].x == tiles[0].x + (n - 1) * BACKGROUND_STRIDE);
    }
    assert(moved[0].x < boundary);
    lemma_first_dropped(moved, boundary);
    let after = spec_window_step(window, velocity, boundary, texture).tiles;
    let destroyed = dropped(moved, boundary);
    let created = replacements(destroyed, window.spare, moved.last().x as int, texture);
    assert(moved.last() == moved[n - 1]);
    assert(created.len() == 1);
    assert(created[0].x == moved[n - 1].x + BACKGROUND_STRIDE);
    assert(after == moved.subrange(1, n) + created);
    assert(after.len() == n);
    assert forall|i: int| 0 <= i < after.len() implies (#[trigger] after[i]).x == after[0].x + i
        * BACKGROUND_STRIDE by {
        if i < n - 1 {
            assert(after[i] == moved[i + 1]);
        } else {
            assert(after[i] == created[0]);
        }
        if n > 1 {
            assert(after[0] == moved[1]);
        } else {
            assert(after[0] == created[0]);
        }
    }
    if n > 1 {
        assert(after[0] == moved[1]);
    } else {
        assert(after[0] == created[0]);
    }
}

/// While the rearmost tile of a row does not reach the boundary, no tile is
/// destroyed: over `ticks` ticks that travel no further than the rearmost
/// tile is from the boundary, nothing is recycled.
pub proof fn lemma_quiet_run(
    window: Window,
    velocity: u32,
    boundary: i64,
    texture: BackgroundTexture,
    ticks: nat,
)
    requires
        in_a_row(window.tiles, boundary),
        ticks * velocity <= window.tiles[0].x - boundary,
    ensures
        spec_recycles(window, velocity, boundary, texture, ticks) == 0,
        in_a_row(spec_window_after(window, velocity, boundary, texture, ticks).tiles, boundary),
        spec_window_after(window, velocity, boundary, texture, ticks).tiles.len()
            == window.tiles.len(),
        spec_window_after(window, velocity, boundary, texture, ticks).tiles[0].x
            == window.tiles[0].x - ticks * velocity,
    decreases ticks,
{
    if ticks == 0 {
        assert(ticks * velocity == 0) by (nonlinear_arith)
            requires
                ticks == 0,
        ;
    } else {
        assert((ticks - 1) * velocity == ticks * velocity - velocity) by (nonlinear_arith);
        assert((ticks - 1) * velocity >= 0) by (nonlinear_arith)
            requires
                ticks >= 1,
                velocity >= 0,
        ;
        lemma_quiet_step(window, velocity, boundary, texture);
        lemma_quiet_run(
            spec_window_step(window, velocity, boundary, texture),
            velocity,
            boundary,
            texture,
            (ticks - 1) as nat,
        );
    }
}

/// Over `ticks` ticks that travel further than the rearmost tile of a row
/// is from the boundary, but not as far as the tile behind it is, exactly
/// one tile is destroyed and one created.
pub proof fn lemma_one_recycle(
    window: Window,
    velocity: u32,
    boundary: i64,
    texture: BackgroundTexture,
    ticks: nat,
)
    requires
        in_a_row(window.tiles, boundary),
        boundary - velocity >= i64::MIN,
        window.tiles.last().x + BACKGROUND_STRIDE <= i64::MAX,
        window.tiles[0].x - boundary < ticks * velocity,
        ticks * velocity <= window.tiles[0].x - boundary + BACKGROUND_STRIDE,
    ensures
        spec_recycles(window, velocity, boundary, texture, ticks) == 1,
        in_a_row(spec_window_after(window, velocity, boundary, texture, ticks).tiles, boundary),
        spec_window_after(window, velocity, boundary, texture, ticks).tiles.len()
            == window.tiles.len(),
        spec_window_after(window, velocity, boundary, texture, ticks).tiles[0].x
            == window.tiles[0].x - ticks * velocity + BACKGROUND_STRIDE,
    decreases ticks,
{
    if ticks == 0 {
        assert(ticks * velocity == 0) by (nonlinear_arith)
            requires
                ticks == 0,
        ;
    } else {
        assert((ticks - 1) * velocity == ticks * velocity - velocity) by (nonlinear_arith);
        assert((ticks - 1) * velocity >= 0) by (nonlinear_arith)
            requires
                ticks >= 1,
                velocity >= 0,
        ;
        let next = spec_window_step(window, velocity, boundary, texture);
        if window.tiles[0].x - velocity >= boundary {
            lemma_quiet_step(window, velocity, boundary, texture);
            lemma_one_recycle(next, velocity, boundary, texture, (ticks - 1) as nat);
        } else {
            lemma_recycling_step(window, velocity, boundary, texture);
            lemma_quiet_run(next, velocity, boundary, texture, (ticks - 1) as nat);
        }
    }
}

/// From a row of tiles, the ticks in which the tiles scroll by a tile's
/// width destroy exactly one tile and create exactly one, provided that
/// the rearmost tile reaches the boundary in them and the tile behind it
/// does not. The tiles then stand in a row again.
pub proof fn lemma_one_recycle_per_tile(
    window: Window,
    velocity: u32,
    boundary: i64,
    texture: BackgroundTexture,
)
    requires
        velocity > 0,
        in_a_row(window.tiles, boundary),
        boundary - velocity >= i64::MIN,
        window.tiles.last().x + BACKGROUND_STRIDE <= i64::MAX,
        window.tiles[0].x - boundary < spec_ticks_per_tile(velocity) * velocity,
        spec_ticks_per_tile(velocity) * velocity <= window.tiles[0].x - boundary
            + BACKGROUND_STRIDE,
    ensures
        spec_recycles(window, velocity, boundary, texture, spec_ticks_per_tile(velocity)) == 1,
        in_a_row(
            spec_window_after(
                window,
                velocity,
                boundary,
                texture,
                spec_ticks_per_tile(velocity),
            ).tiles,
            boundary,
        ),
        spec_ticks_per_tile(velocity) * velocity >= BACKGROUND_GAP,
        (spec_ticks_per_tile(velocity) - 1) * velocity < BACKGROUND_GAP,
{
    lemma_one_recycle(window, velocity, boundary, texture, spec_ticks_per_tile(velocity));
    let ticks = spec_ticks_per_tile(velocity) as int;
    assert(ticks * velocity >= BACKGROUND_GAP && (ticks - 1) * velocity < BACKGROUND_GAP)
        by (nonlinear_arith)
        requires
            velocity > 0,
            ticks == (BACKGROUND_GAP + velocity - 1) / (velocity as int),
    ;
}

/// Whether some tile holds the slot.
pub open spec fn holds_slot(tiles: Seq<Background>, slot: usize) -> bool {
    exists|i: int| 0 <= i < tiles.len() && tiles[i].slot == slot
}

/// Whether no two tiles hold the same slot.
pub open spec fn distinct_slots(tiles: Seq<Background>) -> bool {
    forall|i: int, j: int| 0 <= i < j < tiles.len() ==> tiles[i].slot != tiles[j].slot
}

/// Whether the slots name the tiles of a window: no two tiles hold the same
/// slot and none holds the spare one.
pub open spec fn slots_name_tiles(window: Window) -> bool {
    distinct_slots(window.tiles) && !holds_slot(window.tiles, window.spare)
}

/// The kept and the dropped tiles are tiles of the list; where no two tiles
/// of the list hold the same slot, none of them do, and no kept tile holds
/// the slot of a dropped one.
pub proof fn lemma_kept_and_dropped_slots(tiles: Seq<Background>, boundary: i64)
    ensures
        forall|slot: usize| #[trigger]
            holds_slot(kept(tiles, boundary), slot) ==> holds_slot(tiles, slot),
        forall|slot: usize| #[trigger]
            holds_slot(dropped(tiles, boundary), slot) ==> holds_slot(tiles, slot),
        distinct_slots(tiles) ==> distinct_slots(kept(tiles, boundary)),
        distinct_slots(tiles) ==> distinct_slots(dropped(tiles, boundary)),
        distinct_slots(tiles) ==> forall|slot: usize|
            !(#[trigger] holds_slot(kept(tiles, boundary), slot) && holds_slot(
                dropped(tiles, boundary),
                slot,
            )),
    decreases tiles.len(),
{
    if tiles.len() > 0 {
        let front = tiles.drop_last();
        let last = tiles.last();
        let n = front.len() as int;
        lemma_kept_and_dropped_slots(front, boundary);
        let sorted = if last.x < boundary {
            dropped(tiles, boundary)
        } else {
            kept(tiles, boundary)
        };
        let sorted_front = if last.x < boundary {
            dropped(front, boundary)
        } else {
            kept(front, boundary)
        };
        let other = if last.x < boundary {
            kept(front, boundary)
        } else {
            dropped(front, boundary)
        };
        assert(sorted == sorted_front.push(last));
        assert(tiles[n] == last);
        assert forall|slot: usize| holds_slot(front, slot) implies holds_slot(tiles, slot) by {
            let i = choose|i: int| 0 <= i < front.len() && front[i].slot == slot;
            assert(tiles[i].slot == slot);
        }
        assert forall|slot: usize| holds_slot(sorted, slot) implies holds_slot(tiles, slot) by {
            let i = choose|i: int| 0 <= i < sorted.len() && sorted[i].slot == slot;
            if i < sorted_front.len() {
                assert(sorted_front[i].slot == slot);
                assert(holds_slot(sorted_front, slot));
            } else {
                assert(tiles[n].slot == slot);
            }
        }
        assert forall|slot: usize| holds_slot(other, slot) implies holds_slot(tiles, slot) by {
            assert(holds_slot(front, slot));
        }
        if distinct_slots(tiles) {
            assert(distinct_slots(front)) by {
                assert forall|i: int, j: int| 0 <= i < j < front.len() implies front[i].slot
                    != front[j].slot by {
                    assert(tiles[i].slot != tiles[j].slot);
                }
            }
            assert(!holds_slot(front, last.slot)) by {
                if holds_slot(front, last.slot) {
                    let i = choose|i: int| 0 <= i < front.len() && front[i].slot == last.slot;
                    assert(tiles[i].slot != tiles[n].slot);
                }
            }
            assert(distinct_slots(sorted)) by {
                assert forall|i: int, j: int| 0 <= i < j < sorted.len() implies sorted[i].slot
                    != sorted[j].slot by {
                    if j < sorted_front.len() {
                        assert(sorted_front[i].slot != sorted_front[j].slot);
                    } else {
                        assert(sorted_front[i].slot == sorted[i].slot);
                        assert(holds_slot(sorted_front, sorted[i].slot));
                    }
                }
            }
            assert forall|slot: usize| !(holds_slot(sorted, slot) && holds_slot(other, slot)) by {
                if holds_slot(sorted, slot) && holds_slot(other, slot) {
                    let i = choose|i: int| 0 <= i < sorted.len() && sorted[i].slot == slot;
                    if i < sorted_front.len() {
                        assert(sorted_front[i].slot == slot);
                        assert(holds_slot(sorted_front, slot));
                    } else {
                        assert(holds_slot(front, slot));
                    }
                }
            }
        }
    }
}

/// A tick keeps the slots naming the tiles: each new tile takes a slot that
/// no tile holds, and the slot that becomes the spare one is held by no
/// tile any more.
pub proof fn lemma_step_keeps_slots(
    window: Window,
    velocity: u32,
    boundary: i64,
    texture: BackgroundTexture,
)
    requires
        slots_name_tiles(window),
    ensures
        slots_name_tiles(spec_window_step(window, velocity, boundary, texture)),
{
    let moved = spec_moved(window.tiles, velocity);
    let stay = kept(moved, boundary);
    let gone = dropped(moved, boundary);
    let fresh = replacements(gone, window.spare, moved.last().x as int, texture);
    let after = spec_window_step(window, velocity, boundary, texture);
    assert(distinct_slots(moved) && !holds_slot(moved, window.spare)) by {
        assert forall|i: int, j: int| 0 <= i < j < moved.len() implies moved[i].slot
            != moved[j].slot by {
            assert(window.tiles[i].slot != window.tiles[j].slot);
        }
        if holds_slot(moved, window.spare) {
            let i = choose|i: int| 0 <= i < moved.len() && moved[i].slot == window.spare;
            assert(window.tiles[i].slot == window.spare);
        }
    }
    lemma_kept_and_dropped_slots(moved, boundary);
    assert forall|j: int| 0 <= j < gone.len() implies #[trigger] holds_slot(gone, gone[j].slot) by {}
    assert forall|i: int| 0 <= i < stay.len() implies #[trigger] holds_slot(stay, stay[i].slot) by {}
    assert(after.tiles == stay + fresh);
    assert(distinct_slots(after.tiles)) by {
        assert forall|i: int, j: int| 0 <= i < j < after.tiles.len() implies after.tiles[i].slot
            != after.tiles[j].slot by {
            let k = stay.len() as int;
            if j < k {
                assert(stay[i].slot != stay[j].slot);
            } else if i < k {
                assert(holds_slot(stay, stay[i].slot));
                assert(holds_slot(moved, stay[i].slot));
                if j - k > 0 {
                    assert(holds_slot(gone, gone[j - k - 1].slot));
                }
            } else {
                if i - k > 0 {
                    assert(gone[i - k - 1].slot != gone[j - k - 1].slot);
                } else {
                    assert(holds_slot(gone, gone[j - k - 1].slot));
                    assert(holds_slot(moved, gone[j - k - 1].slot));
                }
            }
        }
    }
    if holds_slot(after.tiles, after.spare) {
        let i = choose|i: int| 0 <= i < after.tiles.len() && after.tiles[i].slot == after.spare;
        let k = stay.len() as int;
        if gone.len() == 0 {
            assert(after.tiles == stay);
            assert(holds_slot(stay, window.spare));
            assert(holds_slot(moved, window.spare));
        } else {
            let last = gone.len() - 1;
            assert(holds_slot(gone, gone[last].slot));
            assert(holds_slot(moved, gone[last].slot));
            if i < k {
                assert(holds_slot(stay, stay[i].slot));
            } else if i - k > 0 {
                assert(gone[i - k - 1].slot != gone[last].slot);
            }
        }
    }
}

/// The picture for tiles of an area.
pub fn texture_for(kind: AreaKind) -> (texture: BackgroundTexture)
    ensures
        texture == spec_texture(kind),
{
    match kind {
        AreaKind::Forest => BackgroundTexture::Forest0,
        _ => BackgroundTexture::Forest1,
    }
}

/// Queues the requests of a session's entry: one for each slot of the
/// window, in order.
pub fn spawn_initial_backgrounds(evw_spawn_background: &mut Vec<SpawnBackground>)
    ensures
        final(evw_spawn_background)@ == old(evw_spawn_background)@ + spec_initial_requests(),
{
    let mut slot: usize = 0;
    while slot < BACKGROUND_WINDOW
        invariant
            slot <= BACKGROUND_WINDOW,
            evw_spawn_background@ == old(evw_spawn_background)@ + spec_initial_requests().take(
                slot as int,
            ),
        decreases BACKGROUND_WINDOW - slot,
    {
        evw_spawn_background.push(SpawnBackground(slot));
        slot += 1;
    }
    assert(spec_initial_requests().take(BACKGROUND_WINDOW as int) == spec_initial_requests());
}

/// Serves the spawn requests in order: each request for a slot of the table
/// creates that slot's tile at the slot's position, with the picture of the
/// active area. A request for a slot that the table lacks creates nothing.
pub fn evr_spawn_background(
    evr_spawn_background: &Vec<SpawnBackground>,
    spawn_locations: &SpawnLocations,
    current_area: &CurrentArea,
    backgrounds: &mut Vec<Background>,
)
    ensures
        final(backgrounds)@ == spec_spawned(
            old(backgrounds)@,
            evr_spawn_background@,
            *spawn_locations,
            spec_texture(current_area@.kind),
        ),
{
    let texture = texture_for(current_area.0.kind);
    let mut i: usize = 0;
    while i < evr_spawn_background.len()
        invariant
            i <= evr_spawn_background@.len(),
            texture == spec_texture(current_area@.kind),
            backgrounds@ == spec_spawned(
                old(backgrounds)@,
                evr_spawn_background@.take(i as int),
                *spawn_locations,
                texture,
            ),
        decreases evr_spawn_background@.len() - i,
    {
        assert(evr_spawn_background@.take(i as int + 1).drop_last() == evr_spawn_background@.take(
            i as int,
        ));
        let slot = evr_spawn_background[i].0;
        if slot < BACKGROUND_SLOTS {
            let x = spawn_locations.backgrounds[slot].x;
            backgrounds.push(Background { slot, x, texture });
        }
        i += 1;
    }
    assert(evr_spawn_background@.take(i as int) == evr_spawn_background@);
}

/// Scrolls every tile to the left by the velocity.
pub fn move_backgrounds(backgrounds: &mut Vec<Background>, velocity: u32)
    ensures
        final(backgrounds)@ == spec_moved(old(backgrounds)@, velocity),
{
    let n = backgrounds.len();
    let mut i: usize = 0;
    while i < n
        invariant
            i <= n,
            backgrounds@.len() == n,
            old(backgrounds)@.len() == n,
            forall|j: int| 0 <= j < i ==> backgrounds@[j] == spec_moved(old(backgrounds)@, velocity)[j],
            forall|j: int| i <= j < n ==> backgrounds@[j] == old(backgrounds)@[j],
        decreases n - i,
    {
        let tile = backgrounds[i];
        backgrounds.set(
            i,
            Background { slot: tile.slot, x: shift_left(tile.x, velocity), texture: tile.texture },
        );
        i += 1;
    }
    assert(backgrounds@ =~= spec_moved(old(backgrounds)@, velocity));
}

/// Evaluates the left despawn boundary for every tile, in order. For each
/// tile below it one tile is created a stride beyond the leading tile, with
/// the spare slot and the picture of the active area, and then the tile is
/// destroyed and its slot becomes the spare one.
pub fn despawn_background(
    backgrounds: &mut Vec<Background>,
    spare: &mut usize,
    spawn_locations: &SpawnLocations,
    current_area: &CurrentArea,
) -> (recycled: Recycled)
    ensures
        recycled.despawned@ == dropped(old(backgrounds)@, spawn_locations.despawns[0]),
        recycled.spawned@ == replacements(
            recycled.despawned@,
            *old(spare),
            old(backgrounds)@.last().x as int,
            spec_texture(current_area@.kind),
        ),
        final(backgrounds)@ == spec_recycled(
            old(backgrounds)@,
            spawn_locations.despawns[0],
            *old(spare),
            spec_texture(current_area@.kind),
        ),
        final(backgrounds)@.len() == old(backgrounds)@.len(),
        *final(spare) == spec_spare(recycled.despawned@, *old(spare)),
        recycled.peak == spec_peak(old(backgrounds)@.len(), recycled.despawned@.len()),
        recycled.peak <= old(backgrounds)@.len() + 1,
{
    let boundary = spawn_locations.despawn_left();
    let texture = texture_for(current_area.0.kind);
    let n = backgrounds.len();
    let ghost tiles = backgrounds@;
    let ghost first_spare = *spare;
    let ghost lead = tiles.last().x as int;
    let mut despawned: Vec<Background> = Vec::new();
    let mut spawned: Vec<Background> = Vec::new();
    let mut peak: usize = n;
    let mut at: usize = 0;
    let mut seen: usize = 0;
    while seen < n
        invariant
            seen <= n,
            n == tiles.len(),
            at == kept(tiles.take(seen as int), boundary).len(),
            despawned@ == dropped(tiles.take(seen as int), boundary),
            spawned@ == replacements(despawned@, first_spare, lead, texture),
            backgrounds@ == kept(tiles.take(seen as int), boundary) + tiles.subrange(
                seen as int,
                n as int,
            ) + spawned@,
            *spare == spec_spare(despawned@, first_spare),
            lead == tiles.last().x,
            peak == spec_peak(n as nat, despawned@.len()),
        decreases n - seen,
    {
        let ghost front = kept(tiles.take(seen as int), boundary);
        let ghost rest = tiles.subrange(seen as int, n as int);
        assert(tiles.take(seen as int + 1).drop_last() == tiles.take(seen as int));
        assert(tiles.take(seen as int + 1).last() == tiles[seen as int]);
        assert(backgrounds@[at as int] == rest[0]);
        proof {
            lemma_recycling_keeps_count(tiles.take(seen as int), boundary, first_spare, texture);
        }
        let tile = backgrounds[at];
        if tile.x < boundary {
            let last = backgrounds[backgrounds.len() - 1].x;
            let fresh = Background { slot: *spare, x: shift_right(last, BACKGROUND_STRIDE), texture };
            let ghost j = despawned@.len() as int;
            assert(last == if j == 0 {
                lead
            } else {
                spec_shift_right(lead, j * BACKGROUND_STRIDE)
            }) by {
                if j == 0 {
                    assert(backgrounds@.last() == rest.last());
                } else {
                    assert(backgrounds@.last() == spawned@[j - 1]);
                }
            }
            backgrounds.push(fresh);
            if backgrounds.len() > peak {
                peak = backgrounds.len();
            }
            backgrounds.remove(at);
            *spare = tile.slot;
            despawned.push(tile);
            spawned.push(fresh);
            assert(spawned@ =~= replacements(despawned@, first_spare, lead, texture));
            assert(backgrounds@ =~= front + tiles.subrange(seen as int + 1, n as int) + spawned@);
        } else {
            at += 1;
            assert(backgrounds@ =~= front.push(tile) + tiles.subrange(seen as int + 1, n as int)
                + spawned@);
        }
        seen += 1;
    }
    assert(tiles.take(n as int) == tiles);
    assert(backgrounds@ =~= spec_recycled(tiles, boundary, first_spare, texture));
    proof {
        lemma_recycling_keeps_count(tiles, boundary, first_spare, texture);
    }
    Recycled { despawned, spawned, peak }
}

} // verus!
