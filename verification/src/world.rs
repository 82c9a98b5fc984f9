//! The world of a session and the tick that drives it.
//!
//! A tick serves the viewport changes, and while the application is playing
//! it runs the steps in a fixed order: the area selection, the scrolling of
//! tiles and encounters, the evaluation of the despawn boundary, one
//! encounter draw for each tile created, and the evaluation of the
//! interaction boundary.

use crate::area::{
    evr_set_area, of_kind, spec_selected, Area, AreaView, Areas, CurrentArea, CurrentAreaSet,
    SetArea,
};
use crate::background::{
    despawn_background, dropped, evr_spawn_background, lemma_recycling_keeps_count,
    move_backgrounds, replacements, spawn_initial_backgrounds, spec_initial_requests, spec_moved,
    lemma_step_keeps_slots, slots_name_tiles, spec_peak, spec_recycled, spec_spare, spec_spawned,
    spec_texture, spec_window_step, Background, Recycled, SpawnBackground, Window,
};
use crate::encounter::{
    collect_loot, draw_encounter, draw_encounter_with, evr_spawn_encounter, lemma_numbers_last,
    move_encounter, numbered, sift, spec_arrivals, spec_encounter_request, spec_encounter_span,
    spec_serial, spec_travelled, Encounter, Outcome, SpawnEncounter,
};
use crate::player::{spec_looted, PlayerLoot};
use crate::{
    initialize_spawn_locations, spec_blank_table, AppState, GameState, SpawnLocations, Viewport,
    BACKGROUND_WINDOW,
};
use vstd::prelude::*;

verus! {

/// Everything a session holds.
#[derive(Debug)]
pub struct World {
    pub state: AppState,
    pub game_state: GameState,
    pub velocity: u32,
    pub spawn_locations: SpawnLocations,
    pub areas: Areas,
    pub current_area: CurrentArea,
    pub current_area_set: CurrentAreaSet,
    pub backgrounds: Vec<Background>,
    pub spare_slot: usize,
    pub encounters: Vec<Encounter>,
    pub encounter_serial: u64,
    pub player_loot: PlayerLoot,
}

/// What a world holds, as plain values.
pub struct WorldView {
    pub state: AppState,
    pub game_state: GameState,
    pub velocity: u32,
    pub spawn_locations: SpawnLocations,
    pub areas: Seq<AreaView>,
    pub current_area: AreaView,
    pub current_area_set: Seq<AreaView>,
    pub backgrounds: Seq<Background>,
    pub spare_slot: usize,
    pub encounters: Seq<Encounter>,
    pub encounter_serial: u64,
    pub player_loot: PlayerLoot,
}

impl View for World {
    type V = WorldView;

    open spec fn view(&self) -> WorldView {
        WorldView {
            state: self.state,
            game_state: self.game_state,
            velocity: self.velocity,
            spawn_locations: self.spawn_locations,
            areas: self.areas@,
            current_area: self.current_area@,
            current_area_set: self.current_area_set@,
            backgrounds: self.backgrounds@,
            spare_slot: self.spare_slot,
            encounters: self.encounters@,
            encounter_serial: self.encounter_serial,
            player_loot: self.player_loot,
        }
    }
}

/// What a tick did: the tiles destroyed and created, the largest number of
/// tiles alive at any moment of it, the encounters requested and created,
/// the loot collected and the combat handed on.
#[derive(Debug)]
pub struct TickReport {
    pub despawned: Vec<Background>,
    pub spawned: Vec<Background>,
    pub peak_backgrounds: usize,
    pub requested: Vec<SpawnEncounter>,
    pub arrived: Vec<Encounter>,
    pub collected: Vec<Encounter>,
    pub handed_off: Vec<Encounter>,
}

/// What a report holds, as plain values.
pub struct TickReportView {
    pub despawned: Seq<Background>,
    pub spawned: Seq<Background>,
    pub peak_backgrounds: nat,
    pub requested: Seq<SpawnEncounter>,
    pub arrived: Seq<Encounter>,
    pub collected: Seq<Encounter>,
    pub handed_off: Seq<Encounter>,
}

impl View for TickReport {
    type V = TickReportView;

    open spec fn view(&self) -> TickReportView {
        TickReportView {
            despawned: self.despawned@,
            spawned: self.spawned@,
            peak_backgrounds: self.peak_backgrounds as nat,
            requested: self.requested@,
            arrived: self.arrived@,
            collected: self.collected@,
            handed_off: self.handed_off@,
        }
    }
}

/// A world after a tick, with the report of the tick.
pub struct Ticked {
    pub world: WorldView,
    pub report: TickReportView,
}

/// The requests that `triggers` draws of an area schedule, in order. The
/// draw of a trigger takes the ticket at its place; a trigger without a
/// ticket, or whose draw schedules nothing, is passed over.
pub open spec fn spec_requests(area: AreaView, tickets: Seq<u128>, triggers: nat) -> Seq<
    SpawnEncounter,
>
    decreases triggers,
{
    if triggers == 0 {
        Seq::empty()
    } else {
        let before = spec_requests(area, tickets, (triggers - 1) as nat);
        if triggers - 1 < tickets.len() {
            match spec_encounter_request(area, tickets[triggers - 1] as nat) {
                Some(request) => before.push(request),
                None => before,
            }
        } else {
            before
        }
    }
}

impl WorldView {
    /// The active area once the selection requests of a tick are served.
    pub open spec fn spec_area(self, set_area: Seq<SetArea>) -> AreaView {
        if set_area.len() > 0 {
            spec_selected(self.areas, set_area.last().0)
        } else {
            self.current_area
        }
    }

    /// The areas matched once the selection requests of a tick are served.
    pub open spec fn spec_area_set(self, set_area: Seq<SetArea>) -> Seq<AreaView> {
        if set_area.len() > 0 {
            of_kind(self.areas, set_area.last().0)
        } else {
            self.current_area_set
        }
    }

    /// The tiles of a playing world after scrolling, before the despawn
    /// boundary is evaluated.
    pub open spec fn spec_scrolled(self) -> Seq<Background> {
        spec_moved(self.backgrounds, self.velocity)
    }

    /// The tiles that a tick destroys.
    pub open spec fn spec_despawned(self, resized: Seq<Viewport>) -> Seq<Background> {
        if self.state == AppState::Playing {
            dropped(self.spec_scrolled(), self.spawn_locations.spec_resized(resized).despawns[0])
        } else {
            Seq::empty()
        }
    }

    /// The tiles that a tick creates.
    pub open spec fn spec_respawned(self, resized: Seq<Viewport>, set_area: Seq<SetArea>) -> Seq<
        Background,
    > {
        if self.state == AppState::Playing {
            replacements(
                self.spec_despawned(resized),
                self.spare_slot,
                self.spec_scrolled().last().x as int,
                spec_texture(self.spec_area(set_area).kind),
            )
        } else {
            Seq::empty()
        }
    }

    /// The world after the first half of a tick: the viewport changes are
    /// served, and while playing the area is selected, tiles and
    /// encounters have scrolled and the despawn boundary is evaluated.
    pub open spec fn spec_advanced(self, resized: Seq<Viewport>, set_area: Seq<SetArea>) -> WorldView {
        let table = self.spawn_locations.spec_resized(resized);
        if self.state == AppState::Playing {
            WorldView {
                spawn_locations: table,
                current_area: self.spec_area(set_area),
                current_area_set: self.spec_area_set(set_area),
                backgrounds: spec_recycled(
                    self.spec_scrolled(),
                    table.despawns[0],
                    self.spare_slot,
                    spec_texture(self.spec_area(set_area).kind),
                ),
                spare_slot: spec_spare(self.spec_despawned(resized), self.spare_slot),
                encounters: spec_travelled(self.encounters, self.velocity),
                ..self
            }
        } else {
            WorldView { spawn_locations: table, ..self }
        }
    }

    /// The encounters that the requests create in this world.
    pub open spec fn spec_arrived(self, requested: Seq<SpawnEncounter>) -> Seq<Encounter> {
        if self.state == AppState::Playing {
            spec_arrivals(requested, self.spawn_locations, self.encounter_serial)
        } else {
            Seq::empty()
        }
    }

    /// The encounters with one outcome once the requests are served and the
    /// interaction boundary is evaluated.
    pub open spec fn spec_sifted(self, requested: Seq<SpawnEncounter>, outcome: Outcome) -> Seq<
        Encounter,
    > {
        sift(
            self.encounters + self.spec_arrived(requested),
            self.spawn_locations.characters[0].x,
            outcome,
        )
    }

    /// The world after the second half of a tick: while playing, the
    /// requested encounters are created and the interaction boundary is
    /// evaluated. A combat encounter that is handed on sends the session
    /// into combat.
    pub open spec fn spec_settled(self, requested: Seq<SpawnEncounter>) -> WorldView {
        if self.state == AppState::Playing {
            WorldView {
                game_state: if self.spec_sifted(requested, Outcome::HandedOff).len() > 0 {
                    GameState::Combat
                } else {
                    self.game_state
                },
                encounters: self.spec_sifted(requested, Outcome::Remains),
                encounter_serial: spec_serial(
                    self.encounter_serial,
                    self.spec_arrived(requested).len(),
                ),
                player_loot: PlayerLoot(
                    spec_looted(
                        self.player_loot.0,
                        self.spec_sifted(requested, Outcome::Collected).len(),
                    ) as i32,
                ),
                ..self
            }
        } else {
            self
        }
    }

    /// The world after a tick with the given inputs, and the report of the
    /// tick.
    pub open spec fn spec_tick(
        self,
        resized: Seq<Viewport>,
        set_area: Seq<SetArea>,
        tickets: Seq<u128>,
    ) -> Ticked {
        let advanced = self.spec_advanced(resized, set_area);
        let spawned = self.spec_respawned(resized, set_area);
        let requested = spec_requests(advanced.current_area, tickets, spawned.len());
        Ticked {
            world: advanced.spec_settled(requested),
            report: TickReportView {
                despawned: self.spec_despawned(resized),
                spawned,
                peak_backgrounds: spec_peak(
                    self.backgrounds.len(),
                    self.spec_despawned(resized).len(),
                ),
                requested,
                arrived: advanced.spec_arrived(requested),
                collected: if self.state == AppState::Playing {
                    advanced.spec_sifted(requested, Outcome::Collected)
                } else {
                    Seq::empty()
                },
                handed_off: if self.state == AppState::Playing {
                    advanced.spec_sifted(requested, Outcome::HandedOff)
                } else {
                    Seq::empty()
                },
            },
        }
    }

    /// The world after the application has been sent to a state. Entering
    /// the playing state clears what an earlier session left, resets the
    /// loot, starts at home and creates the tiles of the window. Leaving it
    /// drops all tiles and encounters.
    pub open spec fn spec_entered(self, next: AppState) -> WorldView {
        if next == AppState::Playing {
            WorldView {
                state: next,
                game_state: GameState::Home,
                backgrounds: spec_spawned(
                    Seq::empty(),
                    spec_initial_requests(),
                    self.spawn_locations,
                    spec_texture(self.current_area.kind),
                ),
                spare_slot: BACKGROUND_WINDOW,
                encounters: Seq::empty(),
                encounter_serial: 0,
                player_loot: PlayerLoot(0),
                ..self
            }
        } else if self.state == AppState::Playing {
            WorldView { state: next, backgrounds: Seq::empty(), encounters: Seq::empty(), ..self }
        } else {
            WorldView { state: next, ..self }
        }
    }
}

/// A tick leaves the number of tiles as it was, and at no moment of it are
/// there more than one tile more.
pub proof fn lemma_tick_keeps_window(
    world: WorldView,
    resized: Seq<Viewport>,
    set_area: Seq<SetArea>,
    tickets: Seq<u128>,
)
    ensures
        world.spec_tick(resized, set_area, tickets).world.backgrounds.len()
            == world.backgrounds.len(),
        world.backgrounds.len() <= world.spec_tick(
            resized,
            set_area,
            tickets,
        ).report.peak_backgrounds <= world.backgrounds.len() + 1,
{
    if world.state == AppState::Playing {
        lemma_recycling_keeps_count(
            world.spec_scrolled(),
            world.spawn_locations.spec_resized(resized).despawns[0],
            world.spare_slot,
            spec_texture(world.spec_area(set_area).kind),
        );
    }
}

impl WorldView {
    /// The tiles of the world with the spare slot.
    pub open spec fn spec_window(self) -> Window {
        Window { tiles: self.backgrounds, spare: self.spare_slot }
    }
}

/// While playing, a tick does to the tiles what one step of their window
/// says, with the boundary of the position table that the tick ends with,
/// and reports as destroyed what that step drops.
pub proof fn lemma_tick_steps_window(
    world: WorldView,
    resized: Seq<Viewport>,
    set_area: Seq<SetArea>,
    tickets: Seq<u128>,
)
    requires
        world.state == AppState::Playing,
    ensures
        ({
            let ticked = world.spec_tick(resized, set_area, tickets);
            let boundary = ticked.world.spawn_locations.despawns[0];
            let step = spec_window_step(
                world.spec_window(),
                world.velocity,
                boundary,
                spec_texture(ticked.world.current_area.kind),
            );
            &&& ticked.world.spec_window() == step
            &&& ticked.report.despawned == dropped(
                spec_moved(world.backgrounds, world.velocity),
                boundary,
            )
            &&& ticked.report.spawned.len() == ticked.report.despawned.len()
        }),
{
}

/// Where the slots name the tiles before a tick they do so after it: the
/// tiles of a session can be told apart by their slots at all times.
pub proof fn lemma_tick_keeps_slots(
    world: WorldView,
    resized: Seq<Viewport>,
    set_area: Seq<SetArea>,
    tickets: Seq<u128>,
)
    requires
        slots_name_tiles(world.spec_window()),
    ensures
        slots_name_tiles(world.spec_tick(resized, set_area, tickets).world.spec_window()),
{
    if world.state == AppState::Playing {
        let ticked = world.spec_tick(resized, set_area, tickets);
        lemma_tick_steps_window(world, resized, set_area, tickets);
        lemma_step_keeps_slots(
            world.spec_window(),
            world.velocity,
            ticked.world.spawn_locations.despawns[0],
            spec_texture(ticked.world.current_area.kind),
        );
    }
}

/// No more encounters are requested than draws are triggered.
pub proof fn lemma_requests_within_triggers(area: AreaView, tickets: Seq<u128>, triggers: nat)
    ensures
        spec_requests(area, tickets, triggers).len() <= triggers,
    decreases triggers,
{
    if triggers > 0 {
        lemma_requests_within_triggers(area, tickets, (triggers - 1) as nat);
    }
}

/// While the serial numbers last, they name the encounters of a session:
/// where they do so before a tick they do so after it. A tick gives out one
/// number for each tile at most.
pub proof fn lemma_tick_keeps_numbers(
    world: WorldView,
    resized: Seq<Viewport>,
    set_area: Seq<SetArea>,
    tickets: Seq<u128>,
)
    requires
        numbered(world.encounters, world.encounter_serial),
        world.encounter_serial + world.backgrounds.len() <= u64::MAX,
    ensures
        numbered(
            world.spec_tick(resized, set_area, tickets).world.encounters,
            world.spec_tick(resized, set_area, tickets).world.encounter_serial,
        ),
{
    if world.state == AppState::Playing {
        let advanced = world.spec_advanced(resized, set_area);
        let spawned = world.spec_respawned(resized, set_area);
        let requested = spec_requests(advanced.current_area, tickets, spawned.len());
        lemma_recycling_keeps_count(
            world.spec_scrolled(),
            world.spawn_locations.spec_resized(resized).despawns[0],
            world.spare_slot,
            spec_texture(world.spec_area(set_area).kind),
        );
        lemma_requests_within_triggers(advanced.current_area, tickets, spawned.len());
        lemma_numbers_last(
            world.encounters,
            world.velocity,
            requested,
            advanced.spawn_locations,
            world.encounter_serial,
            advanced.spawn_locations.characters[0].x,
        );
    }
}

/// A tick never takes loot away.
pub proof fn lemma_tick_keeps_loot(
    world: WorldView,
    resized: Seq<Viewport>,
    set_area: Seq<SetArea>,
    tickets: Seq<u128>,
)
    ensures
        world.spec_tick(resized, set_area, tickets).world.player_loot.0 >= world.player_loot.0,
{
}

/// Serving the requests of a session's entry creates one tile for each slot
/// of the window, at the slot's position, so that the slots name the tiles;
/// the session starts at home, with no loot and no encounter.
pub proof fn lemma_entry_fills_window(world: WorldView)
    ensures
        world.spec_entered(AppState::Playing).game_state == GameState::Home,
        world.spec_entered(AppState::Playing).backgrounds.len() == BACKGROUND_WINDOW,
        forall|slot: int|
            0 <= slot < BACKGROUND_WINDOW ==> #[trigger] world.spec_entered(
                AppState::Playing,
            ).backgrounds[slot] == (Background {
                slot: slot as usize,
                x: world.spawn_locations.backgrounds[slot].x,
                texture: spec_texture(world.current_area.kind),
            }),
        world.spec_entered(AppState::Playing).player_loot.0 == 0,
        world.spec_entered(AppState::Playing).encounters.len() == 0,
        slots_name_tiles(world.spec_entered(AppState::Playing).spec_window()),
{
    lemma_entry_prefix(world, BACKGROUND_WINDOW as int);
    assert(spec_initial_requests().take(BACKGROUND_WINDOW as int) == spec_initial_requests());
}

proof fn lemma_entry_prefix(world: WorldView, n: int)
    requires
        0 <= n <= BACKGROUND_WINDOW,
    ensures
        ({
            let tiles = spec_spawned(
                Seq::empty(),
                spec_initial_requests().take(n),
                world.spawn_locations,
                spec_texture(world.current_area.kind),
            );
            &&& tiles.len() == n
            &&& forall|slot: int|
                0 <= slot < n ==> tiles[slot] == (Background {
                    slot: slot as usize,
                    x: world.spawn_locations.backgrounds[slot].x,
                    texture: spec_texture(world.current_area.kind),
                })
        }),
    decreases n,
{
    if n > 0 {
        lemma_entry_prefix(world, n - 1);
        assert(spec_initial_requests().take(n).drop_last() == spec_initial_requests().take(n - 1));
    }
}

/// Entering the playing state twice is the same as entering it once:
/// nothing of the first entry is spawned again.
pub proof fn lemma_entry_is_idempotent(world: WorldView)
    ensures
        world.spec_entered(AppState::Playing).spec_entered(AppState::Playing) == world.spec_entered(
            AppState::Playing,
        ),
{
}

impl World {
    /// A world that is still loading: nothing is alive, the position table
    /// is blank and no area is selected.
    pub fn new(areas: Areas, velocity: u32) -> (world: World)
        ensures
            world@.state == AppState::Loading,
            world@.game_state == GameState::Home,
            world@.velocity == velocity,
            world@.spawn_locations == spec_blank_table(),
            world@.areas == areas@,
            world@.current_area == Area::spec_blank(),
            world@.current_area_set.len() == 0,
            world@.backgrounds.len() == 0,
            world@.spare_slot == BACKGROUND_WINDOW,
            world@.encounters.len() == 0,
            world@.encounter_serial == 0,
            world@.player_loot.0 == 0,
    {
        World {
            state: AppState::Loading,
            game_state: GameState::Home,
            velocity,
            spawn_locations: SpawnLocations::default(),
            areas,
            current_area: CurrentArea::default(),
            current_area_set: CurrentAreaSet::default(),
            backgrounds: Vec::new(),
            spare_slot: BACKGROUND_WINDOW,
            encounters: Vec::new(),
            encounter_serial: 0,
            player_loot: PlayerLoot::default(),
        }
    }

    /// Sends the application to a state. Entering the playing state clears
    /// what an earlier session left, resets the loot and creates the tiles
    /// of the window; leaving it drops all tiles and encounters.
    pub fn set_state(&mut self, next: AppState)
        ensures
            final(self)@ == old(self)@.spec_entered(next),
            next == AppState::Playing ==> final(self)@.backgrounds.len() == BACKGROUND_WINDOW,
    {
        proof {
            lemma_entry_fills_window(old(self)@);
        }
        match next {
            AppState::Playing => {
                self.game_state = GameState::Home;
                self.backgrounds = Vec::new();
                self.encounters = Vec::new();
                self.encounter_serial = 0;
                self.player_loot = PlayerLoot(0);
                self.spare_slot = BACKGROUND_WINDOW;
                let mut requests: Vec<SpawnBackground> = Vec::new();
                spawn_initial_backgrounds(&mut requests);
                assert(requests@ == spec_initial_requests());
                evr_spawn_background(
                    &requests,
                    &self.spawn_locations,
                    &self.current_area,
                    &mut self.backgrounds,
                );
            },
            _ => {
                match self.state {
                    AppState::Playing => {
                        self.backgrounds = Vec::new();
                        self.encounters = Vec::new();
                    },
                    _ => {},
                }
            },
        }
        self.state = next;
    }

    fn advance(&mut self, resized: &Vec<Viewport>, set_area: &Vec<SetArea>) -> (recycled: Recycled)
        ensures
            final(self)@ == old(self)@.spec_advanced(resized@, set_area@),
            recycled.despawned@ == old(self)@.spec_despawned(resized@),
            recycled.spawned@ == old(self)@.spec_respawned(resized@, set_area@),
            recycled.peak == spec_peak(old(self)@.backgrounds.len(), recycled.despawned@.len()),
    {
        initialize_spawn_locations(resized, &mut self.spawn_locations);
        match self.state {
            AppState::Playing => {
                evr_set_area(
                    set_area,
                    &mut self.current_area,
                    &mut self.current_area_set,
                    &self.areas,
                );
                move_backgrounds(&mut self.backgrounds, self.velocity);
                move_encounter(&mut self.encounters, self.velocity);
                despawn_background(
                    &mut self.backgrounds,
                    &mut self.spare_slot,
                    &self.spawn_locations,
                    &self.current_area,
                )
            },
            _ => Recycled {
                despawned: Vec::new(),
                spawned: Vec::new(),
                peak: self.backgrounds.len(),
            },
        }
    }

    fn settle(&mut self, requested: Vec<SpawnEncounter>, recycled: Recycled) -> (report: TickReport)
        ensures
            final(self)@ == old(self)@.spec_settled(requested@),
            report@ == (TickReportView {
                despawned: recycled.despawned@,
                spawned: recycled.spawned@,
                peak_backgrounds: recycled.peak as nat,
                requested: requested@,
                arrived: old(self)@.spec_arrived(requested@),
                collected: if old(self)@.state == AppState::Playing {
                    old(self)@.spec_sifted(requested@, Outcome::Collected)
                } else {
                    Seq::empty()
                },
                handed_off: if old(self)@.state == AppState::Playing {
                    old(self)@.spec_sifted(requested@, Outcome::HandedOff)
                } else {
                    Seq::empty()
                },
            }),
    {
        match self.state {
            AppState::Playing => {
                let first = self.encounters.len();
                evr_spawn_encounter(
                    &requested,
                    &self.spawn_locations,
                    &mut self.encounters,
                    &mut self.encounter_serial,
                );
                let mut arrived: Vec<Encounter> = Vec::new();
                let mut i: usize = first;
                while i < self.encounters.len()
                    invariant
                        first <= i <= self.encounters@.len(),
                        arrived@ == self.encounters@.subrange(first as int, i as int),
                    decreases self.encounters@.len() - i,
                {
                    arrived.push(self.encounters[i]);
                    i += 1;
                }
                assert(arrived@ == old(self)@.spec_arrived(requested@));
                let resolved = collect_loot(
                    &mut self.encounters,
                    &mut self.player_loot,
                    &self.spawn_locations,
                );
                if resolved.handed_off.len() > 0 {
                    self.game_state = GameState::Combat;
                }
                TickReport {
                    despawned: recycled.despawned,
                    spawned: recycled.spawned,
                    peak_backgrounds: recycled.peak,
                    requested,
                    arrived,
                    collected: resolved.collected,
                    handed_off: resolved.handed_off,
                }
            },
            _ => TickReport {
                despawned: recycled.despawned,
                spawned: recycled.spawned,
                peak_backgrounds: recycled.peak,
                requested,
                arrived: Vec::new(),
                collected: Vec::new(),
                handed_off: Vec::new(),
            },
        }
    }

    /// Runs one tick with the given tickets: the draw for the first tile
    /// created takes the first ticket, and so on in order.
    pub fn tick_with(
        &mut self,
        resized: &Vec<Viewport>,
        set_area: &Vec<SetArea>,
        tickets: &Vec<u128>,
    ) -> (report: TickReport)
        ensures
            final(self)@ == old(self)@.spec_tick(resized@, set_area@, tickets@).world,
            report@ == old(self)@.spec_tick(resized@, set_area@, tickets@).report,
            final(self)@.backgrounds.len() == old(self)@.backgrounds.len(),
            report.peak_backgrounds <= old(self)@.backgrounds.len() + 1,
            final(self)@.player_loot.0 >= old(self)@.player_loot.0,
    {
        proof {
            lemma_tick_keeps_window(old(self)@, resized@, set_area@, tickets@);
            lemma_tick_keeps_loot(old(self)@, resized@, set_area@, tickets@);
        }
        let recycled = self.advance(resized, set_area);
        let triggers = recycled.spawned.len();
        let mut requested: Vec<SpawnEncounter> = Vec::new();
        let mut j: usize = 0;
        while j < triggers
            invariant
                j <= triggers,
                requested@ == spec_requests(self@.current_area, tickets@, j as nat),
            decreases triggers - j,
        {
            if j < tickets.len() {
                match draw_encounter_with(&self.current_area, tickets[j]) {
                    Some(request) => {
                        requested.push(request);
                    },
                    None => {},
                }
            }
            j += 1;
        }
        self.settle(requested, recycled)
    }

    /// Runs one tick with tickets from the thread's random generator: what
    /// a tick with some list of tickets does, one ticket for each tile
    /// created.
    pub fn tick(&mut self, resized: &Vec<Viewport>, set_area: &Vec<SetArea>) -> (report: TickReport)
        ensures
            exists|tickets: Seq<u128>|
                {
                    &&& #[trigger] tickets.len() == report.spawned@.len()
                    &&& final(self)@ == old(self)@.spec_tick(resized@, set_area@, tickets).world
                    &&& report@ == old(self)@.spec_tick(resized@, set_area@, tickets).report
                },
            final(self)@.backgrounds.len() == old(self)@.backgrounds.len(),
            report.peak_backgrounds <= old(self)@.backgrounds.len() + 1,
            final(self)@.player_loot.0 >= old(self)@.player_loot.0,
    {
        let recycled = self.advance(resized, set_area);
        let triggers = recycled.spawned.len();
        let mut requested: Vec<SpawnEncounter> = Vec::new();
        let ghost mut tickets: Seq<u128> = Seq::empty();
        let mut j: usize = 0;
        while j < triggers
            invariant
                j <= triggers,
                tickets.len() == j,
                requested@ == spec_requests(self@.current_area, tickets, j as nat),
            decreases triggers - j,
        {
            let ghost before = tickets;
            let drawn = draw_encounter(&self.current_area);
            proof {
                let ticket: u128 = if drawn is Some {
                    choose|ticket: u128|
                        ticket < spec_encounter_span(self@.current_area) && drawn
                            == spec_encounter_request(self@.current_area, ticket as nat)
                } else {
                    0
                };
                tickets = before.push(ticket);
                lemma_requests_ignore_later_tickets(self@.current_area, before, tickets, j as nat);
                if drawn is None {
                    lemma_no_span_no_request(self@.current_area, ticket as nat);
                }
            }
            match drawn {
                Some(request) => {
                    requested.push(request);
                },
                None => {},
            }
            j += 1;
        }
        proof {
            lemma_tick_keeps_window(old(self)@, resized@, set_area@, tickets);
            lemma_tick_keeps_loot(old(self)@, resized@, set_area@, tickets);
        }
        self.settle(requested, recycled)
    }
}

/// The requests of the first triggers depend on the tickets at their places
/// only.
pub proof fn lemma_requests_ignore_later_tickets(
    area: AreaView,
    tickets: Seq<u128>,
    longer: Seq<u128>,
    triggers: nat,
)
    requires
        triggers <= tickets.len() <= longer.len(),
        forall|i: int| 0 <= i < tickets.len() ==> tickets[i] == longer[i],
    ensures
        spec_requests(area, tickets, triggers) == spec_requests(area, longer, triggers),
    decreases triggers,
{
    if triggers > 0 {
        lemma_requests_ignore_later_tickets(area, tickets, longer, (triggers - 1) as nat);
    }
}

/// An area whose encounter draw chooses among no tickets schedules nothing,
/// whatever the ticket.
pub proof fn lemma_no_span_no_request(area: AreaView, ticket: nat)
    requires
        spec_encounter_span(area) == 0,
    ensures
        spec_encounter_request(area, ticket) is None,
{
}

} // verus!
