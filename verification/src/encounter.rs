//! Encounters: what a draw schedules, how encounters travel along the lanes
//! and how they are resolved when they reach the player.

use crate::area::{AreaView, CurrentArea};
use crate::chance::{spec_draw, spec_span, ChanceKind, Weightings};
use crate::player::{spec_looted, PlayerLoot};
use crate::{
    shift_left, spec_shift_left, Position, SpawnLocations, CHARACTER_LAYER, CHARACTER_SCALE,
    ENCOUNTER_LAYER, ENCOUNTER_SCALE, LANES,
};
use vstd::prelude::*;

verus! {

/// What a loot encounter yields.
#[derive(Clone, Copy, Debug, PartialEq, Eq, Structural)]
pub enum LootKind {
    Money,
}

impl LootKind {
    /// The name shown for this kind of loot.
    pub fn label(&self) -> (name: &'static str)
        ensures
            name@ == "Loot"@,
    {
        match self {
            LootKind::Money => "Loot",
        }
    }
}

/// What meets the player.
#[derive(Clone, Copy, Debug, PartialEq, Eq, Structural)]
pub enum EncounterKind {
    Loot,
    Combat,
}

impl EncounterKind {
    /// The name shown for this kind of encounter.
    pub fn label(&self) -> (name: &'static str)
        ensures
            name@ == match *self {
                EncounterKind::Loot => "Loot"@,
                EncounterKind::Combat => "Combat"@,
            },
    {
        match self {
            EncounterKind::Loot => "Loot",
            EncounterKind::Combat => "Combat",
        }
    }
}

/// The loot that a collected encounter gave.
#[derive(Clone, Copy, Debug, PartialEq, Eq, Structural)]
pub struct Loot {
    pub kind: LootKind,
}

/// An encounter travelling along a lane. The serial number tells the
/// encounters of a session apart.
#[derive(Clone, Copy, Debug, PartialEq, Eq, Structural)]
pub struct Encounter {
    pub serial: u64,
    pub kind: EncounterKind,
    pub lane: usize,
    pub position: Position,
    pub scale: i64,
}

impl Encounter {
    /// The loot this encounter gives when it is collected.
    pub fn loot(&self) -> (loot: Option<Loot>)
        ensures
            loot == if self.kind == EncounterKind::Loot {
                Some(Loot { kind: LootKind::Money })
            } else {
                None
            },
    {
        match self.kind {
            EncounterKind::Loot => Some(Loot { kind: LootKind::Money }),
            EncounterKind::Combat => None,
        }
    }
}

/// A request to spawn an encounter of a kind in a lane.
#[derive(Clone, Copy, Debug, PartialEq, Eq, Structural)]
pub struct SpawnEncounter {
    pub kind: EncounterKind,
    pub lane: usize,
}

/// What has become of an encounter when the interaction boundary is
/// evaluated.
#[derive(Clone, Copy, Debug, PartialEq, Eq, Structural)]
pub enum Outcome {
    Remains,
    Collected,
    HandedOff,
}

/// What one evaluation of the interaction boundary did: the loot encounters
/// collected and the combat encounters handed on, each in order.
#[derive(Debug)]
pub struct Resolved {
    pub collected: Vec<Encounter>,
    pub handed_off: Vec<Encounter>,
}

/// The request that a draw from a weighting schedules. A loot weighting
/// schedules loot and an enemy weighting combat, in the lane that the drawn
/// identifier falls to when the identifiers are dealt to the lanes in turn.
/// No draw, or a weighting of another kind, schedules nothing.
pub open spec fn spec_scheduled(kind: ChanceKind, drawn: Option<usize>) -> Option<SpawnEncounter> {
    match drawn {
        None => None,
        Some(id) => if kind == ChanceKind::LOOT {
            Some(SpawnEncounter { kind: EncounterKind::Loot, lane: (id % LANES) as usize })
        } else if kind == ChanceKind::ENEMY {
            Some(SpawnEncounter { kind: EncounterKind::Combat, lane: (id % LANES) as usize })
        } else {
            None
        },
    }
}

/// The request that an area schedules for a ticket: that of a draw from its
/// first weighting of loot or enemies, nothing where it has none.
pub open spec fn spec_encounter_request(area: AreaView, ticket: nat) -> Option<SpawnEncounter> {
    let k = Weightings::spec_encounter_index(area.weightings, 0);
    if k < area.weightings.len() {
        spec_scheduled(area.weightings[k].kind, spec_draw(area.weightings[k].pool, ticket))
    } else {
        None
    }
}

/// Number of tickets that the encounter draw of an area chooses among; zero
/// where nothing can be drawn.
pub open spec fn spec_encounter_span(area: AreaView) -> nat {
    let k = Weightings::spec_encounter_index(area.weightings, 0);
    if k < area.weightings.len() {
        spec_span(area.weightings[k].pool)
    } else {
        0
    }
}

/// The serial number after `spawned` more encounters.
pub open spec fn spec_serial(serial: u64, spawned: nat) -> u64 {
    if serial + spawned <= u64::MAX {
        (serial + spawned) as u64
    } else {
        u64::MAX
    }
}

/// The encounter that a request spawns: at the spawn point of its lane, on
/// the layer and at the scale of its kind.
pub open spec fn spec_encounter(request: SpawnEncounter, table: SpawnLocations, serial: u64) -> Encounter {
    Encounter {
        serial,
        kind: request.kind,
        lane: request.lane,
        position: Position {
            x: table.encounters[request.lane as int].x,
            y: table.encounters[request.lane as int].y,
            layer: if request.kind == EncounterKind::Combat {
                CHARACTER_LAYER
            } else {
                ENCOUNTER_LAYER
            },
        },
        scale: if request.kind == EncounterKind::Combat {
            CHARACTER_SCALE
        } else {
            ENCOUNTER_SCALE
        },
    }
}

/// The encounters that the requests spawn, in order, numbered from `serial`
/// on. A request for a lane that does not exist spawns nothing.
pub open spec fn spec_arrivals(
    requests: Seq<SpawnEncounter>,
    table: SpawnLocations,
    serial: u64,
) -> Seq<Encounter>
    decreases requests.len(),
{
    if requests.len() == 0 {
        Seq::empty()
    } else {
        let before = spec_arrivals(requests.drop_last(), table, serial);
        if requests.last().lane < LANES {
            before.push(spec_encounter(requests.last(), table, spec_serial(serial, before.len())))
        } else {
            before
        }
    }
}

/// The encounters after one step of scrolling: each has moved left by the
/// velocity.
pub open spec fn spec_travelled(encounters: Seq<Encounter>, velocity: u32) -> Seq<Encounter> {
    Seq::new(
        encounters.len(),
        |i: int|
            Encounter {
                serial: encounters[i].serial,
                kind: encounters[i].kind,
                lane: encounters[i].lane,
                position: Position {
                    x: spec_shift_left(encounters[i].position.x as int, velocity as int) as i64,
                    y: encounters[i].position.y,
                    layer: encounters[i].position.layer,
                },
                scale: encounters[i].scale,
            },
    )
}

/// What becomes of an encounter: at or beyond the boundary, seen from the
/// right, it has reached the player; loot is then collected and combat
/// handed on.
pub open spec fn spec_outcome(encounter: Encounter, boundary: i64) -> Outcome {
    if encounter.position.x > boundary {
        Outcome::Remains
    } else if encounter.kind == EncounterKind::Loot {
        Outcome::Collected
    } else {
        Outcome::HandedOff
    }
}

/// The encounters with one outcome, in order.
pub open spec fn sift(encounters: Seq<Encounter>, boundary: i64, outcome: Outcome) -> Seq<Encounter>
    decreases encounters.len(),
{
    if encounters.len() == 0 {
        Seq::empty()
    } else if spec_outcome(encounters.last(), boundary) == outcome {
        sift(encounters.drop_last(), boundary, outcome).push(encounters.last())
    } else {
        sift(encounters.drop_last(), boundary, outcome)
    }
}

/// Every encounter has exactly one outcome.
pub proof fn lemma_sift_partitions(encounters: Seq<Encounter>, boundary: i64)
    ensures
        sift(encounters, boundary, Outcome::Remains).len() + sift(
            encounters,
            boundary,
            Outcome::Collected,
        ).len() + sift(encounters, boundary, Outcome::HandedOff).len() == encounters.len(),
    decreases encounters.len(),
{
    if encounters.len() > 0 {
        lemma_sift_partitions(encounters.drop_last(), boundary);
    }
}

/// Each encounter of a sifting has the outcome sifted for.
pub proof fn lemma_sift_outcome(encounters: Seq<Encounter>, boundary: i64, outcome: Outcome)
    ensures
        forall|i: int|
            0 <= i < sift(encounters, boundary, outcome).len() ==> spec_outcome(
                #[trigger] sift(encounters, boundary, outcome)[i],
                boundary,
            ) == outcome,
    decreases encounters.len(),
{
    if encounters.len() > 0 {
        lemma_sift_outcome(encounters.drop_last(), boundary, outcome);
    }
}

/// A sifting of encounters that all have another outcome is empty, and one
/// of encounters that all have the outcome sifted for is the whole list.
pub proof fn lemma_sift_uniform(
    encounters: Seq<Encounter>,
    boundary: i64,
    common: Outcome,
    outcome: Outcome,
)
    requires
        forall|i: int| 0 <= i < encounters.len() ==> spec_outcome(encounters[i], boundary) == common,
    ensures
        common == outcome ==> sift(encounters, boundary, outcome) == encounters,
        common != outcome ==> sift(encounters, boundary, outcome).len() == 0,
    decreases encounters.len(),
{
    if encounters.len() > 0 {
        let front = encounters.drop_last();
        assert forall|i: int| 0 <= i < front.len() implies spec_outcome(front[i], boundary)
            == common by {
            assert(front[i] == encounters[i]);
        }
        lemma_sift_uniform(front, boundary, common, outcome);
        assert(encounters.last() == encounters[encounters.len() - 1]);
        if common == outcome {
            assert(front.push(encounters.last()) == encounters);
        }
    }
}

/// An encounter is resolved once: after the boundary has been evaluated, a
/// second evaluation finds nothing to collect and nothing to hand on, and
/// leaves the remaining encounters as they are.
pub proof fn lemma_resolved_once(encounters: Seq<Encounter>, boundary: i64)
    ensures
        sift(sift(encounters, boundary, Outcome::Remains), boundary, Outcome::Collected).len() == 0,
        sift(sift(encounters, boundary, Outcome::Remains), boundary, Outcome::HandedOff).len() == 0,
        sift(sift(encounters, boundary, Outcome::Remains), boundary, Outcome::Remains) == sift(
            encounters,
            boundary,
            Outcome::Remains,
        ),
{
    let remaining = sift(encounters, boundary, Outcome::Remains);
    lemma_sift_outcome(encounters, boundary, Outcome::Remains);
    lemma_sift_uniform(remaining, boundary, Outcome::Remains, Outcome::Collected);
    lemma_sift_uniform(remaining, boundary, Outcome::Remains, Outcome::HandedOff);
    lemma_sift_uniform(remaining, boundary, Outcome::Remains, Outcome::Remains);
}

/// Whether some encounter carries the serial number.
pub open spec fn holds_serial(encounters: Seq<Encounter>, serial: u64) -> bool {
    exists|i: int| 0 <= i < encounters.len() && encounters[i].serial == serial
}

/// Whether the serial numbers name the encounters: no two encounters carry
/// the same number, and every number lies below the next one to be given.
pub open spec fn numbered(encounters: Seq<Encounter>, next: u64) -> bool {
    &&& forall|i: int, j: int|
        0 <= i < j < encounters.len() ==> encounters[i].serial != encounters[j].serial
    &&& forall|i: int| 0 <= i < encounters.len() ==> (#[trigger] encounters[i]).serial < next
}

/// No more encounters arrive than are requested, and while the serial
/// numbers last each arrival carries the number that follows the one
/// before it.
pub proof fn lemma_arrivals_in_sequence(
    requests: Seq<SpawnEncounter>,
    table: SpawnLocations,
    serial: u64,
)
    ensures
        spec_arrivals(requests, table, serial).len() <= requests.len(),
        forall|i: int|
            0 <= i < spec_arrivals(requests, table, serial).len() && serial + i <= u64::MAX ==> (
            #[trigger] spec_arrivals(requests, table, serial)[i]).serial == serial + i,
    decreases requests.len(),
{
    if requests.len() > 0 {
        lemma_arrivals_in_sequence(requests.drop_last(), table, serial);
    }
}

/// The encounters of a sifting are encounters of the list, and where the
/// serial numbers name the encounters of the list they name those of the
/// sifting.
pub proof fn lemma_sift_keeps_numbers(
    encounters: Seq<Encounter>,
    boundary: i64,
    outcome: Outcome,
    next: u64,
)
    ensures
        forall|serial: u64| #[trigger]
            holds_serial(sift(encounters, boundary, outcome), serial) ==> holds_serial(
                encounters,
                serial,
            ),
        numbered(encounters, next) ==> numbered(sift(encounters, boundary, outcome), next),
    decreases encounters.len(),
{
    if encounters.len() > 0 {
        let front = encounters.drop_last();
        let last = encounters.last();
        let n = front.len() as int;
        let sifted = sift(encounters, boundary, outcome);
        let sifted_front = sift(front, boundary, outcome);
        lemma_sift_keeps_numbers(front, boundary, outcome, next);
        assert(encounters[n] == last);
        assert forall|serial: u64| holds_serial(front, serial) implies holds_serial(
            encounters,
            serial,
        ) by {
            let i = choose|i: int| 0 <= i < front.len() && front[i].serial == serial;
            assert(encounters[i].serial == serial);
        }
        assert forall|serial: u64| holds_serial(sifted, serial) implies holds_serial(
            encounters,
            serial,
        ) by {
            let i = choose|i: int| 0 <= i < sifted.len() && sifted[i].serial == serial;
            if i < sifted_front.len() {
                assert(sifted_front[i].serial == serial);
                assert(holds_serial(sifted_front, serial));
            } else {
                assert(encounters[n].serial == serial);
            }
        }
        if numbered(encounters, next) {
            assert(numbered(front, next)) by {
                assert forall|i: int, j: int| 0 <= i < j < front.len() implies front[i].serial
                    != front[j].serial by {
                    assert(encounters[i].serial != encounters[j].serial);
                }
                assert forall|i: int| 0 <= i < front.len() implies (#[trigger] front[i]).serial
                    < next by {
                    assert(encounters[i].serial < next);
                }
            }
            assert forall|i: int, j: int| 0 <= i < j < sifted.len() implies sifted[i].serial
                != sifted[j].serial by {
                if j < sifted_front.len() {
                    assert(sifted_front[i].serial != sifted_front[j].serial);
                } else {
                    assert(sifted_front[i].serial == sifted[i].serial);
                    assert(holds_serial(sifted_front, sifted[i].serial));
                    let k = choose|k: int| 0 <= k < front.len() && front[k].serial == sifted[i].serial;
                    assert(encounters[k].serial != encounters[n].serial);
                }
            }
            assert forall|i: int| 0 <= i < sifted.len() implies (#[trigger] sifted[i]).serial
                < next by {
                if i < sifted_front.len() {
                    assert(sifted_front[i].serial < next);
                } else {
                    assert(encounters[n].serial < next);
                }
            }
        }
    }
}

/// While the serial numbers last, they name the encounters through a tick:
/// where they name the encounters on the lanes, they name those that
/// remain after the encounters have travelled, the requested ones have
/// arrived and the interaction boundary has been evaluated.
pub proof fn lemma_numbers_last(
    encounters: Seq<Encounter>,
    velocity: u32,
    requests: Seq<SpawnEncounter>,
    table: SpawnLocations,
    serial: u64,
    boundary: i64,
)
    requires
        numbered(encounters, serial),
        serial + requests.len() <= u64::MAX,
    ensures
        numbered(
            sift(
                spec_travelled(encounters, velocity) + spec_arrivals(requests, table, serial),
                boundary,
                Outcome::Remains,
            ),
            spec_serial(serial, spec_arrivals(requests, table, serial).len()),
        ),
{
    let travelled = spec_travelled(encounters, velocity);
    let arrived = spec_arrivals(requests, table, serial);
    let all = travelled + arrived;
    let next = spec_serial(serial, arrived.len());
    lemma_arrivals_in_sequence(requests, table, serial);
    assert(numbered(all, next)) by {
        assert forall|i: int| 0 <= i < all.len() implies (#[trigger] all[i]).serial == if i
            < travelled.len() {
            encounters[i].serial
        } else {
            (serial + (i - travelled.len())) as u64
        } by {
            if i >= travelled.len() {
                assert(all[i] == arrived[i - travelled.len()]);
            }
        }
        assert forall|i: int, j: int| 0 <= i < j < all.len() implies all[i].serial
            != all[j].serial by {
            if j < travelled.len() {
                assert(encounters[i].serial != encounters[j].serial);
            } else if i < travelled.len() {
                assert(encounters[i].serial < serial);
            }
        }
    }
    lemma_sift_keeps_numbers(all, boundary, Outcome::Remains, next);
}

/// The request that a draw from a weighting of `kind` schedules.
pub fn schedule_encounter(kind: ChanceKind, drawn: Option<usize>) -> (request: Option<SpawnEncounter>)
    ensures
        request == spec_scheduled(kind, drawn),
{
    match drawn {
        None => None,
        Some(id) => match kind {
            ChanceKind::LOOT => Some(SpawnEncounter { kind: EncounterKind::Loot, lane: id % LANES }),
            ChanceKind::ENEMY => Some(
                SpawnEncounter { kind: EncounterKind::Combat, lane: id % LANES },
            ),
            _ => None,
        },
    }
}

/// Draws the encounter of the active area with a ticket from the thread's
/// random generator. Nothing is scheduled where the area has no weighting of
/// loot or enemies or where its pool is empty; else the request of some
/// ticket of the span.
pub fn draw_encounter(current_area: &CurrentArea) -> (request: Option<SpawnEncounter>)
    ensures
        request is None <==> spec_encounter_span(current_area@) == 0,
        request is Some ==> exists|ticket: u128|
            ticket < spec_encounter_span(current_area@) && request == spec_encounter_request(
                current_area@,
                ticket as nat,
            ),
{
    match current_area.0.weightings.encounter_weighting() {
        None => None,
        Some(weighting) => {
            let drawn = weighting.weigh();
            let request = schedule_encounter(weighting.kind, drawn);
            proof {
                if drawn is Some {
                    let ticket = choose|ticket: u128|
                        ticket < spec_span(weighting@.pool) && drawn == spec_draw(
                            weighting@.pool,
                            ticket as nat,
                        );
                    assert(request == spec_encounter_request(current_area@, ticket as nat));
                }
            }
            request
        },
    }
}

/// Draws the encounter of the active area with the given ticket.
pub fn draw_encounter_with(current_area: &CurrentArea, ticket: u128) -> (request: Option<
    SpawnEncounter,
>)
    ensures
        request == spec_encounter_request(current_area@, ticket as nat),
        request is None <==> spec_encounter_span(current_area@) == 0,
{
    match current_area.0.weightings.encounter_weighting() {
        None => None,
        Some(weighting) => {
            let drawn = weighting.weigh_with(ticket);
            schedule_encounter(weighting.kind, drawn)
        },
    }
}

/// Serves the spawn requests in order: each request for an existing lane
/// creates an encounter at the lane's spawn point and takes the next serial
/// number. A request for a lane that does not exist creates nothing.
pub fn evr_spawn_encounter(
    evr_spawn_encounter: &Vec<SpawnEncounter>,
    spawn_locations: &SpawnLocations,
    encounters: &mut Vec<Encounter>,
    serial: &mut u64,
)
    ensures
        final(encounters)@ == old(encounters)@ + spec_arrivals(
            evr_spawn_encounter@,
            *spawn_locations,
            *old(serial),
        ),
        *final(serial) == spec_serial(
            *old(serial),
            spec_arrivals(evr_spawn_encounter@, *spawn_locations, *old(serial)).len(),
        ),
{
    let mut i: usize = 0;
    while i < evr_spawn_encounter.len()
        invariant
            i <= evr_spawn_encounter@.len(),
            encounters@ == old(encounters)@ + spec_arrivals(
                evr_spawn_encounter@.take(i as int),
                *spawn_locations,
                *old(serial),
            ),
            *serial == spec_serial(
                *old(serial),
                spec_arrivals(evr_spawn_encounter@.take(i as int), *spawn_locations, *old(serial)).len(),
            ),
        decreases evr_spawn_encounter@.len() - i,
    {
        assert(evr_spawn_encounter@.take(i as int + 1).drop_last() == evr_spawn_encounter@.take(
            i as int,
        ));
        let ghost before = spec_arrivals(
            evr_spawn_encounter@.take(i as int),
            *spawn_locations,
            *old(serial),
        );
        let request = evr_spawn_encounter[i];
        if request.lane < LANES {
            let spot = spawn_locations.encounters[request.lane];
            let (scale, layer) = match request.kind {
                EncounterKind::Combat => (CHARACTER_SCALE, CHARACTER_LAYER),
                EncounterKind::Loot => (ENCOUNTER_SCALE, ENCOUNTER_LAYER),
            };
            let encounter = Encounter {
                serial: *serial,
                kind: request.kind,
                lane: request.lane,
                position: Position { x: spot.x, y: spot.y, layer },
                scale,
            };
            assert(encounter == spec_encounter(request, *spawn_locations, *serial));
            encounters.push(encounter);
            if *serial < u64::MAX {
                *serial = *serial + 1;
            }
            assert(encounters@ == old(encounters)@ + before.push(encounter));
        }
        i += 1;
    }
    assert(evr_spawn_encounter@.take(i as int) == evr_spawn_encounter@);
}

/// Scrolls every encounter to the left by the velocity.
pub fn move_encounter(encounters: &mut Vec<Encounter>, velocity: u32)
    ensures
        final(encounters)@ == spec_travelled(old(encounters)@, velocity),
{
    let n = encounters.len();
    let mut i: usize = 0;
    while i < n
        invariant
            i <= n,
            encounters@.len() == n,
            old(encounters)@.len() == n,
            forall|j: int|
                0 <= j < i ==> encounters@[j] == spec_travelled(old(encounters)@, velocity)[j],
            forall|j: int| i <= j < n ==> encounters@[j] == old(encounters)@[j],
        decreases n - i,
    {
        let encounter = encounters[i];
        encounters.set(
            i,
            Encounter {
                serial: encounter.serial,
                kind: encounter.kind,
                lane: encounter.lane,
                position: Position {
                    x: shift_left(encounter.position.x, velocity),
                    y: encounter.position.y,
                    layer: encounter.position.layer,
                },
                scale: encounter.scale,
            },
        );
        i += 1;
    }
    assert(encounters@ =~= spec_travelled(old(encounters)@, velocity));
}

/// Evaluates the interaction boundary, the player's column, for every
/// encounter in order. An encounter at or left of it has reached the
/// player: loot is collected, which removes it and counts one item of loot;
/// combat is handed on, which removes it from the lanes without counting.
/// All others remain.
pub fn collect_loot(
    encounters: &mut Vec<Encounter>,
    player_loot: &mut PlayerLoot,
    spawn_locations: &SpawnLocations,
) -> (resolved: Resolved)
    ensures
        final(encounters)@ == sift(old(encounters)@, spawn_locations.characters[0].x, Outcome::Remains),
        resolved.collected@ == sift(
            old(encounters)@,
            spawn_locations.characters[0].x,
            Outcome::Collected,
        ),
        resolved.handed_off@ == sift(
            old(encounters)@,
            spawn_locations.characters[0].x,
            Outcome::HandedOff,
        ),
        final(player_loot).0 == spec_looted(old(player_loot).0, resolved.collected@.len()),
        final(player_loot).0 >= old(player_loot).0,
{
    let boundary = spawn_locations.interaction_x();
    let mut remaining: Vec<Encounter> = Vec::new();
    let mut collected: Vec<Encounter> = Vec::new();
    let mut handed_off: Vec<Encounter> = Vec::new();
    let mut i: usize = 0;
    while i < encounters.len()
        invariant
            i <= encounters@.len(),
            encounters@ == old(encounters)@,
            remaining@ == sift(encounters@.take(i as int), boundary, Outcome::Remains),
            collected@ == sift(encounters@.take(i as int), boundary, Outcome::Collected),
            handed_off@ == sift(encounters@.take(i as int), boundary, Outcome::HandedOff),
            player_loot.0 == spec_looted(old(player_loot).0, collected@.len()),
        decreases encounters@.len() - i,
    {
        assert(encounters@.take(i as int + 1).drop_last() == encounters@.take(i as int));
        let encounter = encounters[i];
        if encounter.position.x <= boundary {
            match encounter.kind {
                EncounterKind::Loot => {
                    collected.push(encounter);
                    player_loot.collect();
                },
                EncounterKind::Combat => {
                    handed_off.push(encounter);
                },
            }
        } else {
            remaining.push(encounter);
        }
        i += 1;
    }
    assert(encounters@.take(i as int) == encounters@);
    *encounters = remaining;
    Resolved { collected, handed_off }
}

} // verus!
