use rpgpr::area::{Area, AreaKind, CurrentArea};
use rpgpr::chance::{ChanceKind, Pool, Weighting, Weightings};
use rpgpr::encounter::{
    collect_loot, draw_encounter, draw_encounter_with, evr_spawn_encounter, move_encounter,
    schedule_encounter, Encounter, EncounterKind, Loot, LootKind, SpawnEncounter,
};
use rpgpr::player::{evr_spawn_player, evw_spawn_player, PlayerLoot, SpawnPlayer};
use rpgpr::{
    Position, SpawnLocations, Title, CHARACTER_LAYER, CHARACTER_SCALE, ENCOUNTER_LAYER,
    ENCOUNTER_SCALE,
};

fn area_with(weightings: Vec<Weighting>) -> CurrentArea {
    CurrentArea(Area {
        title: Title("Somewhere".to_string()),
        kind: AreaKind::Forest,
        weightings: Weightings(weightings),
    })
}

fn pool_of(entries: &[(usize, u64)]) -> Pool {
    let mut pool = Pool::new();
    for (id, weight) in entries {
        pool.insert(*id, *weight);
    }
    pool
}

fn loot_at(serial: u64, x: i64) -> Encounter {
    Encounter {
        serial,
        kind: EncounterKind::Loot,
        lane: 0,
        position: Position { x, y: 0, layer: ENCOUNTER_LAYER },
        scale: ENCOUNTER_SCALE,
    }
}

fn combat_at(serial: u64, x: i64) -> Encounter {
    Encounter {
        serial,
        kind: EncounterKind::Combat,
        lane: 1,
        position: Position { x, y: 200, layer: CHARACTER_LAYER },
        scale: CHARACTER_SCALE,
    }
}

#[test]
fn the_names_of_the_kinds() {
    assert_eq!(LootKind::Money.label(), "Loot");
    assert_eq!(EncounterKind::Loot.label(), "Loot");
    assert_eq!(EncounterKind::Combat.label(), "Combat");
}

#[test]
fn loot_encounters_give_money_and_combat_gives_nothing() {
    assert_eq!(loot_at(0, 0).loot(), Some(Loot { kind: LootKind::Money }));
    assert_eq!(combat_at(0, 0).loot(), None);
}

#[test]
fn a_draw_schedules_by_the_kind_of_the_weighting() {
    assert_eq!(
        schedule_encounter(ChanceKind::LOOT, Some(4)),
        Some(SpawnEncounter { kind: EncounterKind::Loot, lane: 1 })
    );
    assert_eq!(
        schedule_encounter(ChanceKind::ENEMY, Some(5)),
        Some(SpawnEncounter { kind: EncounterKind::Combat, lane: 2 })
    );
    assert_eq!(
        schedule_encounter(ChanceKind::LOOT, Some(0)),
        Some(SpawnEncounter { kind: EncounterKind::Loot, lane: 0 })
    );
    assert_eq!(schedule_encounter(ChanceKind::BACKGROUND, Some(4)), None);
    assert_eq!(schedule_encounter(ChanceKind::DEFAULT, Some(4)), None);
    assert_eq!(schedule_encounter(ChanceKind::LOOT, None), None);
    assert_eq!(schedule_encounter(ChanceKind::ENEMY, None), None);
}

#[test]
fn the_encounter_of_an_area_is_drawn_from_its_first_encounter_weighting() {
    let area = area_with(vec![
        Weighting::new(0, 0, ChanceKind::BACKGROUND, pool_of(&[(9, 1)])),
        Weighting::new(0, 0, ChanceKind::LOOT, pool_of(&[(3, 2), (7, 2)])),
        Weighting::new(0, 0, ChanceKind::ENEMY, pool_of(&[(1, 1)])),
    ]);
    assert_eq!(
        draw_encounter_with(&area, 0),
        Some(SpawnEncounter { kind: EncounterKind::Loot, lane: 0 })
    );
    assert_eq!(
        draw_encounter_with(&area, 2),
        Some(SpawnEncounter { kind: EncounterKind::Loot, lane: 1 })
    );
    assert_eq!(
        draw_encounter_with(&area, 4),
        Some(SpawnEncounter { kind: EncounterKind::Loot, lane: 0 })
    );
}

#[test]
fn nothing_is_drawn_without_a_weighting_or_from_an_empty_pool() {
    let bare = area_with(vec![Weighting::new(0, 0, ChanceKind::BACKGROUND, pool_of(&[(9, 1)]))]);
    let empty = area_with(vec![Weighting::new(0, 0, ChanceKind::ENEMY, Pool::new())]);
    let none = area_with(Vec::new());
    for area in [&bare, &empty, &none] {
        assert_eq!(draw_encounter_with(area, 0), None);
        assert_eq!(draw_encounter_with(area, 17), None);
        for _ in 0..200 {
            assert_eq!(draw_encounter(area), None);
        }
    }
}

#[test]
fn a_random_draw_schedules_one_of_the_area_s_encounters() {
    let area = area_with(vec![Weighting::new(0, 0, ChanceKind::ENEMY, pool_of(&[(0, 1), (2, 1), (6, 0)]))]);
    let mut lanes = [false; 3];
    for _ in 0..2_000 {
        let request = draw_encounter(&area).unwrap();
        assert_eq!(request.kind, EncounterKind::Combat);
        lanes[request.lane] = true;
    }
    assert_eq!(lanes, [true, false, true]);
}

#[test]
fn requests_create_encounters_at_the_spawn_points_of_their_lanes() {
    let table = SpawnLocations::for_width(1920);
    let mut encounters = vec![loot_at(40, 12)];
    let mut serial = 41;
    let requests = vec![
        SpawnEncounter { kind: EncounterKind::Loot, lane: 2 },
        SpawnEncounter { kind: EncounterKind::Combat, lane: 3 },
        SpawnEncounter { kind: EncounterKind::Combat, lane: 1 },
    ];
    evr_spawn_encounter(&requests, &table, &mut encounters, &mut serial);
    assert_eq!(
        encounters,
        vec![
            loot_at(40, 12),
            Encounter {
                serial: 41,
                kind: EncounterKind::Loot,
                lane: 2,
                position: Position { x: 2020, y: -200, layer: 1 },
                scale: 4,
            },
            Encounter {
                serial: 42,
                kind: EncounterKind::Combat,
                lane: 1,
                position: Position { x: 2020, y: 200, layer: 2 },
                scale: 8,
            },
        ]
    );
    assert_eq!(serial, 43);
}

#[test]
fn the_serial_number_stops_at_its_largest_value() {
    let table = SpawnLocations::for_width(1920);
    let mut encounters = Vec::new();
    let mut serial = u64::MAX - 1;
    let request = SpawnEncounter { kind: EncounterKind::Loot, lane: 0 };
    evr_spawn_encounter(&vec![request, request, request], &table, &mut encounters, &mut serial);
    let serials: Vec<u64> = encounters.iter().map(|e| e.serial).collect();
    assert_eq!(serials, vec![u64::MAX - 1, u64::MAX, u64::MAX]);
    assert_eq!(serial, u64::MAX);
}

#[test]
fn every_encounter_moves_left_by_the_velocity() {
    let mut encounters = vec![loot_at(0, 2020), combat_at(1, -5), loot_at(2, i64::MIN + 1)];
    move_encounter(&mut encounters, 2);
    assert_eq!(encounters, vec![loot_at(0, 2018), combat_at(1, -7), loot_at(2, i64::MIN)]);
}

#[test]
fn loot_exactly_at_the_boundary_is_collected_exactly_once() {
    let table = SpawnLocations::for_width(1920);
    let mut encounters = vec![loot_at(0, -760)];
    let mut loot = PlayerLoot(0);
    let resolved = collect_loot(&mut encounters, &mut loot, &table);
    assert_eq!(resolved.collected, vec![loot_at(0, -760)]);
    assert!(resolved.handed_off.is_empty());
    assert!(encounters.is_empty());
    assert_eq!(loot, PlayerLoot(1));
    for _ in 0..3 {
        move_encounter(&mut encounters, 1);
        let again = collect_loot(&mut encounters, &mut loot, &table);
        assert!(again.collected.is_empty());
        assert_eq!(loot, PlayerLoot(1));
    }
}

#[test]
fn loot_one_unit_before_the_boundary_remains() {
    let table = SpawnLocations::for_width(1920);
    let mut encounters = vec![loot_at(0, -759)];
    let mut loot = PlayerLoot(4);
    let resolved = collect_loot(&mut encounters, &mut loot, &table);
    assert!(resolved.collected.is_empty());
    assert_eq!(encounters, vec![loot_at(0, -759)]);
    assert_eq!(loot, PlayerLoot(4));
}

#[test]
fn each_collected_loot_counts_one_and_combat_counts_nothing() {
    let table = SpawnLocations::for_width(1920);
    let mut encounters = vec![
        loot_at(0, -800),
        combat_at(1, -760),
        loot_at(2, 100),
        loot_at(3, -761),
        combat_at(4, -700),
        loot_at(5, -760),
    ];
    let mut loot = PlayerLoot(10);
    let resolved = collect_loot(&mut encounters, &mut loot, &table);
    assert_eq!(resolved.collected, vec![loot_at(0, -800), loot_at(3, -761), loot_at(5, -760)]);
    assert_eq!(resolved.handed_off, vec![combat_at(1, -760)]);
    assert_eq!(encounters, vec![loot_at(2, 100), combat_at(4, -700)]);
    assert_eq!(loot, PlayerLoot(13));
}

#[test]
fn combat_is_handed_on_once() {
    let table = SpawnLocations::for_width(1920);
    let mut encounters = vec![combat_at(7, -760)];
    let mut loot = PlayerLoot(0);
    let first = collect_loot(&mut encounters, &mut loot, &table);
    assert_eq!(first.handed_off, vec![combat_at(7, -760)]);
    let second = collect_loot(&mut encounters, &mut loot, &table);
    assert!(second.handed_off.is_empty());
    assert_eq!(loot, PlayerLoot(0));
}

#[test]
fn a_full_counter_stays_full() {
    let table = SpawnLocations::for_width(1920);
    let mut encounters = vec![loot_at(0, -800), loot_at(1, -800)];
    let mut loot = PlayerLoot(i32::MAX - 1);
    let resolved = collect_loot(&mut encounters, &mut loot, &table);
    assert_eq!(resolved.collected.len(), 2);
    assert_eq!(loot, PlayerLoot(i32::MAX));
    let mut counter = PlayerLoot(-3);
    counter.collect();
    assert_eq!(counter, PlayerLoot(-2));
    assert_eq!(PlayerLoot::default(), PlayerLoot(0));
}

#[test]
fn the_player_spawns_at_the_character_position_of_the_lane() {
    let table = SpawnLocations::for_width(1920);
    let mut requests = vec![SpawnPlayer(2), SpawnPlayer(3)];
    evw_spawn_player(&mut requests);
    assert_eq!(requests, vec![SpawnPlayer(2), SpawnPlayer(3), SpawnPlayer(0)]);
    let spawns = evr_spawn_player(&requests, &table);
    assert_eq!(
        spawns,
        vec![
            Position { x: -760, y: -200, layer: CHARACTER_LAYER },
            Position { x: -760, y: 0, layer: CHARACTER_LAYER },
        ]
    );
}
