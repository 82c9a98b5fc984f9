use rpgpr::{
    initialize_spawn_locations, shift_left, shift_right, AppState, GameState, Position,
    SpawnLocations, Title, Viewport, BACKGROUND_GAP, BACKGROUND_LAYER, BACKGROUND_SLOTS,
    BACKGROUND_WINDOW, CHARACTER_LAYER, ENCOUNTER_LAYER, LANES,
};

#[test]
fn the_table_for_a_viewport_of_1920() {
    let table = SpawnLocations::for_width(1920);
    assert_eq!(table.characters[0], Position { x: -760, y: 0, layer: CHARACTER_LAYER });
    assert_eq!(table.characters[1], Position { x: -760, y: 200, layer: CHARACTER_LAYER });
    assert_eq!(table.characters[2], Position { x: -760, y: -200, layer: CHARACTER_LAYER });
    let xs: Vec<i64> = table.backgrounds.iter().map(|p| p.x).collect();
    assert_eq!(xs, vec![0, -320, -640, -960, 320, 640, 960, 1280, 1438]);
    for slot in table.backgrounds {
        assert_eq!(slot.y, 0);
        assert_eq!(slot.layer, BACKGROUND_LAYER);
    }
    assert_eq!(table.encounters[0], Position { x: 2020, y: 0, layer: ENCOUNTER_LAYER });
    assert_eq!(table.encounters[1], Position { x: 2020, y: 200, layer: ENCOUNTER_LAYER });
    assert_eq!(table.encounters[2], Position { x: 2020, y: -200, layer: ENCOUNTER_LAYER });
    assert_eq!(table.despawns, [-1120, 4000]);
    assert_eq!(table.despawn_left(), -1120);
    assert_eq!(table.interaction_x(), -760);
}

#[test]
fn the_table_for_an_odd_width_rounds_the_half_down() {
    let table = SpawnLocations::for_width(641);
    assert_eq!(table.characters[0].x, -120);
    assert_eq!(table.encounters[0].x, 741);
    assert_eq!(table.despawns, [-480, 1442]);
}

#[test]
fn the_table_for_the_narrowest_and_the_widest_viewport() {
    let narrow = SpawnLocations::for_width(0);
    assert_eq!(narrow.characters[0].x, 200);
    assert_eq!(narrow.encounters[0].x, 100);
    assert_eq!(narrow.despawns, [-160, 160]);
    let wide = SpawnLocations::for_width(u32::MAX);
    assert_eq!(wide.characters[0].x, 200 - 2147483647);
    assert_eq!(wide.encounters[0].x, 4294967295 + 100);
    assert_eq!(wide.despawns, [-2147483647 - 160, 2 * 4294967295 + 160]);
}

#[test]
fn the_blank_table_lies_at_the_origin() {
    let table = SpawnLocations::default();
    for spot in table.characters.iter().chain(table.backgrounds.iter()).chain(table.encounters.iter()) {
        assert_eq!(*spot, Position { x: 0, y: 0, layer: 0 });
    }
    assert_eq!(table.despawns, [0, 0]);
}

#[test]
fn the_table_follows_the_last_viewport_change() {
    let mut table = SpawnLocations::default();
    let changes = vec![Viewport { width: 640, height: 480 }, Viewport { width: 3840, height: 2160 }];
    initialize_spawn_locations(&changes, &mut table);
    assert_eq!(table.characters[0].x, 200 - 1920);
    assert_eq!(table.despawns, [-1920 - 160, 7680 + 160]);
}

#[test]
fn the_table_stays_without_a_viewport_change() {
    let mut table = SpawnLocations::for_width(1920);
    initialize_spawn_locations(&Vec::new(), &mut table);
    assert_eq!(table.despawns, [-1120, 4000]);
    assert_eq!(table.characters[0].x, -760);
}

#[test]
fn moving_stops_at_the_ends_of_the_axis() {
    assert_eq!(shift_left(10, 3), 7);
    assert_eq!(shift_left(-5, 0), -5);
    assert_eq!(shift_left(i64::MIN + 2, 3), i64::MIN);
    assert_eq!(shift_left(i64::MIN, u32::MAX), i64::MIN);
    assert_eq!(shift_right(10, 319), 329);
    assert_eq!(shift_right(i64::MAX - 2, 3), i64::MAX);
    assert_eq!(shift_right(i64::MAX - 3, 3), i64::MAX);
    assert_eq!(shift_right(i64::MIN, u32::MAX), i64::MIN + 4294967295);
}

#[test]
fn the_constants_of_the_window() {
    assert_eq!(LANES, 3);
    assert_eq!(BACKGROUND_WINDOW, 8);
    assert_eq!(BACKGROUND_SLOTS, 9);
    assert_eq!(BACKGROUND_GAP, 320);
}

#[test]
fn plain_values_compare_by_their_fields() {
    assert_ne!(AppState::Menu, AppState::Playing);
    assert_ne!(GameState::Home, GameState::Combat);
    let title = Title("Cane".to_string());
    assert_eq!(title.clone().0, "Cane");
}
