use rpgpr::area::{Area, AreaKind, CurrentArea};
use rpgpr::background::{
    despawn_background, evr_spawn_background, move_backgrounds, spawn_initial_backgrounds,
    texture_for, Background, BackgroundTexture, SpawnBackground, BACKGROUND_STRIDE,
};
use rpgpr::chance::Weightings;
use rpgpr::{SpawnLocations, Title};

fn area_of(kind: AreaKind) -> CurrentArea {
    CurrentArea(Area { title: Title("Somewhere".to_string()), kind, weightings: Weightings::default() })
}

fn tile(slot: usize, x: i64) -> Background {
    Background { slot, x, texture: BackgroundTexture::Forest1 }
}

fn xs(tiles: &Vec<Background>) -> Vec<i64> {
    tiles.iter().map(|t| t.x).collect()
}

fn slots(tiles: &Vec<Background>) -> Vec<usize> {
    tiles.iter().map(|t| t.slot).collect()
}

#[test]
fn the_stride_is_a_tile_less_one_unit() {
    assert_eq!(BACKGROUND_STRIDE as i64, rpgpr::BACKGROUND_GAP - 1);
}

#[test]
fn forest_areas_show_the_first_picture_and_all_others_the_second() {
    assert_eq!(texture_for(AreaKind::Forest), BackgroundTexture::Forest0);
    assert_eq!(texture_for(AreaKind::Default), BackgroundTexture::Forest1);
    assert_eq!(texture_for(AreaKind::Desert), BackgroundTexture::Forest1);
    assert_eq!(texture_for(AreaKind::Swamp), BackgroundTexture::Forest1);
}

#[test]
fn the_entry_requests_one_tile_for_each_slot_of_the_window() {
    let mut requests = vec![SpawnBackground(5)];
    spawn_initial_backgrounds(&mut requests);
    let asked: Vec<usize> = requests.iter().map(|r| r.0).collect();
    assert_eq!(asked, vec![5, 0, 1, 2, 3, 4, 5, 6, 7]);
}

#[test]
fn requests_create_the_tiles_at_the_positions_of_their_slots() {
    let table = SpawnLocations::for_width(1920);
    let mut requests = Vec::new();
    spawn_initial_backgrounds(&mut requests);
    let mut tiles = Vec::new();
    evr_spawn_background(&requests, &table, &area_of(AreaKind::Forest), &mut tiles);
    assert_eq!(slots(&tiles), vec![0, 1, 2, 3, 4, 5, 6, 7]);
    assert_eq!(xs(&tiles), vec![0, -320, -640, -960, 320, 640, 960, 1280]);
    assert!(tiles.iter().all(|t| t.texture == BackgroundTexture::Forest0));
}

#[test]
fn a_request_for_the_re_entry_slot_uses_its_position() {
    let table = SpawnLocations::for_width(1920);
    let mut tiles = vec![tile(0, 5)];
    evr_spawn_background(&vec![SpawnBackground(8)], &table, &area_of(AreaKind::Swamp), &mut tiles);
    assert_eq!(tiles, vec![tile(0, 5), tile(8, 1438)]);
}

#[test]
fn a_request_for_a_slot_that_the_table_lacks_creates_nothing() {
    let table = SpawnLocations::for_width(1920);
    let mut tiles = vec![tile(0, 5)];
    let requests = vec![SpawnBackground(9), SpawnBackground(2), SpawnBackground(usize::MAX)];
    evr_spawn_background(&requests, &table, &area_of(AreaKind::Default), &mut tiles);
    assert_eq!(tiles, vec![tile(0, 5), tile(2, -640)]);
}

#[test]
fn every_tile_moves_left_by_the_velocity() {
    let mut tiles = vec![tile(0, 0), tile(1, -320), tile(2, 1280)];
    move_backgrounds(&mut tiles, 3);
    assert_eq!(tiles, vec![tile(0, -3), tile(1, -323), tile(2, 1277)]);
    move_backgrounds(&mut tiles, 0);
    assert_eq!(xs(&tiles), vec![-3, -323, 1277]);
    let mut none: Vec<Background> = Vec::new();
    move_backgrounds(&mut none, 7);
    assert!(none.is_empty());
}

#[test]
fn a_tile_at_the_lowest_position_stays_there() {
    let mut tiles = vec![tile(0, i64::MIN + 1), tile(1, i64::MIN)];
    move_backgrounds(&mut tiles, 5);
    assert_eq!(xs(&tiles), vec![i64::MIN, i64::MIN]);
}

#[test]
fn a_tile_at_the_boundary_stays_and_one_below_it_is_replaced() {
    let table = SpawnLocations::for_width(1920);
    let area = area_of(AreaKind::Forest);
    let mut tiles = vec![tile(0, -1120), tile(1, -801), tile(2, -482)];
    let mut spare = 8;
    let recycled = despawn_background(&mut tiles, &mut spare, &table, &area);
    assert!(recycled.despawned.is_empty());
    assert!(recycled.spawned.is_empty());
    assert_eq!(recycled.peak, 3);
    assert_eq!(spare, 8);
    assert_eq!(xs(&tiles), vec![-1120, -801, -482]);

    move_backgrounds(&mut tiles, 1);
    let recycled = despawn_background(&mut tiles, &mut spare, &table, &area);
    assert_eq!(recycled.despawned, vec![tile(0, -1121)]);
    let fresh = Background { slot: 8, x: -483 + 319, texture: BackgroundTexture::Forest0 };
    assert_eq!(recycled.spawned, vec![fresh]);
    assert_eq!(recycled.peak, 4);
    assert_eq!(spare, 0);
    assert_eq!(tiles, vec![tile(1, -802), tile(2, -483), fresh]);
}

#[test]
fn a_tile_in_the_middle_of_the_list_is_replaced_at_the_end() {
    let table = SpawnLocations::for_width(1920);
    let mut tiles = vec![tile(0, 0), tile(1, -1121), tile(2, 1119)];
    let mut spare = 8;
    let recycled = despawn_background(&mut tiles, &mut spare, &table, &area_of(AreaKind::Desert));
    assert_eq!(recycled.despawned, vec![tile(1, -1121)]);
    assert_eq!(tiles, vec![tile(0, 0), tile(2, 1119), tile(8, 1438)]);
    assert_eq!(spare, 1);
}

#[test]
fn several_tiles_below_the_boundary_are_replaced_one_behind_the_other() {
    let table = SpawnLocations::for_width(1920);
    let mut tiles = vec![tile(4, -2000), tile(5, 100), tile(6, -1500), tile(7, 400)];
    let mut spare = 3;
    let recycled = despawn_background(&mut tiles, &mut spare, &table, &area_of(AreaKind::Default));
    assert_eq!(recycled.despawned, vec![tile(4, -2000), tile(6, -1500)]);
    assert_eq!(recycled.spawned, vec![tile(3, 719), tile(4, 1038)]);
    assert_eq!(recycled.peak, 5);
    assert_eq!(tiles, vec![tile(5, 100), tile(7, 400), tile(3, 719), tile(4, 1038)]);
    assert_eq!(spare, 6);
}

#[test]
fn the_leading_tile_itself_can_be_replaced() {
    let table = SpawnLocations::for_width(1920);
    let mut tiles = vec![tile(0, -1300), tile(1, -1200)];
    let mut spare = 8;
    let recycled = despawn_background(&mut tiles, &mut spare, &table, &area_of(AreaKind::Default));
    assert_eq!(recycled.despawned.len(), 2);
    assert_eq!(tiles, vec![tile(8, -881), tile(0, -562)]);
    assert_eq!(spare, 1);
    assert_eq!(recycled.peak, 3);
}

#[test]
fn a_new_tile_stops_at_the_highest_position() {
    let mut table = SpawnLocations::for_width(1920);
    table.despawns[0] = i64::MAX;
    let mut tiles = vec![tile(0, 5), tile(1, i64::MAX - 100)];
    let mut spare = 8;
    despawn_background(&mut tiles, &mut spare, &table, &area_of(AreaKind::Default));
    assert_eq!(xs(&tiles), vec![i64::MAX, i64::MAX]);
}

#[test]
fn an_empty_window_stays_empty() {
    let table = SpawnLocations::for_width(1920);
    let mut tiles: Vec<Background> = Vec::new();
    let mut spare = 8;
    let recycled = despawn_background(&mut tiles, &mut spare, &table, &area_of(AreaKind::Default));
    assert!(tiles.is_empty());
    assert_eq!(recycled.peak, 0);
    assert_eq!(spare, 8);
}
