use std::collections::VecDeque;

use cuscuta::client::{apply_enemy_packet, apply_player_packet, tile_for_code, MapTile, PlayerState};
use cuscuta::markov_chains::{LastAttributeArray, NextAttributeArray};
use cuscuta::room_gen::{DoorPlan, DoorType, InnerWall, InnerWallStartPos, RoomConfig, RoomManager};
use cuscuta::server::{border_wall_code, check_door, door_consensus, door_tile_code, map_packet_matrix, room_map_matrix, INNER_WALL_CODE};

#[test]
fn players_must_agree_on_a_door() {
    assert_eq!(door_consensus(&vec![]), None);
    assert_eq!(door_consensus(&vec![(true, Some(DoorType::Left))]), Some(DoorType::Left));
    assert_eq!(
        door_consensus(&vec![(true, Some(DoorType::Top)), (true, Some(DoorType::Top))]),
        Some(DoorType::Top)
    );
    assert_eq!(door_consensus(&vec![(true, Some(DoorType::Top)), (false, None)]), None);
    assert_eq!(
        door_consensus(&vec![(true, Some(DoorType::Top)), (true, Some(DoorType::Bottom))]),
        None
    );
    assert_eq!(door_consensus(&vec![(true, None), (true, Some(DoorType::Right))]), Some(DoorType::Right));
    assert_eq!(door_consensus(&vec![(true, None)]), None);
}

#[test]
fn no_agreement_changes_nothing() {
    let mut rm = RoomManager::new();
    let config = RoomConfig::new();
    let mut last = LastAttributeArray::new();
    let next = NextAttributeArray::new();
    let hits = vec![(true, Some(DoorType::Top)), (false, None)];
    assert!(check_door(&mut rm, &hits, &config, &mut last, &next).is_none());
    assert_eq!(rm.get_current_z_index(), -2);
    assert_eq!(rm.grids.len(), 0);
}

#[test]
fn wall_and_door_codes() {
    assert_eq!(border_wall_code(0, 5, 40), 1);
    assert_eq!(border_wall_code(3, 0, 40), 9);
    assert_eq!(border_wall_code(39, 3, 40), 2);
    assert_eq!(border_wall_code(3, 3, 40), 8);
    assert_eq!(border_wall_code(3, 3, 0), 8);
    assert_eq!(door_tile_code(DoorType::Right), 5);
    assert_eq!(door_tile_code(DoorType::Left), 4);
    assert_eq!(door_tile_code(DoorType::Top), 6);
    assert_eq!(door_tile_code(DoorType::Bottom), 7);
}

#[test]
fn map_matrix_layers_tiles() {
    let m = room_map_matrix(
        3,
        2,
        &vec![(1, 1)],
        &vec![(0, 1), (1, 0), (2, 1), (1, 1)],
        &vec![(1, 1)],
        &vec![(3, 2)],
        &vec![(2, 2)],
        &vec![(0, 1, DoorType::Left)],
    );
    assert_eq!(m.len(), 4);
    assert!(m.iter().all(|c| c.len() == 3));
    assert_eq!(m[0][1], 4);
    assert_eq!(m[1][0], 9);
    assert_eq!(m[2][1], 2);
    assert_eq!(m[1][1], 8);
    assert_eq!(m[3][2], 3);
    assert_eq!(m[2][2], 10);
    assert_eq!(m[0][0], 0);
}

#[test]
fn client_decodes_what_the_server_encodes() {
    assert_eq!(tile_for_code(0), MapTile::Floor);
    assert_eq!(tile_for_code(border_wall_code(0, 3, 40)), MapTile::LeftWall);
    assert_eq!(tile_for_code(border_wall_code(3, 0, 40)), MapTile::BottomWall);
    assert_eq!(tile_for_code(border_wall_code(39, 3, 40)), MapTile::RightWall);
    assert_eq!(tile_for_code(border_wall_code(3, 3, 40)), MapTile::TopWall);
    for d in [DoorType::Left, DoorType::Right, DoorType::Top, DoorType::Bottom] {
        assert_eq!(tile_for_code(door_tile_code(d)), MapTile::Door(d));
    }
    assert_eq!(tile_for_code(3), MapTile::Potion);
    assert_eq!(tile_for_code(10), MapTile::Pot);
    assert_eq!(tile_for_code(INNER_WALL_CODE), MapTile::TopWall);
    assert_eq!(tile_for_code(11), MapTile::Hidden);
    assert_eq!(tile_for_code(200), MapTile::Hidden);
}

#[test]
fn player_packets_update_or_spawn() {
    let mut players = vec![PlayerState { id: 1, state: 10u32 }, PlayerState { id: 2, state: 20u32 }];
    assert!(!apply_player_packet(&mut players, PlayerState { id: 2, state: 25 }));
    assert_eq!(players.iter().map(|p| (p.id, p.state)).collect::<Vec<_>>(), vec![(1, 10), (2, 25)]);
    assert!(apply_player_packet(&mut players, PlayerState { id: 3, state: 30 }));
    assert_eq!(players.iter().map(|p| (p.id, p.state)).collect::<Vec<_>>(), vec![(1, 10), (2, 25), (3, 30)]);
}

#[test]
fn enemy_packets_keep_a_short_past() {
    let mut q: VecDeque<u32> = VecDeque::from(vec![1, 2, 3, 4]);
    assert!(!apply_enemy_packet(&mut q, 9, true));
    assert_eq!(q, VecDeque::from(vec![3, 4, 9]));
    let mut three: VecDeque<u32> = VecDeque::from(vec![1, 2, 3]);
    assert!(!apply_enemy_packet(&mut three, 4, true));
    assert_eq!(three, VecDeque::from(vec![2, 3, 4]));
    let mut short: VecDeque<u32> = VecDeque::from(vec![5]);
    assert!(!apply_enemy_packet(&mut short, 6, true));
    assert_eq!(short, VecDeque::from(vec![5, 6]));
    assert!(apply_enemy_packet(&mut short, 7, false));
    assert_eq!(short, VecDeque::from(vec![5, 6]));
    let mut empty: VecDeque<u32> = VecDeque::new();
    assert!(!apply_enemy_packet(&mut empty, 1, true));
    assert_eq!(empty, VecDeque::from(vec![1]));
}

#[test]
fn room_map_packet_codes() {
    let plan = DoorPlan { left: true, right: false, top: true, bottom: false };
    let walls = vec![InnerWall { start_pos: InnerWallStartPos { x: 3, y: 3 }, length_direction_vector: (3, 1) }];
    let m = map_packet_matrix(6, 5, plan, &walls, &vec![(3, 3)], &vec![(4, 1)]);
    assert_eq!(m.len(), 7);
    assert!(m.iter().all(|c| c.len() == 6));
    // border walls
    assert_eq!(m[0][3], 1);
    assert_eq!(m[3][0], 9);
    assert_eq!(m[5][3], 2);
    assert_eq!(m[2][4], 8);
    // inner wall tile (2, 2), potion, doors
    assert_eq!(m[2][2], INNER_WALL_CODE);
    assert_eq!(m[3][3], 3);
    assert_eq!(m[4][1], 10);
    assert_eq!(m[0][2], 4);
    assert_eq!(m[3][4], 6);
    assert_eq!(m[4][2], 0);
    assert_eq!(m[6][5], 0);
}
