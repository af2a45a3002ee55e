use cuscuta::collision::set_collide;
use cuscuta::markov_chains::{LastAttributeArray, NextAttributeArray};
use cuscuta::room_gen::{
    door_collision_point, inner_wall_for, inner_wall_tiles, spawn_item_counts, translate_coords_to_grid,
    DoorType, InnerWall, InnerWallStartPos, RoomConfig, RoomManager, Transition, EMPTY_CELL, INNER_WALL_SLOTS,
    MAP_SIZE,
};

fn manager_with_room_at(x: usize, y: usize) -> RoomManager {
    let mut rm = RoomManager::new();
    rm.add_room(40, 40);
    rm.room_array.add_room_to_storage(-2, 40, 40);
    rm.place_room(-2, x, y, 40, 40);
    rm
}

#[test]
fn new_manager_is_empty() {
    let rm = RoomManager::new();
    assert_eq!(rm.room_map.len(), MAP_SIZE);
    assert!(rm.room_map.iter().all(|row| row.len() == MAP_SIZE && row.iter().all(|c| *c == EMPTY_CELL)));
    assert_eq!(rm.grids.len(), 0);
    assert_eq!(rm.get_current_z_index(), -2);
    assert_eq!(rm.get_global_z_index(), -2);
    assert_eq!(rm.inner_wall_list.walls.len(), INNER_WALL_SLOTS);
    assert!(rm.get_inner_walls(0).unwrap().is_empty());
    assert!(rm.get_inner_walls(INNER_WALL_SLOTS).is_none());
}

#[test]
fn storage_reads_back_what_was_stored() {
    let mut rm = RoomManager::new();
    rm.room_array.add_room_to_storage(-4, 50, 60);
    let d = rm.room_array.get_room_from_storage(-4).unwrap();
    assert_eq!((d.width, d.height), (50, 60));
    let same_slot = rm.room_array.get_room_from_storage(4).unwrap();
    assert_eq!((same_slot.width, same_slot.height), (50, 60));
    assert!(rm.room_array.get_room_from_storage(-2).is_none());
    assert!(rm.room_array.get_room_from_storage(-6).is_none());
    let px = rm.room_array.get_room_from_storage_in_pixels(-4).unwrap();
    assert_eq!((px.width, px.height), (1600, 1920));
}

#[test]
fn add_room_makes_an_empty_current_grid() {
    let mut rm = RoomManager::new();
    rm.add_room(40, 45);
    assert_eq!(rm.grids.len(), 1);
    assert_eq!(rm.current_room, 0);
    assert_eq!(rm.current_room_max(), (40, 45));
    assert_eq!(rm.grids[0].len(), 40);
    assert!(rm.grids[0].iter().all(|c| c.len() == 45 && c.iter().all(|v| *v == 0)));
    assert!(rm.grid_is_ready());
    rm.add_room(60, 61);
    assert_eq!(rm.current_room, 1);
    assert_eq!(rm.current_room_size(), (60, 61));
}

#[test]
fn placed_room_bounds_read_back() {
    let rm = manager_with_room_at(100, 120);
    assert_eq!(rm.find_room_bounds(-2), Some((100, 139, 120, 159)));
    assert_eq!(rm.get_room_value(100, 120), Some(-2));
    assert_eq!(rm.get_room_value(99, 120), Some(EMPTY_CELL));
    assert_eq!(rm.get_room_value(MAP_SIZE, 0), None);
    assert_eq!(rm.find_room_bounds(-4), None);
}

#[test]
fn rooms_placed_beside_each_door() {
    let mut rm = manager_with_room_at(100, 120);
    rm.add_room_to_map_from_right_door(-2, -4, 30, 20);
    assert_eq!(rm.find_room_bounds(-4), Some((140, 169, 129, 148)));
    rm.add_room_to_map_from_left_door(-2, -6, 30, 20);
    assert_eq!(rm.find_room_bounds(-6), Some((70, 99, 129, 148)));
    rm.add_room_to_map_from_top_door(-2, -8, 20, 30);
    assert_eq!(rm.find_room_bounds(-8), Some((109, 128, 90, 119)));
    rm.add_room_to_map_from_bottom_door(-2, -10, 20, 30);
    assert_eq!(rm.find_room_bounds(-10), Some((109, 128, 160, 189)));
    assert_eq!(rm.find_room_bounds(-2), Some((100, 139, 120, 159)));
}

#[test]
fn door_collision_points() {
    assert_eq!(door_collision_point(DoorType::Left, 40, 40), (0, 656));
    assert_eq!(door_collision_point(DoorType::Right, 40, 40), (1264, 656));
    assert_eq!(door_collision_point(DoorType::Top, 40, 40), (656, 1264));
    assert_eq!(door_collision_point(DoorType::Bottom, 40, 40), (656, 0));
}

#[test]
fn inner_wall_tiles_in_each_direction() {
    let wall = |x: usize, y: usize, v: (i32, i32)| InnerWall {
        start_pos: InnerWallStartPos { x, y },
        length_direction_vector: v,
    };
    assert_eq!(inner_wall_tiles(&wall(5, 5, (4, 1))), vec![(4, 4), (5, 4)]);
    assert_eq!(inner_wall_tiles(&wall(5, 5, (-4, 1))), vec![(4, 4), (3, 4)]);
    assert_eq!(inner_wall_tiles(&wall(5, 5, (1, 4))), vec![(4, 4), (4, 5)]);
    assert_eq!(inner_wall_tiles(&wall(5, 5, (1, -4))), vec![(4, 4), (4, 3)]);
    assert!(inner_wall_tiles(&InnerWall::new()).is_empty());
}

#[test]
fn inner_walls_point_away_from_the_near_edge() {
    let right_half = inner_wall_for(40, 40, 30, 10, true, 5);
    assert_eq!(right_half.length_direction_vector, (-5, 1));
    let left_half = inner_wall_for(40, 40, 3, 10, true, 5);
    assert_eq!(left_half.length_direction_vector, (5, 1));
    let lower_half = inner_wall_for(40, 40, 3, 25, false, 6);
    assert_eq!(lower_half.length_direction_vector, (1, -6));
    let upper_half = inner_wall_for(40, 40, 3, 2, false, 6);
    assert_eq!(upper_half.length_direction_vector, (1, 6));
    assert_eq!((upper_half.start_pos.x, upper_half.start_pos.y), (3, 2));
}

#[test]
fn drawing_a_wall_marks_its_tiles() {
    let mut rm = RoomManager::new();
    rm.add_room(40, 40);
    let wall = InnerWall { start_pos: InnerWallStartPos { x: 5, y: 7 }, length_direction_vector: (3, 1) };
    rm.draw_inner_wall(&wall);
    assert_eq!(rm.grids[0][4][6], 1);
    assert_eq!(rm.grids[0].iter().map(|c| c.iter().filter(|v| **v == 1).count()).sum::<usize>(), 1);
}

#[test]
fn set_collide_marks_the_cell_of_a_position() {
    let mut rm = RoomManager::new();
    rm.add_room(10, 10);
    set_collide(&mut rm, 100, 70, 2);
    assert_eq!(rm.grids[0][3][2], 2);
    set_collide(&mut rm, 320, 0, 1);
    assert_eq!(rm.grids[0].iter().map(|c| c.iter().filter(|v| **v != 0).count()).sum::<usize>(), 1);
}

#[test]
fn grid_lookup_reads_the_marked_tile() {
    let mut rm = RoomManager::new();
    rm.add_room(40, 40);
    set_collide(&mut rm, 96, 128, 1);
    assert_eq!(translate_coords_to_grid(&rm, -544, -512, -530, -500), (1, 1, 1, 1));
    assert_eq!(translate_coords_to_grid(&rm, -10000, -10000, 10000, 10000), (0, 0, 0, 0));
    let g = rm.current_grid();
    g[39][39] = 7;
    assert_eq!(translate_coords_to_grid(&rm, 0, 0, 10000, 10000), (0, 7, 0, 0));
}

#[test]
fn next_depths_go_down_by_two() {
    let mut rm = RoomManager::new();
    assert_eq!(rm.next_room_z_index(), -4);
    assert_eq!(rm.next_room_z_index(), -6);
    assert_eq!(rm.current_room_z_index(), -6);
    rm.set_current_z_index(-2);
    assert_eq!(rm.get_current_z_index(), -2);
    assert_eq!(rm.get_global_z_index(), -6);
}

#[test]
fn room_config_ranges() {
    let c = RoomConfig::new();
    assert_eq!(c.get_width_range(0), (40, 59));
    assert_eq!(c.get_height_range(1), (60, 69));
    assert_eq!(c.get_inner_wall_count(2), (3, 5));
    assert_eq!(c.get_enemy_count(1), (2, 3));
    assert_eq!(c.get_enemy_type(2), (3, 4));
    assert_eq!(c.get_item_count(0), (1, 2));
}

#[test]
fn start_room_is_forty_by_forty() {
    let mut rm = RoomManager::new();
    let config = RoomConfig::new();
    let mut last = LastAttributeArray::new();
    let mut next = NextAttributeArray::new();
    next.set_next_attribute(1, 2);
    let (w, h, z, doors) = rm.spawn_start_room(&mut last, &next, &config);
    assert_eq!((w, h, z), (40, 40, -2));
    assert_eq!(last.get_last_attribute_array(), [0, 2, 0, 0, 0]);
    let (l, r, t, b) = rm.find_room_bounds(-2).unwrap();
    assert_eq!((r - l + 1, b - t + 1), (40, 40));
    let walls = rm.get_inner_walls(2).unwrap().len();
    assert!((3..=5).contains(&walls));
    assert_eq!(rm.grids[0][0][0], 1);
    assert_eq!(rm.grids[0][39][17], 1);
    assert_eq!(rm.grids[0][17][39], 1);
    assert_eq!(rm.grids[0][0][25], 1);
    assert_eq!(rm.grids[0][25][0], 1);
    assert_eq!(rm.room_array.get_room_from_storage(-2).map(|d| (d.width, d.height)), Some((40, 40)));
    assert_eq!(doors.left, rm.plan_doors(-2).left);
}

#[test]
fn generated_room_sizes_follow_the_state() {
    let mut rm = RoomManager::new();
    let config = RoomConfig::new();
    let mut last = LastAttributeArray::new();
    let mut next = NextAttributeArray::new();
    next.set_next_attribute(0, 1);
    next.set_next_attribute(4, 2);
    let (w, h, z) = rm.generate_random_room_with_bounds(&config, &mut last, &next);
    assert!((60..=69).contains(&w) && (60..=69).contains(&h));
    assert_eq!(z, -4);
    assert_eq!(rm.get_current_z_index(), -4);
    assert_eq!(rm.room_sizes, vec![(w, h)]);
    let walls = rm.get_inner_walls(4).unwrap();
    assert!((1..=3).contains(&walls.len()));
    for wall in walls {
        for (x, y) in inner_wall_tiles(wall) {
            assert!(1 <= x && x <= w as i128 - 2, "tile column {} of a {} wide room", x, w);
            assert!(1 <= y && y <= h as i128 - 2, "tile row {} of a {} high room", y, h);
        }
    }
    assert_eq!(last.get_attribute(0), Some(1));
}

#[test]
fn item_counts_follow_the_state() {
    let config = RoomConfig::new();
    let mut last = LastAttributeArray::new();
    last.set_attribute(4, 2);
    let (potions, pots) = spawn_item_counts(&last, &config);
    assert!((3..=4).contains(&potions) && (3..=4).contains(&pots));
}

#[test]
fn leaving_through_a_door_opens_then_revisits_rooms() {
    let mut rm = manager_with_room_at(100, 120);
    let config = RoomConfig::new();
    let mut last = LastAttributeArray::new();
    let next = NextAttributeArray::new();
    assert!(rm.transition_fits(DoorType::Right, &next));
    let t = rm.transition_map(DoorType::Right, &config, &mut last, &next);
    let (z, w, h) = match t {
        Transition::NewRoom { z_index, width, height, .. } => (z_index, width, height),
        other => panic!("expected a new room, got {:?}", other),
    };
    assert_eq!(z, -4);
    assert!((40..=59).contains(&w) && (40..=59).contains(&h));
    let (l, r, _t, _b) = rm.find_room_bounds(-4).unwrap();
    assert_eq!((l, r), (140, 139 + w));
    assert_eq!(rm.find_room_bounds(-2), Some((100, 139, 120, 159)));
    let global = rm.get_global_z_index();
    assert!(rm.room_map.iter().all(|row| row.iter().all(|c| *c == EMPTY_CELL || *c >= global)));
    // going back through the left door of the new room re-enters the first one
    assert!(rm.transition_fits(DoorType::Left, &next));
    let map_before = rm.room_map.clone();
    let global_before = rm.get_global_z_index();
    let back = rm.transition_map(DoorType::Left, &config, &mut last, &next);
    assert_eq!(rm.room_map, map_before);
    assert_eq!(rm.get_global_z_index(), global_before);
    match back {
        Transition::Revisit { z_index, width, height, doors } => {
            assert_eq!((z_index, width, height), (-2, 40, 40));
            assert!(doors.right);
        },
        other => panic!("expected a revisit, got {:?}", other),
    }
    assert_eq!(rm.get_current_z_index(), -2);
    // a new room goes beside the room the players walk out of, though a
    // deeper room was generated last
    assert!(rm.transition_fits(DoorType::Top, &next));
    let up = rm.transition_map(DoorType::Top, &config, &mut last, &next);
    let (w, h) = match up {
        Transition::NewRoom { z_index, width, height, .. } => {
            assert_eq!(z_index, -6);
            (width, height)
        },
        other => panic!("expected a new room, got {:?}", other),
    };
    let (l, r, t, b) = rm.find_room_bounds(-6).unwrap();
    assert_eq!((l, r), (119 - w / 2, 118 - w / 2 + w));
    assert_eq!((t, b), (120 - h, 119));
}

#[test]
fn too_deep_players_stay() {
    let mut rm = manager_with_room_at(100, 120);
    rm.global_z_index = 22;
    let config = RoomConfig::new();
    let mut last = LastAttributeArray::new();
    let next = NextAttributeArray::new();
    assert!(matches!(rm.transition_map(DoorType::Top, &config, &mut last, &next), Transition::Stay));
    assert_eq!(rm.get_current_z_index(), -2);
}

#[test]
fn a_door_at_the_map_edge_leads_nowhere() {
    let mut rm = manager_with_room_at(0, 120);
    let config = RoomConfig::new();
    let mut last = LastAttributeArray::new();
    let next = NextAttributeArray::new();
    assert!(matches!(rm.transition_map(DoorType::Left, &config, &mut last, &next), Transition::Unknown));
    assert_eq!(last.get_last_attribute_array(), [0, 0, 0, 0, 0]);
}

#[test]
fn door_plan_of_a_lone_room() {
    let rm = manager_with_room_at(100, 120);
    let plan = rm.plan_doors(-2);
    assert!(plan.left && plan.right && plan.top && plan.bottom);
    let corner = manager_with_room_at(0, 0);
    let plan = corner.plan_doors(-2);
    // off the map counts as not empty
    assert!(plan.left && plan.top);
    assert!(!plan.right && !plan.bottom);
    assert!(!corner.fits_beside(-2, DoorType::Left, 10, 10));
    assert!(corner.fits_beside(-2, DoorType::Right, 10, 10));
}

#[test]
fn state_vector_round_trip() {
    let mut rm = RoomManager::new();
    rm.set_state_vector(vec![1, 2, 3]);
    assert_eq!(rm.get_state_vector(), &vec![1, 2, 3]);
}

#[test]
fn a_room_that_fits_at_its_largest_fits_smaller() {
    let rm = manager_with_room_at(100, 120);
    assert!(rm.fits_beside(-2, DoorType::Top, 79, 79));
    assert!(rm.fits_beside(-2, DoorType::Top, 40, 41));
    assert!(!rm.fits_beside(-2, DoorType::Top, 40, 121));
    assert!(rm.fits_beside(-2, DoorType::Bottom, 40, 240));
    assert!(!rm.fits_beside(-2, DoorType::Bottom, 40, 241));
}

#[test]
fn rooms_in_column_and_row_zero_have_bounds() {
    let mut rm = RoomManager::new();
    rm.add_room(40, 40);
    rm.place_room(-2, 0, 5, 1, 3);
    assert_eq!(rm.find_room_bounds(-2), Some((0, 0, 5, 7)));
    rm.place_room(-4, 7, 0, 3, 1);
    assert_eq!(rm.find_room_bounds(-4), Some((7, 9, 0, 0)));
}
