use vstd::prelude::*;

use crate::cuscuta_resources::TILE_SIZE;
use crate::room_gen::{RoomManager, collided, grid_shape, tile_set};

verus! {

/// Sets the collision value of cell `(grid_x, grid_y)` of the current room's
/// grid to `val`; cells off the grid are ignored.
pub fn set_collide_tile(room_manager: &mut RoomManager, grid_x: usize, grid_y: usize, val: u32)
    requires
        old(room_manager).wf(),
        old(room_manager).grid_ready(),
    ensures
        final(room_manager).wf(),
        final(room_manager).grid_ready(),
        final(room_manager).same_except_current_grid(&*old(room_manager)),
        final(room_manager).current_cells() == tile_set(
            old(room_manager).current_cells(),
            grid_x as int,
            grid_y as int,
            val,
        ),
{
    let cr = room_manager.current_room;
    let ghost g0 = room_manager.current_cells();
    let ghost grids0 = room_manager.grids@;
    proof {
        assert(grid_shape(room_manager.grids@[cr as int]@, room_manager.room_sizes@[cr as int]));
        assert(g0[0] == room_manager.grids@[cr as int]@[0]@);
    }
    let arr_w_limit = room_manager.grids[cr].len();
    let arr_h_limit = room_manager.grids[cr][0].len();
    if grid_x < arr_w_limit && grid_y < arr_h_limit {
        let ghost col0 = room_manager.grids@[cr as int]@;
        room_manager.grids[cr][grid_x][grid_y] = val;
        proof {
            assert(room_manager.grids@[cr as int]@[grid_x as int]@ == col0[grid_x as int]@.update(
                grid_y as int,
                val,
            ));
            assert forall|i: int| 0 <= i < col0.len() && i != grid_x implies #[trigger] room_manager.grids@[cr as int]@[i] == col0[i] by {}
            assert(room_manager.current_cells() =~= g0.update(grid_x as int, g0[grid_x as int].update(grid_y as int, val)));
            assert forall|i: int| 0 <= i < grids0.len() && i != cr implies #[trigger] room_manager.grids@[i] == grids0[i] by {}
            assert forall|i: int| 0 <= i < room_manager.grids@.len() implies grid_shape(
                #[trigger] room_manager.grids@[i]@,
                room_manager.room_sizes@[i],
            ) by {
                if i != cr {
                    assert(room_manager.grids@[i] == grids0[i]);
                } else {
                    assert(grid_shape(grids0[i]@, room_manager.room_sizes@[i]));
                    assert forall|c: int| 0 <= c < room_manager.grids@[i]@.len() implies #[trigger] room_manager.grids@[i]@[c]@.len() == room_manager.room_sizes@[i].1 by {
                        if c != grid_x {
                            assert(room_manager.grids@[i]@[c] == col0[c]);
                        }
                    }
                }
            }
        }
    }
}

/// Sets the collision value of the tile holding pixel-scale position `(x, y)`
/// (cell `(x / 32, y / 32)`) in the current room's grid to `val`; positions
/// off the grid are ignored.
pub fn set_collide(room_manager: &mut RoomManager, x: usize, y: usize, val: u32)
    requires
        old(room_manager).wf(),
        old(room_manager).grid_ready(),
    ensures
        final(room_manager).wf(),
        final(room_manager).grid_ready(),
        final(room_manager).same_except_current_grid(&*old(room_manager)),
        final(room_manager).current_cells() == collided(
            old(room_manager).current_cells(),
            x as int,
            y as int,
            val,
        ),
{
    let grid_x = x / (TILE_SIZE as usize);
    let grid_y = y / (TILE_SIZE as usize);
    set_collide_tile(room_manager, grid_x, grid_y, val);
}

} // verus!
