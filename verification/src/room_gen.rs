use vstd::prelude::*;

use crate::collision::{set_collide, set_collide_tile};
use crate::markov_chains::{LastAttributeArray, NextAttributeArray, adopt_next_attributes, is_state};
use crate::rng::random_in_range;

verus! {

/// Side length, in map cells, of the square dungeon map on which rooms are placed.
pub const MAP_SIZE: usize = 400;

/// Value of a map cell that no room occupies.
pub const EMPTY_CELL: i32 = 1;

/// Number of per-depth inner-wall lists the room manager keeps.
pub const INNER_WALL_SLOTS: usize = 100;

/// Width and height of a remembered room, in tiles.
#[derive(Debug, Clone, Copy)]
pub struct RoomDimensions {
    pub width: usize,
    pub height: usize,
}

/// Tile at which an inner wall starts.
#[derive(Debug, Clone, Copy)]
pub struct InnerWallStartPos {
    pub x: usize,
    pub y: usize,
}

impl InnerWallStartPos {
    /// The origin tile.
    pub fn new() -> (p: InnerWallStartPos)
        ensures
            p.x == 0,
            p.y == 0,
    {
        InnerWallStartPos { x: 0, y: 0 }
    }
}

/// An inner wall: its start tile and its extent. A horizontal wall has
/// `(±length, 1)`, a vertical one `(1, ±length)`; the sign gives the direction.
#[derive(Debug, Clone, Copy)]
pub struct InnerWall {
    pub start_pos: InnerWallStartPos,
    pub length_direction_vector: (i32, i32),
}

impl InnerWall {
    /// A wall at the origin with no extent.
    pub fn new() -> (w: InnerWall)
        ensures
            w.start_pos.x == 0,
            w.start_pos.y == 0,
            w.length_direction_vector == (0i32, 0i32),
    {
        InnerWall { start_pos: InnerWallStartPos::new(), length_direction_vector: (0, 0) }
    }
}

/// The inner walls of every room, one list per room depth.
#[derive(Debug, Clone)]
pub struct InnerWallList {
    pub walls: Vec<Vec<InnerWall>>,
}

/// The slot of a room depth: its absolute value.
pub open spec fn depth_slot(z: i32) -> int {
    if z < 0 {
        -z
    } else {
        z as int
    }
}

/// `s` extended with `None` up to length `n`.
pub open spec fn pad_rooms(s: Seq<Option<RoomDimensions>>, n: nat) -> Seq<Option<RoomDimensions>> {
    if s.len() >= n {
        s
    } else {
        s + Seq::new((n - s.len()) as nat, |_i: int| None::<RoomDimensions>)
    }
}

/// The room remembered in `rooms` for depth `z`, if any.
pub open spec fn stored_at(rooms: Seq<Option<RoomDimensions>>, z: i32) -> Option<RoomDimensions> {
    if depth_slot(z) < rooms.len() {
        rooms[depth_slot(z)]
    } else {
        None
    }
}

/// The rooms remembered after a room of `width` by `height` tiles is
/// remembered for depth `z`.
pub open spec fn stored_room(rooms: Seq<Option<RoomDimensions>>, z: i32, width: usize, height: usize) -> Seq<Option<RoomDimensions>> {
    pad_rooms(rooms, (depth_slot(z) + 1) as nat).update(depth_slot(z), Some(RoomDimensions { width, height }))
}

/// Reading a depth back after remembering a room for it gives that room;
/// every depth of another slot reads as before, and the depths `z` and `-z`
/// share a slot.
pub proof fn lemma_storage_read_back(
    rooms: Seq<Option<RoomDimensions>>,
    z: i32,
    width: usize,
    height: usize,
    other: i32,
)
    ensures
        stored_at(stored_room(rooms, z, width, height), z) == Some(RoomDimensions { width, height }),
        depth_slot(other) != depth_slot(z) ==> stored_at(stored_room(rooms, z, width, height), other)
            == stored_at(rooms, other),
        z != i32::MIN ==> depth_slot(-z as i32) == depth_slot(z),
{
}

/// The rooms remembered so far, indexed by the absolute value of their depth.
#[derive(Debug)]
pub struct RoomArray {
    pub rooms: Vec<Option<RoomDimensions>>,
}

impl RoomArray {
    /// No rooms remembered.
    fn new() -> (a: RoomArray)
        ensures
            a.rooms@ == Seq::<Option<RoomDimensions>>::empty(),
    {
        RoomArray { rooms: Vec::new() }
    }

    /// The slot of a depth: its absolute value.
    fn z_to_index(z: i32) -> (i: usize)
        ensures
            i == depth_slot(z),
    {
        if z < 0 {
            (-(z as i64)) as usize
        } else {
            z as usize
        }
    }

    /// The room remembered for depth `z`, if any.
    pub open spec fn stored(&self, z: i32) -> Option<RoomDimensions> {
        stored_at(self.rooms@, z)
    }

    /// Remembers a room of `width` by `height` tiles for depth `z_index`.
    pub fn add_room_to_storage(&mut self, z_index: i32, width: usize, height: usize)
        ensures
            final(self).rooms@ == stored_room(old(self).rooms@, z_index, width, height),
    {
        let index = Self::z_to_index(z_index);
        let ghost start = self.rooms@;
        if index >= self.rooms.len() {
            while self.rooms.len() < index + 1
                invariant
                    index < usize::MAX,
                    start.len() <= self.rooms@.len() <= index + 1,
                    forall|i: int| 0 <= i < start.len() ==> self.rooms@[i] == start[i],
                    forall|i: int| start.len() <= i < self.rooms@.len() ==> self.rooms@[i] is None,
                decreases index + 1 - self.rooms.len(),
            {
                self.rooms.push(None);
            }
        }
        assert(self.rooms@ =~= pad_rooms(start, (index + 1) as nat));
        self.rooms.set(index, Some(RoomDimensions { width, height }));
    }

    /// The room remembered for depth `z_index`, if any.
    pub fn get_room_from_storage(&self, z_index: i32) -> (r: Option<&RoomDimensions>)
        ensures
            r matches Some(d) ==> self.stored(z_index) == Some(*d),
            r is None ==> self.stored(z_index) is None,
    {
        let index = Self::z_to_index(z_index);
        if index < self.rooms.len() {
            return self.rooms[index].as_ref();
        }
        None
    }

    /// The room remembered for depth `z_index`, if any, measured in pixels
    /// (tiles of 32 pixels).
    pub fn get_room_from_storage_in_pixels(&self, z_index: i32) -> (r: Option<RoomDimensions>)
        requires
            self.stored(z_index) matches Some(d) ==> d.width * 32 <= usize::MAX && d.height * 32
                <= usize::MAX,
        ensures
            r == (match self.stored(z_index) {
                Some(d) => Some(
                    RoomDimensions { width: (d.width * 32) as usize, height: (d.height * 32) as usize },
                ),
                None => None,
            }),
    {
        let index = Self::z_to_index(z_index);
        if index < self.rooms.len() {
            if let Some(dimensions) = &self.rooms[index] {
                return Some(
                    RoomDimensions { width: dimensions.width * 32, height: dimensions.height * 32 },
                );
            }
        }
        None
    }
}

/// The four doors a room can have.
#[derive(Debug, Clone, Copy, PartialEq, Eq, Structural)]
pub enum DoorType {
    Right,
    Left,
    Top,
    Bottom,
}

/// The ranges, per Markov state, from which the room generator draws.
#[derive(Clone, Debug, Copy)]
pub struct StateConfig {
    pub width_range: (usize, usize),
    pub height_range: (usize, usize),
    pub inner_wall_count: (usize, usize),
    pub enemy_count: (usize, usize),
    pub enemy_type: (usize, usize),
    pub item_count: (usize, usize),
}

/// The three preset states: stealth, normal and carnage.
pub open spec fn preset_states() -> Seq<StateConfig> {
    seq![
        StateConfig {
            width_range: (40, 59),
            height_range: (40, 59),
            inner_wall_count: (1, 3),
            enemy_count: (1, 2),
            enemy_type: (1, 2),
            item_count: (1, 2),
        },
        StateConfig {
            width_range: (60, 69),
            height_range: (60, 69),
            inner_wall_count: (2, 4),
            enemy_count: (2, 3),
            enemy_type: (2, 3),
            item_count: (2, 3),
        },
        StateConfig {
            width_range: (70, 79),
            height_range: (70, 79),
            inner_wall_count: (3, 5),
            enemy_count: (3, 5),
            enemy_type: (3, 4),
            item_count: (3, 4),
        },
    ]
}

/// Room generation settings for each Markov state: always the three presets.
#[derive(Debug)]
pub struct RoomConfig {
    states: Vec<StateConfig>,
}

impl RoomConfig {
    /// The settings are the presets.
    #[verifier::type_invariant]
    spec fn holds_presets(&self) -> bool {
        self.states@ == preset_states()
    }

    /// The settings of the three states, in order.
    pub closed spec fn presets(&self) -> Seq<StateConfig> {
        self.states@
    }

    /// The preset settings of the three states.
    pub fn new() -> (c: RoomConfig)
        ensures
            c.presets() == preset_states(),
    {
        let mut states: Vec<StateConfig> = Vec::new();
        states.push(
            StateConfig {
                width_range: (40, 59),
                height_range: (40, 59),
                inner_wall_count: (1, 3),
                enemy_count: (1, 2),
                enemy_type: (1, 2),
                item_count: (1, 2),
            },
        );
        states.push(
            StateConfig {
                width_range: (60, 69),
                height_range: (60, 69),
                inner_wall_count: (2, 4),
                enemy_count: (2, 3),
                enemy_type: (2, 3),
                item_count: (2, 3),
            },
        );
        states.push(
            StateConfig {
                width_range: (70, 79),
                height_range: (70, 79),
                inner_wall_count: (3, 5),
                enemy_count: (3, 5),
                enemy_type: (3, 4),
                item_count: (3, 4),
            },
        );
        assert(states@ =~= preset_states());
        RoomConfig { states }
    }

    /// Range of room widths, in tiles, for Markov state `state`.
    pub fn get_width_range(&self, state: u8) -> (r: (usize, usize))
        requires
            state < 3,
        ensures
            r == preset_states()[state as int].width_range,
    {
        proof {
            use_type_invariant(self);
        }
        self.states[state as usize].width_range
    }

    /// Range of room heights, in tiles, for Markov state `state`.
    pub fn get_height_range(&self, state: u8) -> (r: (usize, usize))
        requires
            state < 3,
        ensures
            r == preset_states()[state as int].height_range,
    {
        proof {
            use_type_invariant(self);
        }
        self.states[state as usize].height_range
    }

    /// Range of inner-wall counts for Markov state `state`.
    pub fn get_inner_wall_count(&self, state: u8) -> (r: (usize, usize))
        requires
            state < 3,
        ensures
            r == preset_states()[state as int].inner_wall_count,
    {
        proof {
            use_type_invariant(self);
        }
        self.states[state as usize].inner_wall_count
    }

    /// Range of enemy counts for Markov state `state`.
    pub fn get_enemy_count(&self, state: u8) -> (r: (usize, usize))
        requires
            state < 3,
        ensures
            r == preset_states()[state as int].enemy_count,
    {
        proof {
            use_type_invariant(self);
        }
        self.states[state as usize].enemy_count
    }

    /// Range of enemy types for Markov state `state`.
    pub fn get_enemy_type(&self, state: u8) -> (r: (usize, usize))
        requires
            state < 3,
        ensures
            r == preset_states()[state as int].enemy_type,
    {
        proof {
            use_type_invariant(self);
        }
        self.states[state as usize].enemy_type
    }

    /// Range of item counts for Markov state `state`.
    pub fn get_item_count(&self, state: u8) -> (r: (usize, usize))
        requires
            state < 3,
        ensures
            r == preset_states()[state as int].item_count,
    {
        proof {
            use_type_invariant(self);
        }
        self.states[state as usize].item_count
    }
}

/// The room map as plain rows of cell values.
pub open spec fn map_cells(m: Seq<Vec<i32>>) -> Seq<Seq<i32>> {
    m.map_values(|row: Vec<i32>| row@)
}

/// Cell `(x, y)` exists on the map and holds `z`.
pub open spec fn holds(m: Seq<Seq<i32>>, z: i32, x: int, y: int) -> bool {
    &&& 0 <= x < m.len()
    &&& 0 <= y < m[x].len()
    &&& m[x][y] == z
}

/// `(l, r, t, b)` are the least and greatest column and the least and greatest
/// row among the cells that hold `z`.
pub open spec fn bounds_of(m: Seq<Seq<i32>>, z: i32, l: int, r: int, t: int, b: int) -> bool {
    &&& forall|x: int, y: int| #[trigger] holds(m, z, x, y) ==> l <= x <= r && t <= y <= b
    &&& exists|y: int| #[trigger] holds(m, z, l, y)
    &&& exists|y: int| #[trigger] holds(m, z, r, y)
    &&& exists|x: int| #[trigger] holds(m, z, x, t)
    &&& exists|x: int| #[trigger] holds(m, z, x, b)
}

/// The bounds of the room of depth `z`: the least and greatest column and row
/// it occupies, when any cell holds it.
pub open spec fn room_bounds(m: Seq<Seq<i32>>, z: i32) -> Option<(int, int, int, int)> {
    if exists|bd: (int, int, int, int)| #[trigger] bounds_of(m, z, bd.0, bd.1, bd.2, bd.3) {
        Some(choose|bd: (int, int, int, int)| #[trigger] bounds_of(m, z, bd.0, bd.1, bd.2, bd.3))
    } else {
        None
    }
}

/// Cell `(x, y)` holds `z` and comes before `(x0, y0)` in column-major scan order.
pub open spec fn scanned(m: Seq<Seq<i32>>, z: i32, x0: int, y0: int, x: int, y: int) -> bool {
    holds(m, z, x, y) && (x < x0 || (x == x0 && y < y0))
}

/// The bounds of the cells holding a depth are unique.
pub proof fn lemma_bounds_unique(
    m: Seq<Seq<i32>>,
    z: i32,
    a: (int, int, int, int),
    b: (int, int, int, int),
)
    requires
        bounds_of(m, z, a.0, a.1, a.2, a.3),
        bounds_of(m, z, b.0, b.1, b.2, b.3),
    ensures
        a == b,
{
    let ya0 = choose|y: int| holds(m, z, a.0, y);
    let yb0 = choose|y: int| holds(m, z, b.0, y);
    let ya1 = choose|y: int| holds(m, z, a.1, y);
    let yb1 = choose|y: int| holds(m, z, b.1, y);
    let xa2 = choose|x: int| holds(m, z, x, a.2);
    let xb2 = choose|x: int| holds(m, z, x, b.2);
    let xa3 = choose|x: int| holds(m, z, x, a.3);
    let xb3 = choose|x: int| holds(m, z, x, b.3);
    assert(holds(m, z, a.0, ya0));
    assert(holds(m, z, b.0, yb0));
    assert(holds(m, z, a.1, ya1));
    assert(holds(m, z, b.1, yb1));
    assert(holds(m, z, xa2, a.2));
    assert(holds(m, z, xb2, b.2));
    assert(holds(m, z, xa3, a.3));
    assert(holds(m, z, xb3, b.3));
}


/// The map after the cells of columns `[sx, sx + w)` and rows `[sy, sy + h)`
/// are set to `v`.
pub open spec fn filled(m: Seq<Seq<i32>>, sx: int, sy: int, w: int, h: int, v: i32) -> Seq<Seq<i32>> {
    Seq::new(
        m.len(),
        |x: int|
            Seq::new(
                m[x].len(),
                |y: int|
                    if sx <= x < sx + w && sy <= y < sy + h {
                        v
                    } else {
                        m[x][y]
                    },
            ),
    )
}

/// Setting the cells of a `w` by `h` rectangle at `(sx, sy)` stays on the map
/// and free of overflow: the origin is not negative, the column range fits a
/// `usize`, the row range does whenever there is a column, and a rectangle
/// with cells lies within the map.
pub open spec fn fill_ok(sx: int, sy: int, w: int, h: int) -> bool {
    &&& sx >= 0
    &&& sy >= 0
    &&& sx + w <= usize::MAX
    &&& w > 0 ==> sy + h <= usize::MAX
    &&& (w > 0 && h > 0) ==> sx + w <= MAP_SIZE && sy + h <= MAP_SIZE
}

/// Origin of a `w` by `h` room entered through `door` of a room with bounds
/// `bd`: above the top edge, below the bottom edge, left of the left edge or
/// right of the right edge, centred on that edge.
pub open spec fn door_origin(bd: (int, int, int, int), door: DoorType, w: int, h: int) -> (int, int) {
    match door {
        DoorType::Top => ((bd.0 + bd.1) / 2 - w / 2, bd.2 - h),
        DoorType::Bottom => ((bd.0 + bd.1) / 2 - w / 2, bd.3 + 1),
        DoorType::Left => (bd.0 - w, (bd.2 + bd.3) / 2 - h / 2),
        DoorType::Right => (bd.1 + 1, (bd.2 + bd.3) / 2 - h / 2),
    }
}

/// A room of `w` by `h` cells can be put beside `door` of the room of depth
/// `z` (nothing is put when that room has no bounds).
pub open spec fn placement_ok(m: Seq<Seq<i32>>, z: i32, door: DoorType, w: int, h: int) -> bool {
    match room_bounds(m, z) {
        None => true,
        Some(bd) => {
            let o = door_origin(bd, door, w, h);
            fill_ok(o.0, o.1, w, h)
        },
    }
}

/// The map after a room of depth `new_z`, `w` by `h` cells, is put beside
/// `door` of the room of depth `z`; unchanged when that room has no bounds.
pub open spec fn placed(m: Seq<Seq<i32>>, z: i32, door: DoorType, new_z: i32, w: int, h: int) -> Seq<Seq<i32>> {
    match room_bounds(m, z) {
        None => m,
        Some(bd) => {
            let o = door_origin(bd, door, w, h);
            filled(m, o.0, o.1, w, h, new_z)
        },
    }
}

/// A room fits beside a door at its largest size only if it fits there at
/// every smaller size.
pub proof fn lemma_placement_shrinks(
    m: Seq<Seq<i32>>,
    z: i32,
    door: DoorType,
    max_w: int,
    max_h: int,
    w: int,
    h: int,
)
    requires
        placement_ok(m, z, door, max_w, max_h),
        0 < w <= max_w,
        0 < h <= max_h,
    ensures
        placement_ok(m, z, door, w, h),
{
    if let Some(bd) = room_bounds(m, z) {
        assert(w / 2 <= max_w / 2);
        assert(w - w / 2 <= max_w - max_w / 2);
        assert(h / 2 <= max_h / 2);
        assert(h - h / 2 <= max_h - max_h / 2);
    }
}

/// Putting a room of another depth beside a door of the room of depth `z`
/// leaves the bounds of that room as they were.
pub proof fn lemma_placed_keeps_bounds(
    m: Seq<Seq<i32>>,
    z: i32,
    door: DoorType,
    new_z: i32,
    w: int,
    h: int,
)
    requires
        new_z != z,
    ensures
        room_bounds(placed(m, z, door, new_z, w, h), z) == room_bounds(m, z),
{
    if let Some(bd) = room_bounds(m, z) {
        let m2 = placed(m, z, door, new_z, w, h);
        assert(bounds_of(m, z, bd.0, bd.1, bd.2, bd.3));
        assert forall|x: int, y: int| #[trigger] holds(m2, z, x, y) == holds(m, z, x, y) by {
            if holds(m, z, x, y) {
                assert(bd.0 <= x <= bd.1 && bd.2 <= y <= bd.3);
            }
        }
        let yl = choose|y: int| holds(m, z, bd.0, y);
        let yr = choose|y: int| holds(m, z, bd.1, y);
        let xt = choose|x: int| holds(m, z, x, bd.2);
        let xb = choose|x: int| holds(m, z, x, bd.3);
        assert(holds(m, z, bd.0, yl));
        assert(holds(m, z, bd.1, yr));
        assert(holds(m, z, xt, bd.2));
        assert(holds(m, z, xb, bd.3));
        assert(holds(m2, z, bd.0, yl));
        assert(holds(m2, z, bd.1, yr));
        assert(holds(m2, z, xt, bd.2));
        assert(holds(m2, z, xb, bd.3));
        assert(bounds_of(m2, z, bd.0, bd.1, bd.2, bd.3));
        let bd2 = choose|b: (int, int, int, int)| #[trigger] bounds_of(m2, z, b.0, b.1, b.2, b.3);
        lemma_bounds_unique(m2, z, bd2, bd);
    }
}

/// Reading a room's bounds back after it was put on the map gives the
/// rectangle it was put in: when no cell held its depth before, and the
/// rectangle has cells and lies on the map.
pub proof fn lemma_filled_bounds(m: Seq<Seq<i32>>, sx: int, sy: int, w: int, h: int, z: i32)
    requires
        forall|x: int, y: int| !#[trigger] holds(m, z, x, y),
        sx >= 0,
        sy >= 0,
        w > 0,
        h > 0,
        sx + w <= m.len(),
        forall|x: int| sx <= x < sx + w ==> sy + h <= #[trigger] m[x].len(),
    ensures
        room_bounds(filled(m, sx, sy, w, h, z), z) == Some((sx, sx + w - 1, sy, sy + h - 1)),
{
    let m2 = filled(m, sx, sy, w, h, z);
    let bd = (sx, sx + w - 1, sy, sy + h - 1);
    assert forall|x: int, y: int| #[trigger] holds(m2, z, x, y) implies bd.0 <= x <= bd.1 && bd.2 <= y <= bd.3 by {
        if !(sx <= x < sx + w && sy <= y < sy + h) {
            assert(holds(m, z, x, y));
        }
    }
    assert(holds(m2, z, sx, sy));
    assert(holds(m2, z, sx + w - 1, sy));
    assert(holds(m2, z, sx, sy + h - 1));
    assert(bounds_of(m2, z, bd.0, bd.1, bd.2, bd.3));
    let c = choose|b: (int, int, int, int)| #[trigger] bounds_of(m2, z, b.0, b.1, b.2, b.3);
    lemma_bounds_unique(m2, z, c, bd);
}

/// Every tile of an inner wall the generator can make for a room of at
/// least 8 by 8 tiles (and at most `i32::MAX` each way) lies strictly inside
/// the room, off its border.
pub proof fn lemma_generated_wall_inside(room_width: int, room_height: int, wall: InnerWall, i: int)
    requires
        8 <= room_width <= i32::MAX,
        8 <= room_height <= i32::MAX,
        generated_wall(room_width, room_height, wall),
        0 <= i < wall_tiles(wall).len(),
    ensures
        1 <= wall_tiles(wall)[i].0 <= room_width - 2,
        1 <= wall_tiles(wall)[i].1 <= room_height - 2,
{
    let (sx, sy, horizontal, length) = choose|sx: int, sy: int, horizontal: bool, length: int|
        {
            &&& 2 <= sx <= room_width - 5
            &&& 2 <= sy <= room_height - 5
            &&& horizontal ==> 3 <= length <= room_width / 2 - 1
            &&& !horizontal ==> 3 <= length <= room_height / 2 - 1
            &&& wall == #[trigger] wall_for(room_width, room_height, sx, sy, horizontal, length)
        };
    assert(wall.start_pos.x as int == sx);
    assert(wall.start_pos.y as int == sy);
    if horizontal {
        if sx >= room_width / 2 {
            assert(wall.length_direction_vector == (-length as i32, 1i32));
        } else {
            assert(wall.length_direction_vector == (length as i32, 1i32));
        }
    } else {
        if sy >= room_height / 2 {
            assert(wall.length_direction_vector == (1i32, -length as i32));
        } else {
            assert(wall.length_direction_vector == (1i32, length as i32));
        }
    }
}

/// A tile marked through `set_collide` at edge-relative pixel position
/// `(px, py)` of a `w` by `h` grid is the tile `translate_coords_to_grid`
/// reads for the centred position half a room to the left and below, and
/// it holds the value written.
pub proof fn lemma_marked_tile_is_read(g: Seq<Seq<u32>>, px: int, py: int, val: u32)
    requires
        g.len() > 0,
        forall|x: int| 0 <= x < g.len() ==> #[trigger] g[x].len() == g[0].len(),
        0 <= px,
        0 <= py,
        px / 32 < g.len(),
        py / 32 < g[0].len(),
    ensures
        ({
            let w = g.len() as int;
            let h = g[0].len() as int;
            let gx = grid_index((px - 16 * w) + 16 * w, w);
            let gy = grid_index((py - 16 * h) + 16 * h, h);
            &&& gx == px / 32
            &&& gy == py / 32
            &&& collided(g, px, py, val)[gx][gy] == val
        }),
{
}


/// The cells of a room grid, column by column.
pub open spec fn grid_cells(g: Seq<Vec<u32>>) -> Seq<Seq<u32>> {
    g.map_values(|column: Vec<u32>| column@)
}

/// The grid after the collision value of cell `(gx, gy)` is set to `val`;
/// unchanged when that cell is off the grid. The height of the grid is that
/// of its first column.
pub open spec fn tile_set(g: Seq<Seq<u32>>, gx: int, gy: int, val: u32) -> Seq<Seq<u32>> {
    if 0 <= gx < g.len() && 0 <= gy < g[0].len() {
        g.update(gx, g[gx].update(gy, val))
    } else {
        g
    }
}

/// The grid after the collision value of the tile holding pixel-scale
/// position `(x, y)` (cell `(x / 32, y / 32)`) is set to `val`; unchanged when
/// that cell is off the grid.
pub open spec fn collided(g: Seq<Seq<u32>>, x: int, y: int, val: u32) -> Seq<Seq<u32>> {
    tile_set(g, x / 32, y / 32, val)
}


/// The value of map cell `(x, y)`, if it is on the map.
pub open spec fn cell_value(m: Seq<Seq<i32>>, x: int, y: int) -> Option<i32> {
    if 0 <= x < m.len() && 0 <= y < m[x].len() {
        Some(m[x][y])
    } else {
        None
    }
}

/// Whether a room with bounds `bd` gets `door`: when the map cell just past
/// the middle of that edge is not empty (or lies off the map), or when there is room on that side
/// for a further room (81 cells beyond the edge and 41 cells on either side
/// of its middle, within the 400-cell map).
pub open spec fn door_opens(m: Seq<Seq<i32>>, bd: (int, int, int, int), door: DoorType) -> bool {
    let (l, r, t, b) = bd;
    let hh = (b - t) / 2;
    let hw = (r - l) / 2;
    match door {
        DoorType::Left => cell_value(m, l - 1, t + hh) != Some(EMPTY_CELL) || (l - 81 > 0 && t + hh
            + 41 < 400 && b - hh - 41 > 0),
        DoorType::Right => cell_value(m, r + 1, t + hh) != Some(EMPTY_CELL) || (r + 81 < 400 && t
            + hh + 41 < 400 && b - hh - 41 > 0),
        DoorType::Top => cell_value(m, l + hw, t - 1) != Some(EMPTY_CELL) || (t - 81 > 0 && l + hw
            + 41 < 400 && r - hw - 41 > 0),
        DoorType::Bottom => cell_value(m, l + hw, b + 1) != Some(EMPTY_CELL) || (b + 81 < 400 && l
            + hw + 41 < 400 && r - hw - 41 > 0),
    }
}

/// Which doors a room gets.
#[derive(Debug, Clone, Copy)]
pub struct DoorPlan {
    pub left: bool,
    pub right: bool,
    pub top: bool,
    pub bottom: bool,
}

/// The doors of the room of depth `z`: none when it has no bounds.
pub open spec fn door_plan(m: Seq<Seq<i32>>, z: i32) -> DoorPlan {
    match room_bounds(m, z) {
        None => DoorPlan { left: false, right: false, top: false, bottom: false },
        Some(bd) => DoorPlan {
            left: door_opens(m, bd, DoorType::Left),
            right: door_opens(m, bd, DoorType::Right),
            top: door_opens(m, bd, DoorType::Top),
            bottom: door_opens(m, bd, DoorType::Bottom),
        },
    }
}

/// `v` brought into the range of `usize`, as a float-to-integer cast does.
pub open spec fn sat(v: int) -> int {
    if v < 0 {
        0
    } else if v > usize::MAX {
        usize::MAX as int
    } else {
        v
    }
}

/// Pixel-scale position whose collision tile a door of a `w` by `h` room marks.
pub open spec fn door_cell(door: DoorType, w: int, h: int) -> (int, int) {
    match door {
        DoorType::Left => (sat(16 - 32 * w), sat(16 + 16 * h)),
        DoorType::Right => (sat(32 * w - 16), sat(16 + 16 * h)),
        DoorType::Top => (sat(16 + 16 * w), sat(32 * h - 16)),
        DoorType::Bottom => (sat(16 + 16 * w), sat(-32 * h - 80)),
    }
}

/// Whether cell `(x, y)` is marked once the border of a `w` by `h` start
/// room has been marked for its first `ns` columns of the north (last row)
/// and south (row 0) walls and its first `ew` rows of the east (last column)
/// and west (column 0) walls.
pub open spec fn start_marks(w: int, h: int, ns: int, ew: int, x: int, y: int) -> bool {
    ||| (0 <= x < ns && (y == h - 1 || y == 0))
    ||| (0 <= y < ew && (x == w - 1 || x == 0))
}

/// Whether marking the border of a `w` by `h` start room marks cell `(x, y)`:
/// the cells under its four walls, that is every cell of its first and last
/// row and column.
pub open spec fn start_border(w: int, h: int, x: int, y: int) -> bool {
    start_marks(w, h, w, h + 1, x, y)
}

/// The grid with every cell `p` holds set to `val`.
pub open spec fn painted(g: Seq<Seq<u32>>, p: spec_fn(int, int) -> bool, val: u32) -> Seq<Seq<u32>> {
    Seq::new(g.len(), |x: int| Seq::new(g[x].len(), |y: int| if p(x, y) { val } else { g[x][y] }))
}

/// The grid after the planned doors of a `w` by `h` room mark their tiles
/// with 2, in the order left, right, top, bottom.
pub open spec fn doors_marked(g: Seq<Seq<u32>>, plan: DoorPlan, w: int, h: int) -> Seq<Seq<u32>> {
    let mark = |g: Seq<Seq<u32>>, d: DoorType| collided(g, door_cell(d, w, h).0, door_cell(d, w, h).1, 2u32);
    let g1 = if plan.left { mark(g, DoorType::Left) } else { g };
    let g2 = if plan.right { mark(g1, DoorType::Right) } else { g1 };
    let g3 = if plan.top { mark(g2, DoorType::Top) } else { g2 };
    if plan.bottom { mark(g3, DoorType::Bottom) } else { g3 }
}

/// Some door of the plan opens.
pub open spec fn any_door(p: DoorPlan) -> bool {
    p.left || p.right || p.top || p.bottom
}


/// `v`, or 0 when it is negative.
pub open spec fn nonneg(v: int) -> nat {
    if v < 0 {
        0
    } else {
        v as nat
    }
}

/// The tiles an inner wall covers, in drawing order, as (column, row)
/// cells of the room's grid. A horizontal wall of extent `(±n, 1)` covers `n - 2` tiles from its start to
/// the right or to the left; a vertical wall of extent `(1, ±n)` covers `n - 2`
/// tiles downward or upward. Both start one tile up and left of the start tile.
pub open spec fn wall_tiles(wall: InnerWall) -> Seq<(int, int)> {
    let sx = wall.start_pos.x as int;
    let sy = wall.start_pos.y as int;
    let dx = wall.length_direction_vector.0 as int;
    let dy = wall.length_direction_vector.1 as int;
    let horizontal = if dy == 1 {
        if dx > 0 {
            Seq::new(nonneg(dx - 2), |k: int| (sx - 1 + k, sy - 1))
        } else {
            Seq::new(nonneg(-dx - 2), |k: int| (sx - 1 - k, sy - 1))
        }
    } else {
        Seq::empty()
    };
    let vertical = if dx == 1 {
        if dy > 0 {
            Seq::new(nonneg(dy - 2), |k: int| (sx - 1, sy - 1 + k))
        } else {
            Seq::new(nonneg(-dy - 2), |k: int| (sx - 1, sy - 1 - k))
        }
    } else {
        Seq::empty()
    };
    horizontal + vertical
}

/// The grid after the collision value of every cell in `tiles` is set to
/// `val`, in order (negative coordinates count as 0).
pub open spec fn tiles_marked(g: Seq<Seq<u32>>, tiles: Seq<(int, int)>, val: u32) -> Seq<Seq<u32>>
    decreases tiles.len(),
{
    if tiles.len() == 0 {
        g
    } else {
        tile_set(
            tiles_marked(g, tiles.drop_last(), val),
            sat(tiles.last().0),
            sat(tiles.last().1),
            val,
        )
    }
}

/// The grid after every wall in `walls` is drawn, in order, with collision value 1.
pub open spec fn walls_marked(g: Seq<Seq<u32>>, walls: Seq<InnerWall>) -> Seq<Seq<u32>>
    decreases walls.len(),
{
    if walls.len() == 0 {
        g
    } else {
        tiles_marked(walls_marked(g, walls.drop_last()), wall_tiles(walls.last()), 1u32)
    }
}

/// The inner wall that starts at tile `(start_x, start_y)` of a `room_width`
/// by `room_height` room: a horizontal wall of `length` tiles runs toward the
/// left when it starts in the right half, else toward the right; a vertical
/// one runs up when it starts in the lower half, else down.
pub open spec fn wall_for(
    room_width: int,
    room_height: int,
    start_x: int,
    start_y: int,
    horizontal: bool,
    length: int,
) -> InnerWall {
    InnerWall {
        start_pos: InnerWallStartPos { x: start_x as usize, y: start_y as usize },
        length_direction_vector: if horizontal {
            if start_x >= room_width / 2 {
                (-length as i32, 1i32)
            } else {
                (length as i32, 1i32)
            }
        } else {
            if start_y >= room_height / 2 {
                (1i32, -length as i32)
            } else {
                (1i32, length as i32)
            }
        },
    }
}


/// `wall` is one the generator can make for a `room_width` by `room_height`
/// room: it starts at least 2 tiles from the left and top edges and 4 from the
/// right and bottom ones, and is from 3 tiles long up to one less than half
/// the room's extent in its direction.
pub open spec fn generated_wall(room_width: int, room_height: int, wall: InnerWall) -> bool {
    exists|sx: int, sy: int, horizontal: bool, length: int|
        {
            &&& 2 <= sx <= room_width - 5
            &&& 2 <= sy <= room_height - 5
            &&& horizontal ==> 3 <= length <= room_width / 2 - 1
            &&& !horizontal ==> 3 <= length <= room_height / 2 - 1
            &&& wall == #[trigger] wall_for(room_width, room_height, sx, sy, horizontal, length)
        }
}

/// A grid of `w` columns of `h` zero cells.
pub open spec fn zero_grid(w: int, h: int) -> Seq<Seq<u32>> {
    Seq::new(w as nat, |x: int| Seq::new(h as nat, |y: int| 0u32))
}

/// The grid after walls `added` are appended one at a time to the walls
/// `base`, the whole list being drawn after each append.
pub open spec fn redrawn(g: Seq<Seq<u32>>, base: Seq<InnerWall>, added: Seq<InnerWall>) -> Seq<Seq<u32>>
    decreases added.len(),
{
    if added.len() == 0 {
        g
    } else {
        walls_marked(redrawn(g, base, added.drop_last()), base + added)
    }
}


/// The map cell just past `door` of the room of depth `z` (of the room with
/// bounds `(0, 0, 0, 0)` when that room has no bounds): beside the middle of
/// that edge.
pub open spec fn exit_cell(m: Seq<Seq<i32>>, z: i32, door: DoorType) -> (int, int) {
    let bd = match room_bounds(m, z) {
        Some(bd) => bd,
        None => (0, 0, 0, 0),
    };
    match door {
        DoorType::Right => (bd.1 + 1, (bd.2 + bd.3) / 2),
        DoorType::Left => (bd.0 - 1, (bd.2 + bd.3) / 2),
        DoorType::Top => ((bd.0 + bd.1) / 2, bd.2 - 1),
        DoorType::Bottom => ((bd.0 + bd.1) / 2, bd.3 + 1),
    }
}

/// The step a door transition takes.
#[derive(Debug, Clone, Copy)]
pub enum Transition {
    /// The players are too deep for a further room; nothing happens.
    Stay,
    /// Beyond the door lay empty map: a new room was generated and put there.
    NewRoom { z_index: i32, width: usize, height: usize, doors: DoorPlan },
    /// Beyond the door lies a remembered room, which the players re-enter.
    Revisit { z_index: i32, width: usize, height: usize, doors: DoorPlan },
    /// Beyond the door lies a cell off the map or of a room with no
    /// remembered size; nothing happens.
    Unknown,
}

/// Every room grid has the shape its recorded size gives: `width` columns of
/// `height` cells.
pub open spec fn grid_shape(g: Seq<Vec<u32>>, size: (usize, usize)) -> bool {
    &&& g.len() == size.0
    &&& forall|x: int| 0 <= x < g.len() ==> #[trigger] g[x]@.len() == size.1
}

/// Keeper of the dungeon layout: the map of which depth occupies which cell,
/// one collision grid per generated room, the remembered room sizes, the depth
/// the players are in and the depth most recently generated, and the inner
/// walls of every room.
pub struct RoomManager {
    pub room_map: Vec<Vec<i32>>,
    pub grids: Vec<Vec<Vec<u32>>>,
    pub current_room: usize,
    pub room_sizes: Vec<(usize, usize)>,
    pub room_array: RoomArray,
    pub state_vector: Vec<usize>,
    pub current_z_index: i32,
    pub global_z_index: i32,
    pub inner_wall_list: InnerWallList,
}

/// `v` brought into the range of `usize`.
pub(crate) fn saturate(v: i128) -> (r: usize)
    ensures
        r == sat(v as int),
{
    if v < 0 {
        0
    } else if v > usize::MAX as i128 {
        usize::MAX
    } else {
        v as usize
    }
}

/// Pixel-scale position whose collision tile a door of a `width` by `height`
/// room marks.
pub fn door_collision_point(door: DoorType, width: usize, height: usize) -> (c: (usize, usize))
    ensures
        c.0 == door_cell(door, width as int, height as int).0,
        c.1 == door_cell(door, width as int, height as int).1,
{
    let w = width as i128;
    let h = height as i128;
    assert(0 <= w <= 0xffff_ffff_ffff_ffff && 0 <= h <= 0xffff_ffff_ffff_ffff);
    match door {
        DoorType::Left => (saturate(16 - 32 * w), saturate(16 + 16 * h)),
        DoorType::Right => (saturate(32 * w - 16), saturate(16 + 16 * h)),
        DoorType::Top => (saturate(16 + 16 * w), saturate(32 * h - 16)),
        DoorType::Bottom => (saturate(16 + 16 * w), saturate(0 - 32 * h - 80)),
    }
}

/// The tiles `inner_wall` covers, in drawing order.
pub fn inner_wall_tiles(inner_wall: &InnerWall) -> (tiles: Vec<(i128, i128)>)
    ensures
        tiles@.len() == wall_tiles(*inner_wall).len(),
        forall|i: int|
            0 <= i < tiles@.len() ==> #[trigger] tiles@[i].0 == wall_tiles(*inner_wall)[i].0
                && tiles@[i].1 == wall_tiles(*inner_wall)[i].1,
{
    let sx = inner_wall.start_pos.x as i128;
    let sy = inner_wall.start_pos.y as i128;
    let (dx, dy) = inner_wall.length_direction_vector;
    let dx = dx as i128;
    let dy = dy as i128;
    assert(0 <= sx <= 0xffff_ffff_ffff_ffff && 0 <= sy <= 0xffff_ffff_ffff_ffff);
    let ghost isx = sx as int;
    let ghost isy = sy as int;
    let ghost hseq: Seq<(int, int)> = if dy == 1 {
        if dx > 0 {
            Seq::new(nonneg(dx - 2), |k: int| (isx - 1 + k, isy - 1))
        } else {
            Seq::new(nonneg(-dx - 2), |k: int| (isx - 1 - k, isy - 1))
        }
    } else {
        Seq::empty()
    };
    let ghost vseq: Seq<(int, int)> = if dx == 1 {
        if dy > 0 {
            Seq::new(nonneg(dy - 2), |k: int| (isx - 1, isy - 1 + k))
        } else {
            Seq::new(nonneg(-dy - 2), |k: int| (isx - 1, isy - 1 - k))
        }
    } else {
        Seq::empty()
    };
    assert(wall_tiles(*inner_wall) == hseq + vseq);
    let mut tiles: Vec<(i128, i128)> = Vec::new();
    if dy == 1 {
        let count: i128 = if dx > 0 {
            dx - 2
        } else {
            -dx - 2
        };
        let mut k: i128 = 0;
        while k < count
            invariant
                0 <= k,
                k <= count || k == 0,
                count <= 0x1_0000_0000,
                count >= 0 ==> count == hseq.len(),
                dy == 1,
                0 <= sx <= 0xffff_ffff_ffff_ffff,
                0 <= sy <= 0xffff_ffff_ffff_ffff,
                isx == sx,
                isy == sy,
                hseq == (if dx > 0 {
                    Seq::new(nonneg(dx - 2), |k: int| (isx - 1 + k, isy - 1))
                } else {
                    Seq::new(nonneg(-dx - 2), |k: int| (isx - 1 - k, isy - 1))
                }),
                tiles@.len() == k,
                forall|i: int|
                    0 <= i < k ==> #[trigger] tiles@[i].0 == hseq[i].0 && tiles@[i].1 == hseq[i].1,
            decreases count - k,
        {
            let column = if dx > 0 {
                sx - 1 + k
            } else {
                sx - 1 - k
            };
            tiles.push((column, sy - 1));
            k += 1;
        }
    }
    assert(tiles@.len() == hseq.len());
    if dx == 1 {
        let count: i128 = if dy > 0 {
            dy - 2
        } else {
            -dy - 2
        };
        let mut k: i128 = 0;
        while k < count
            invariant
                0 <= k,
                k <= count || k == 0,
                count <= 0x1_0000_0000,
                count >= 0 ==> count == vseq.len(),
                dx == 1,
                0 <= sx <= 0xffff_ffff_ffff_ffff,
                0 <= sy <= 0xffff_ffff_ffff_ffff,
                isx == sx,
                isy == sy,
                vseq == (if dy > 0 {
                    Seq::new(nonneg(dy - 2), |k: int| (isx - 1, isy - 1 + k))
                } else {
                    Seq::new(nonneg(-dy - 2), |k: int| (isx - 1, isy - 1 - k))
                }),
                tiles@.len() == hseq.len() + k,
                forall|i: int|
                    0 <= i < hseq.len() ==> #[trigger] tiles@[i].0 == hseq[i].0 && tiles@[i].1
                        == hseq[i].1,
                forall|i: int|
                    0 <= i < k ==> #[trigger] tiles@[hseq.len() + i].0 == vseq[i].0 && tiles@[hseq.len()
                        + i].1 == vseq[i].1,
            decreases count - k,
        {
            let row = if dy > 0 {
                sy - 1 + k
            } else {
                sy - 1 - k
            };
            let ghost prev = tiles@;
            tiles.push((sx - 1, row));
            assert forall|i: int| 0 <= i < hseq.len() implies #[trigger] tiles@[i] == prev[i] by {}
            k += 1;
        }
    }
    proof {
        assert forall|i: int| 0 <= i < tiles@.len() implies #[trigger] tiles@[i].0 == (hseq + vseq)[i].0
            && tiles@[i].1 == (hseq + vseq)[i].1 by {
            if i >= hseq.len() {
                assert(tiles@[hseq.len() + (i - hseq.len())] == tiles@[i]);
            }
        }
    }
    tiles
}

/// The inner wall that starts at tile `(start_x, start_y)` of a `room_width`
/// by `room_height` room, `length` tiles long, horizontal or vertical.
pub fn inner_wall_for(
    room_width: usize,
    room_height: usize,
    start_x: usize,
    start_y: usize,
    horizontal: bool,
    length: usize,
) -> (w: InnerWall)
    requires
        length <= i32::MAX,
    ensures
        w == wall_for(
            room_width as int,
            room_height as int,
            start_x as int,
            start_y as int,
            horizontal,
            length as int,
        ),
{
    let length_direction_vector = if horizontal {
        if start_x >= room_width / 2 {
            (-(length as i32), 1)
        } else {
            (length as i32, 1)
        }
    } else {
        if start_y >= room_height / 2 {
            (1, -(length as i32))
        } else {
            (1, length as i32)
        }
    };
    InnerWall { start_pos: InnerWallStartPos { x: start_x, y: start_y }, length_direction_vector }
}

impl RoomManager {
    /// The room map as rows of cell values.
    pub open spec fn map(&self) -> Seq<Seq<i32>> {
        map_cells(self.room_map@)
    }

    /// The map is `MAP_SIZE` by `MAP_SIZE`, there is one size per grid, the
    /// current room is a grid when any exists, and each grid has its size.
    pub open spec fn wf(&self) -> bool {
        &&& self.room_map@.len() == MAP_SIZE
        &&& forall|x: int| 0 <= x < MAP_SIZE ==> #[trigger] self.room_map@[x]@.len() == MAP_SIZE
        &&& self.grids@.len() == self.room_sizes@.len()
        &&& self.grids@.len() > 0 ==> self.current_room < self.grids@.len()
        &&& forall|i: int|
            0 <= i < self.grids@.len() ==> grid_shape(#[trigger] self.grids@[i]@, self.room_sizes@[i])
    }

    /// An empty dungeon: every map cell empty, no rooms, both depths at -2,
    /// and `INNER_WALL_SLOTS` empty inner-wall lists.
    pub fn new() -> (rm: RoomManager)
        ensures
            rm.wf(),
            forall|x: int, y: int|
                0 <= x < MAP_SIZE && 0 <= y < MAP_SIZE ==> #[trigger] rm.map()[x][y] == EMPTY_CELL,
            rm.grids@.len() == 0,
            rm.current_room == 0,
            rm.room_array.rooms@.len() == 0,
            rm.state_vector@.len() == 0,
            rm.current_z_index == -2,
            rm.global_z_index == -2,
            rm.inner_wall_list.walls@.len() == INNER_WALL_SLOTS,
            forall|i: int| 0 <= i < INNER_WALL_SLOTS ==> #[trigger] rm.inner_wall_list.walls@[i]@.len() == 0,
    {
        let mut room_map: Vec<Vec<i32>> = Vec::new();
        while room_map.len() < MAP_SIZE
            invariant
                room_map@.len() <= MAP_SIZE,
                forall|x: int| 0 <= x < room_map@.len() ==> #[trigger] room_map@[x]@.len() == MAP_SIZE,
                forall|x: int, y: int|
                    0 <= x < room_map@.len() && 0 <= y < MAP_SIZE ==> #[trigger] room_map@[x]@[y]
                        == EMPTY_CELL,
            decreases MAP_SIZE - room_map.len(),
        {
            let mut row: Vec<i32> = Vec::new();
            while row.len() < MAP_SIZE
                invariant
                    row@.len() <= MAP_SIZE,
                    forall|y: int| 0 <= y < row@.len() ==> #[trigger] row@[y] == EMPTY_CELL,
                decreases MAP_SIZE - row.len(),
            {
                row.push(EMPTY_CELL);
            }
            room_map.push(row);
        }
        let mut walls: Vec<Vec<InnerWall>> = Vec::new();
        while walls.len() < INNER_WALL_SLOTS
            invariant
                walls@.len() <= INNER_WALL_SLOTS,
                forall|i: int| 0 <= i < walls@.len() ==> #[trigger] walls@[i]@.len() == 0,
            decreases INNER_WALL_SLOTS - walls.len(),
        {
            walls.push(Vec::new());
        }
        RoomManager {
            room_map,
            grids: Vec::new(),
            current_room: 0,
            room_sizes: Vec::new(),
            room_array: RoomArray::new(),
            state_vector: Vec::new(),
            current_z_index: -2,
            global_z_index: -2,
            inner_wall_list: InnerWallList { walls },
        }
    }

    /// The depth the players are in.
    pub fn get_current_z_index(&self) -> (z: i32)
        ensures
            z == self.current_z_index,
    {
        self.current_z_index
    }

    /// The depth most recently generated.
    pub fn get_global_z_index(&self) -> (z: i32)
        ensures
            z == self.global_z_index,
    {
        self.global_z_index
    }

    /// The Markov state vector.
    pub fn get_state_vector(&self) -> (v: &Vec<usize>)
        ensures
            v@ == self.state_vector@,
    {
        &self.state_vector
    }

    /// Replaces the Markov state vector.
    pub fn set_state_vector(&mut self, new_state_vector: Vec<usize>)
        ensures
            final(self).state_vector@ == new_state_vector@,
            final(self).room_map@ == old(self).room_map@,
            final(self).grids@ == old(self).grids@,
            final(self).room_sizes@ == old(self).room_sizes@,
            final(self).current_room == old(self).current_room,
            final(self).room_array.rooms@ == old(self).room_array.rooms@,
            final(self).current_z_index == old(self).current_z_index,
            final(self).global_z_index == old(self).global_z_index,
            final(self).inner_wall_list.walls@ == old(self).inner_wall_list.walls@,
    {
        self.state_vector = new_state_vector;
    }

    /// Adds an empty collision grid of `width` columns by `height` cells for a
    /// new room of that size in tiles, and makes it the current room.
    pub fn add_room(&mut self, width: usize, height: usize)
        requires
            old(self).wf(),
        ensures
            final(self).wf(),
            final(self).grids@.len() == old(self).grids@.len() + 1,
            forall|i: int| 0 <= i < old(self).grids@.len() ==> #[trigger] final(self).grids@[i] == old(self).grids@[i],
            final(self).grids@.last()@.len() == width,
            forall|x: int, y: int|
                0 <= x < width && 0 <= y < height ==> #[trigger] final(self).grids@.last()@[x]@[y] == 0,
            final(self).room_sizes@ == old(self).room_sizes@.push((width, height)),
            final(self).current_room == old(self).grids@.len(),
            final(self).room_map@ == old(self).room_map@,
            final(self).room_array.rooms@ == old(self).room_array.rooms@,
            final(self).state_vector@ == old(self).state_vector@,
            final(self).current_z_index == old(self).current_z_index,
            final(self).global_z_index == old(self).global_z_index,
            final(self).inner_wall_list.walls@ == old(self).inner_wall_list.walls@,
    {
        let mut new_grid: Vec<Vec<u32>> = Vec::new();
        while new_grid.len() < width
            invariant
                new_grid@.len() <= width,
                forall|x: int| 0 <= x < new_grid@.len() ==> #[trigger] new_grid@[x]@.len() == height,
                forall|x: int, y: int|
                    0 <= x < new_grid@.len() && 0 <= y < height ==> #[trigger] new_grid@[x]@[y] == 0,
            decreases width - new_grid.len(),
        {
            let mut column: Vec<u32> = Vec::new();
            while column.len() < height
                invariant
                    column@.len() <= height,
                    forall|y: int| 0 <= y < column@.len() ==> #[trigger] column@[y] == 0,
                decreases height - column.len(),
            {
                column.push(0);
            }
            new_grid.push(column);
        }
        self.grids.push(new_grid);
        self.room_sizes.push((width, height));
        self.current_room = self.grids.len() - 1;
        assert forall|i: int| 0 <= i < self.grids@.len() implies grid_shape(
            #[trigger] self.grids@[i]@,
            self.room_sizes@[i],
        ) by {
            if i < old(self).grids@.len() {
                assert(self.grids@[i] == old(self).grids@[i]);
                assert(self.room_sizes@[i] == old(self).room_sizes@[i]);
            }
        }
    }

    /// Makes `new_z_index` the depth the players are in.
    pub fn set_current_z_index(&mut self, new_z_index: i32)
        ensures
            final(self).current_z_index == new_z_index,
            final(self).room_map@ == old(self).room_map@,
            final(self).grids@ == old(self).grids@,
            final(self).room_sizes@ == old(self).room_sizes@,
            final(self).current_room == old(self).current_room,
            final(self).room_array.rooms@ == old(self).room_array.rooms@,
            final(self).state_vector@ == old(self).state_vector@,
            final(self).global_z_index == old(self).global_z_index,
            final(self).inner_wall_list.walls@ == old(self).inner_wall_list.walls@,
    {
        self.current_z_index = new_z_index;
    }

    /// The depth the players are in.
    pub fn current_room_z_index(&self) -> (z: i32)
        ensures
            z == self.current_z_index,
    {
        self.current_z_index
    }

    /// Claims the next depth for a new room: two below the last one
    /// generated. The players are now in it.
    pub fn next_room_z_index(&mut self) -> (z: i32)
        requires
            old(self).global_z_index >= i32::MIN + 2,
        ensures
            z == old(self).global_z_index - 2,
            final(self).global_z_index == z,
            final(self).current_z_index == z,
            final(self).room_map@ == old(self).room_map@,
            final(self).grids@ == old(self).grids@,
            final(self).room_sizes@ == old(self).room_sizes@,
            final(self).current_room == old(self).current_room,
            final(self).room_array.rooms@ == old(self).room_array.rooms@,
            final(self).state_vector@ == old(self).state_vector@,
            final(self).inner_wall_list.walls@ == old(self).inner_wall_list.walls@,
    {
        self.global_z_index -= 2;
        self.current_z_index = self.get_global_z_index();
        self.global_z_index
    }

    /// The value of map cell `(x, y)`, if it is on the map.
    pub fn get_room_value(&self, x: usize, y: usize) -> (v: Option<i32>)
        ensures
            v == (if x < self.map().len() && y < self.map()[x as int].len() {
                Some(self.map()[x as int][y as int])
            } else {
                None
            }),
    {
        if x < self.room_map.len() && y < self.room_map[x].len() {
            Some(self.room_map[x][y])
        } else {
            None
        }
    }

    /// Size in tiles of the room the players are in: the remembered size of
    /// the current depth, else the size of the current grid.
    pub fn current_room_size(&self) -> (size: (usize, usize))
        requires
            self.room_array.stored(self.current_z_index) is None ==> self.current_room
                < self.room_sizes@.len(),
        ensures
            size == (match self.room_array.stored(self.current_z_index) {
                Some(d) => (d.width, d.height),
                None => self.room_sizes@[self.current_room as int],
            }),
    {
        let current_player_z = self.get_current_z_index();
        if let Some(room) = self.room_array.get_room_from_storage(current_player_z) {
            (room.width, room.height)
        } else {
            self.room_sizes[self.current_room]
        }
    }

    /// Size in tiles of the most recently added grid; its half-extent in
    /// pixels is 16 times these numbers.
    pub fn current_room_max(&self) -> (size: (usize, usize))
        requires
            self.current_room < self.room_sizes@.len(),
        ensures
            size == self.room_sizes@[self.current_room as int],
    {
        self.room_sizes[self.current_room]
    }

    /// Appends `wall` to the inner walls of slot `index`, when that slot exists.
    pub fn add_inner_wall(&mut self, index: usize, wall: InnerWall)
        ensures
            final(self).inner_wall_list.walls@.len() == old(self).inner_wall_list.walls@.len(),
            index >= old(self).inner_wall_list.walls@.len() ==> final(self).inner_wall_list.walls@ == old(self).inner_wall_list.walls@,
            forall|i: int|
                0 <= i < old(self).inner_wall_list.walls@.len() ==> #[trigger] final(self).inner_wall_list.walls@[i]@ == (if i == index {
                    old(self).inner_wall_list.walls@[i]@.push(wall)
                } else {
                    old(self).inner_wall_list.walls@[i]@
                }),
            final(self).room_map@ == old(self).room_map@,
            final(self).grids@ == old(self).grids@,
            final(self).room_sizes@ == old(self).room_sizes@,
            final(self).current_room == old(self).current_room,
            final(self).room_array.rooms@ == old(self).room_array.rooms@,
            final(self).state_vector@ == old(self).state_vector@,
            final(self).current_z_index == old(self).current_z_index,
            final(self).global_z_index == old(self).global_z_index,
    {
        if index < self.inner_wall_list.walls.len() {
            self.inner_wall_list.walls[index].push(wall);
        }
    }

    /// The inner walls of slot `index`, when that slot exists.
    pub fn get_inner_walls(&self, index: usize) -> (w: Option<&Vec<InnerWall>>)
        ensures
            w matches Some(v) ==> index < self.inner_wall_list.walls@.len() && v@
                == self.inner_wall_list.walls@[index as int]@,
            w is None ==> index >= self.inner_wall_list.walls@.len(),
    {
        if index < self.inner_wall_list.walls.len() {
            Some(&self.inner_wall_list.walls[index])
        } else {
            None
        }
    }

    /// The bounds `(left, right, top, bottom)` of the cells holding depth
    /// `z_index`: `None` when no cell holds it.
    pub fn find_room_bounds(&self, z_index: i32) -> (res: Option<(usize, usize, usize, usize)>)
        ensures
            res matches Some(bd) ==> room_bounds(self.map(), z_index) == Some(
                (bd.0 as int, bd.1 as int, bd.2 as int, bd.3 as int),
            ),
            res is None ==> room_bounds(self.map(), z_index) is None,
    {
        let ghost m = self.map();
        let mut found = false;
        let mut left_x: usize = 0;
        let mut right_x: usize = 0;
        let mut top_y: usize = 0;
        let mut bottom_y: usize = 0;
        let ghost mut wl: int = 0;
        let ghost mut wr: int = 0;
        let ghost mut wt: int = 0;
        let ghost mut wb: int = 0;
        let mut x: usize = 0;
        while x < self.room_map.len()
            invariant
                m == self.map(),
                x <= m.len(),
                forall|i: int, j: int|
                    #[trigger] scanned(m, z_index, x as int, 0, i, j) ==> left_x <= i <= right_x
                        && top_y <= j <= bottom_y,
                found ==> scanned(m, z_index, x as int, 0, left_x as int, wl),
                found ==> scanned(m, z_index, x as int, 0, right_x as int, wr),
                found ==> scanned(m, z_index, x as int, 0, wt, top_y as int),
                found ==> scanned(m, z_index, x as int, 0, wb, bottom_y as int),
                !found ==> forall|i: int, j: int| !#[trigger] scanned(m, z_index, x as int, 0, i, j),
            decreases self.room_map@.len() - x,
        {
            let row_len = self.room_map[x].len();
            let mut y: usize = 0;
            while y < row_len
                invariant
                    m == self.map(),
                    x < m.len(),
                    row_len == m[x as int].len(),
                    y <= row_len,
                    forall|i: int, j: int|
                        #[trigger] scanned(m, z_index, x as int, y as int, i, j) ==> left_x <= i
                            <= right_x && top_y <= j <= bottom_y,
                    found ==> scanned(m, z_index, x as int, y as int, left_x as int, wl),
                    found ==> scanned(m, z_index, x as int, y as int, right_x as int, wr),
                    found ==> scanned(m, z_index, x as int, y as int, wt, top_y as int),
                    found ==> scanned(m, z_index, x as int, y as int, wb, bottom_y as int),
                    !found ==> forall|i: int, j: int|
                        !#[trigger] scanned(m, z_index, x as int, y as int, i, j),
                decreases row_len - y,
            {
                assert(m[x as int][y as int] == self.room_map@[x as int]@[y as int]);
                let ghost was_found = found;
                if self.room_map[x][y] == z_index {
                    if !found || x < left_x {
                        left_x = x;
                        proof {
                            wl = y as int;
                        }
                    }
                    if !found || x > right_x {
                        right_x = x;
                        proof {
                            wr = y as int;
                        }
                    }
                    if !found || y < top_y {
                        top_y = y;
                        proof {
                            wt = x as int;
                        }
                    }
                    if !found || y > bottom_y {
                        bottom_y = y;
                        proof {
                            wb = x as int;
                        }
                    }
                    found = true;
                }
                assert forall|i: int, j: int|
                    #[trigger] scanned(m, z_index, x as int, y + 1, i, j) implies left_x <= i
                        <= right_x && top_y <= j <= bottom_y by {
                    if !(i == x && j == y) {
                        assert(scanned(m, z_index, x as int, y as int, i, j));
                    }
                }
                if !found {
                    assert(!was_found);
                    assert forall|i: int, j: int| !#[trigger] scanned(m, z_index, x as int, y + 1, i, j) by {
                        if scanned(m, z_index, x as int, y + 1, i, j) {
                            if i == x && j == y {
                                assert(holds(m, z_index, x as int, y as int));
                                assert(false);
                            } else {
                                assert(scanned(m, z_index, x as int, y as int, i, j));
                            }
                        }
                    }
                }
                y += 1;
            }
            assert forall|i: int, j: int|
                #[trigger] scanned(m, z_index, x + 1, 0, i, j) implies left_x <= i <= right_x
                    && top_y <= j <= bottom_y by {
                assert(scanned(m, z_index, x as int, y as int, i, j));
            }
            if !found {
                assert forall|i: int, j: int| !#[trigger] scanned(m, z_index, x + 1, 0, i, j) by {
                    if scanned(m, z_index, x + 1, 0, i, j) {
                        assert(scanned(m, z_index, x as int, y as int, i, j));
                    }
                }
            }
            x += 1;
        }
        proof {
            assert forall|i: int, j: int| holds(m, z_index, i, j) implies #[trigger] scanned(
                m,
                z_index,
                x as int,
                0,
                i,
                j,
            ) by {}
            assert forall|i: int, j: int| #[trigger] holds(m, z_index, i, j) implies left_x <= i <= right_x
                && top_y <= j <= bottom_y by {
                assert(scanned(m, z_index, x as int, 0, i, j));
            }
        }
        if found {
            proof {
                assert(holds(m, z_index, left_x as int, wl));
                assert(holds(m, z_index, right_x as int, wr));
                assert(holds(m, z_index, wt, top_y as int));
                assert(holds(m, z_index, wb, bottom_y as int));
                let w = (left_x as int, right_x as int, top_y as int, bottom_y as int);
                assert(bounds_of(m, z_index, w.0, w.1, w.2, w.3));
                let bd = choose|bd: (int, int, int, int)| #[trigger] bounds_of(m, z_index, bd.0, bd.1, bd.2, bd.3);
                lemma_bounds_unique(m, z_index, bd, w);
            }
            Some((left_x, right_x, top_y, bottom_y))
        } else {
            proof {
                if exists|bd: (int, int, int, int)| #[trigger] bounds_of(m, z_index, bd.0, bd.1, bd.2, bd.3) {
                    let bd = choose|bd: (int, int, int, int)| #[trigger] bounds_of(m, z_index, bd.0, bd.1, bd.2, bd.3);
                    let yr = choose|y: int| holds(m, z_index, bd.1, y);
                    assert(scanned(m, z_index, x as int, 0, bd.1, yr));
                }
            }
            None
        }
    }


    /// Everything but the room map is as in `other`.
    pub open spec fn same_except_map(&self, other: &RoomManager) -> bool {
        &&& self.grids@ == other.grids@
        &&& self.room_sizes@ == other.room_sizes@
        &&& self.current_room == other.current_room
        &&& self.room_array.rooms@ == other.room_array.rooms@
        &&& self.state_vector@ == other.state_vector@
        &&& self.current_z_index == other.current_z_index
        &&& self.global_z_index == other.global_z_index
        &&& self.inner_wall_list.walls@ == other.inner_wall_list.walls@
    }

    /// Marks the cells of columns `[start_x, start_x + width)` and rows
    /// `[start_y, start_y + height)` of the map as occupied by depth `z_index`.
    pub fn place_room(&mut self, z_index: i32, start_x: usize, start_y: usize, width: usize, height: usize)
        requires
            old(self).wf(),
            fill_ok(start_x as int, start_y as int, width as int, height as int),
        ensures
            final(self).wf(),
            final(self).map() == filled(
                old(self).map(),
                start_x as int,
                start_y as int,
                width as int,
                height as int,
                z_index,
            ),
            final(self).same_except_map(&*old(self)),
    {
        let ghost m0 = self.map();
        let mut x = start_x;
        while x < start_x + width
            invariant
                self.wf(),
                self.same_except_map(&*old(self)),
                fill_ok(start_x as int, start_y as int, width as int, height as int),
                start_x <= x <= start_x + width,
                self.map().len() == m0.len(),
                forall|i: int| 0 <= i < m0.len() ==> #[trigger] self.map()[i].len() == m0[i].len(),
                forall|i: int, j: int|
                    0 <= i < m0.len() && 0 <= j < m0[i].len() ==> #[trigger] self.map()[i][j] == (if start_x
                        <= i < x && start_y <= j < start_y + height {
                        z_index
                    } else {
                        m0[i][j]
                    }),
            decreases start_x + width - x,
        {
            let mut y = start_y;
            while y < start_y + height
                invariant
                    self.wf(),
                    self.same_except_map(&*old(self)),
                    fill_ok(start_x as int, start_y as int, width as int, height as int),
                    start_x <= x < start_x + width,
                    start_y <= y <= start_y + height,
                    self.map().len() == m0.len(),
                    forall|i: int| 0 <= i < m0.len() ==> #[trigger] self.map()[i].len() == m0[i].len(),
                    forall|i: int, j: int|
                        0 <= i < m0.len() && 0 <= j < m0[i].len() ==> #[trigger] self.map()[i][j] == (if (
                        start_x <= i < x && start_y <= j < start_y + height) || (i == x && start_y <= j
                            < y) {
                            z_index
                        } else {
                            m0[i][j]
                        }),
                decreases start_y + height - y,
            {
                let ghost before = self.room_map@;
                let ghost mb = self.map();
                self.room_map[x][y] = z_index;
                proof {
                    assert(self.room_map@[x as int]@ == before[x as int]@.update(y as int, z_index));
                    assert forall|i: int| 0 <= i < mb.len() implies #[trigger] self.map()[i] == (if i == x {
                        mb[i].update(y as int, z_index)
                    } else {
                        mb[i]
                    }) by {
                        assert(mb[i] == before[i]@);
                        assert(self.map()[i] == self.room_map@[i]@);
                        if i != x {
                            assert(self.room_map@[i] == before[i]);
                        }
                    }
                }
                y += 1;
            }
            x += 1;
        }
        assert(self.map() =~~= filled(
            m0,
            start_x as int,
            start_y as int,
            width as int,
            height as int,
            z_index,
        ));
    }

    /// Puts the start room, `width` by `height` cells of depth `z_index`, at a
    /// random place on the map.
    pub fn add_start_room_to_map(&mut self, z_index: i32, width: usize, height: usize)
        requires
            old(self).wf(),
            width < MAP_SIZE,
            height < MAP_SIZE,
        ensures
            final(self).wf(),
            final(self).same_except_map(&*old(self)),
            exists|sx: int, sy: int|
                0 <= sx < MAP_SIZE - width && 0 <= sy < MAP_SIZE - height && final(self).map()
                    == filled(old(self).map(), sx, sy, width as int, height as int, z_index),
    {
        let upper_width = MAP_SIZE - width;
        let upper_height = MAP_SIZE - height;
        let start_x = random_in_range(0, upper_width - 1);
        let start_y = random_in_range(0, upper_height - 1);
        self.place_room(z_index, start_x, start_y, width, height);
    }

    /// Puts a room of depth `new_z_index`, `new_width` by `new_height` cells,
    /// beside `door` of the room of depth `z_index`; nothing changes when that
    /// room has no bounds.
    fn add_room_to_map_from_door(
        &mut self,
        door: DoorType,
        z_index: i32,
        new_z_index: i32,
        new_width: usize,
        new_height: usize,
    )
        requires
            old(self).wf(),
            placement_ok(old(self).map(), z_index, door, new_width as int, new_height as int),
        ensures
            final(self).wf(),
            final(self).same_except_map(&*old(self)),
            final(self).map() == placed(
                old(self).map(),
                z_index,
                door,
                new_z_index,
                new_width as int,
                new_height as int,
            ),
    {
        if let Some((left_x, right_x, top_y, bottom_y)) = self.find_room_bounds(z_index) {
            let (start_x, start_y) = match door {
                DoorType::Top => ((left_x + right_x) / 2 - new_width / 2, top_y - new_height),
                DoorType::Bottom => ((left_x + right_x) / 2 - new_width / 2, bottom_y + 1),
                DoorType::Left => (left_x - new_width, (top_y + bottom_y) / 2 - new_height / 2),
                DoorType::Right => (right_x + 1, (top_y + bottom_y) / 2 - new_height / 2),
            };
            self.place_room(new_z_index, start_x, start_y, new_width, new_height);
        }
    }

    /// Puts a room of depth `new_z_index` above the top door of the room of
    /// depth `z_index`, centred on it.
    pub fn add_room_to_map_from_top_door(
        &mut self,
        z_index: i32,
        new_z_index: i32,
        new_width: usize,
        new_height: usize,
    )
        requires
            old(self).wf(),
            placement_ok(old(self).map(), z_index, DoorType::Top, new_width as int, new_height as int),
        ensures
            final(self).wf(),
            final(self).same_except_map(&*old(self)),
            final(self).map() == placed(
                old(self).map(),
                z_index,
                DoorType::Top,
                new_z_index,
                new_width as int,
                new_height as int,
            ),
    {
        self.add_room_to_map_from_door(DoorType::Top, z_index, new_z_index, new_width, new_height);
    }

    /// Puts a room of depth `new_z_index` below the bottom door of the room of
    /// depth `z_index`, centred on it.
    pub fn add_room_to_map_from_bottom_door(
        &mut self,
        z_index: i32,
        new_z_index: i32,
        new_width: usize,
        new_height: usize,
    )
        requires
            old(self).wf(),
            placement_ok(old(self).map(), z_index, DoorType::Bottom, new_width as int, new_height as int),
        ensures
            final(self).wf(),
            final(self).same_except_map(&*old(self)),
            final(self).map() == placed(
                old(self).map(),
                z_index,
                DoorType::Bottom,
                new_z_index,
                new_width as int,
                new_height as int,
            ),
    {
        self.add_room_to_map_from_door(DoorType::Bottom, z_index, new_z_index, new_width, new_height);
    }

    /// Puts a room of depth `new_z_index` left of the left door of the room of
    /// depth `z_index`, centred on it.
    pub fn add_room_to_map_from_left_door(
        &mut self,
        z_index: i32,
        new_z_index: i32,
        new_width: usize,
        new_height: usize,
    )
        requires
            old(self).wf(),
            placement_ok(old(self).map(), z_index, DoorType::Left, new_width as int, new_height as int),
        ensures
            final(self).wf(),
            final(self).same_except_map(&*old(self)),
            final(self).map() == placed(
                old(self).map(),
                z_index,
                DoorType::Left,
                new_z_index,
                new_width as int,
                new_height as int,
            ),
    {
        self.add_room_to_map_from_door(DoorType::Left, z_index, new_z_index, new_width, new_height);
    }

    /// Puts a room of depth `new_z_index` right of the right door of the room
    /// of depth `z_index`, centred on it.
    pub fn add_room_to_map_from_right_door(
        &mut self,
        z_index: i32,
        new_z_index: i32,
        new_width: usize,
        new_height: usize,
    )
        requires
            old(self).wf(),
            placement_ok(old(self).map(), z_index, DoorType::Right, new_width as int, new_height as int),
        ensures
            final(self).wf(),
            final(self).same_except_map(&*old(self)),
            final(self).map() == placed(
                old(self).map(),
                z_index,
                DoorType::Right,
                new_z_index,
                new_width as int,
                new_height as int,
            ),
    {
        self.add_room_to_map_from_door(DoorType::Right, z_index, new_z_index, new_width, new_height);
    }


    /// The current room's collision grid, to be changed in place.
    pub fn current_grid(&mut self) -> (g: &mut Vec<Vec<u32>>)
        requires
            old(self).wf(),
            old(self).grids@.len() > 0,
        ensures
            *g == old(self).grids@[old(self).current_room as int],
            final(self).grids@ == old(self).grids@.update(old(self).current_room as int, *final(g)),
            final(self).room_map@ == old(self).room_map@,
            final(self).room_sizes@ == old(self).room_sizes@,
            final(self).current_room == old(self).current_room,
            final(self).room_array.rooms@ == old(self).room_array.rooms@,
            final(self).state_vector@ == old(self).state_vector@,
            final(self).current_z_index == old(self).current_z_index,
            final(self).global_z_index == old(self).global_z_index,
            final(self).inner_wall_list.walls@ == old(self).inner_wall_list.walls@,
    {
        let cr = self.current_room;
        &mut self.grids[cr]
    }

    /// The cells of the current room's collision grid.
    pub open spec fn current_cells(&self) -> Seq<Seq<u32>> {
        grid_cells(self.grids@[self.current_room as int]@)
    }

    /// A current room exists and its grid has at least one column.
    pub open spec fn grid_ready(&self) -> bool {
        &&& self.grids@.len() > 0
        &&& self.room_sizes@[self.current_room as int].0 > 0
    }

    /// Everything but the current room's collision grid and the inner-wall
    /// lists is as in `other`.
    pub open spec fn same_except_current_grid_and_walls(&self, other: &RoomManager) -> bool {
        &&& self.room_map@ == other.room_map@
        &&& self.grids@.len() == other.grids@.len()
        &&& forall|i: int|
            0 <= i < other.grids@.len() && i != other.current_room ==> #[trigger] self.grids@[i]
                == other.grids@[i]
        &&& self.room_sizes@ == other.room_sizes@
        &&& self.current_room == other.current_room
        &&& self.room_array.rooms@ == other.room_array.rooms@
        &&& self.state_vector@ == other.state_vector@
        &&& self.current_z_index == other.current_z_index
        &&& self.global_z_index == other.global_z_index
    }

    /// Everything but the current room's collision grid is as in `other`.
    pub open spec fn same_except_current_grid(&self, other: &RoomManager) -> bool {
        &&& self.room_map@ == other.room_map@
        &&& self.grids@.len() == other.grids@.len()
        &&& forall|i: int|
            0 <= i < other.grids@.len() && i != other.current_room ==> #[trigger] self.grids@[i]
                == other.grids@[i]
        &&& self.room_sizes@ == other.room_sizes@
        &&& self.current_room == other.current_room
        &&& self.room_array.rooms@ == other.room_array.rooms@
        &&& self.state_vector@ == other.state_vector@
        &&& self.current_z_index == other.current_z_index
        &&& self.global_z_index == other.global_z_index
        &&& self.inner_wall_list.walls@ == other.inner_wall_list.walls@
    }


    /// Whether a room with bounds `(l, r, t, b)` gets `door`.
    fn door_opens_at(&self, l: usize, r: usize, t: usize, b: usize, door: DoorType) -> (o: bool)
        requires
            self.wf(),
            l <= r < MAP_SIZE,
            t <= b < MAP_SIZE,
        ensures
            o == door_opens(self.map(), (l as int, r as int, t as int, b as int), door),
    {
        let half_height = (b - t) / 2;
        let half_width = (r - l) / 2;
        let neighbour = match door {
            DoorType::Left => if l == 0 {
                None
            } else {
                self.get_room_value(l - 1, t + half_height)
            },
            DoorType::Right => self.get_room_value(r + 1, t + half_height),
            DoorType::Top => if t == 0 {
                None
            } else {
                self.get_room_value(l + half_width, t - 1)
            },
            DoorType::Bottom => self.get_room_value(l + half_width, b + 1),
        };
        let neighbour_empty = match neighbour {
            Some(v) => v == EMPTY_CELL,
            None => false,
        };
        if !neighbour_empty {
            return true;
        }
        match door {
            DoorType::Left => (l as i32 - 81 > 0) && ((t + half_height) as i32 + 41 < 400) && ((b
                - half_height) as i32 - 41 > 0),
            DoorType::Right => (r as i32 + 81 < 400) && ((t + half_height) as i32 + 41 < 400) && ((b
                - half_height) as i32 - 41 > 0),
            DoorType::Top => (t as i32 - 81 > 0) && ((l + half_width) as i32 + 41 < 400) && ((r
                - half_width) as i32 - 41 > 0),
            DoorType::Bottom => (b as i32 + 81 < 400) && ((l + half_width) as i32 + 41 < 400) && ((r
                - half_width) as i32 - 41 > 0),
        }
    }

    /// The doors the room of depth `z_index` gets.
    pub fn plan_doors(&self, z_index: i32) -> (p: DoorPlan)
        requires
            self.wf(),
        ensures
            p == door_plan(self.map(), z_index),
    {
        match self.find_room_bounds(z_index) {
            Some((l, r, t, b)) => {
                proof {
                    let m = self.map();
                    let bd = (l as int, r as int, t as int, b as int);
                    assert(bounds_of(m, z_index, bd.0, bd.1, bd.2, bd.3));
                    let yr = choose|y: int| holds(m, z_index, bd.1, y);
                    let xb = choose|x: int| holds(m, z_index, x, bd.3);
                    assert(holds(m, z_index, bd.1, yr));
                    assert(holds(m, z_index, xb, bd.3));
                    assert(m[xb].len() == MAP_SIZE);
                }
                DoorPlan {
                    left: self.door_opens_at(l, r, t, b, DoorType::Left),
                    right: self.door_opens_at(l, r, t, b, DoorType::Right),
                    top: self.door_opens_at(l, r, t, b, DoorType::Top),
                    bottom: self.door_opens_at(l, r, t, b, DoorType::Bottom),
                }
            },
            None => DoorPlan { left: false, right: false, top: false, bottom: false },
        }
    }


    /// Gives the room of depth `z_index`, `width` by `height` tiles, its doors:
    /// marks the collision tile of each door with 2 in the current grid, and
    /// returns which doors it got.
    pub fn generate_doors(&mut self, width: usize, height: usize, z_index: i32) -> (p: DoorPlan)
        requires
            old(self).wf(),
            any_door(door_plan(old(self).map(), z_index)) ==> old(self).grid_ready(),
        ensures
            p == door_plan(old(self).map(), z_index),
            final(self).wf(),
            final(self).same_except_current_grid(&*old(self)),
            any_door(p) ==> final(self).current_cells() == doors_marked(
                old(self).current_cells(),
                p,
                width as int,
                height as int,
            ),
            !any_door(p) ==> final(self).grids@ == old(self).grids@,
    {
        let plan = self.plan_doors(z_index);
        let ghost g0 = self.current_cells();
        let ghost w = width as int;
        let ghost h = height as int;
        if plan.left {
            let (x, y) = door_collision_point(DoorType::Left, width, height);
            set_collide(self, x, y, 2);
        }
        let ghost g1 = self.current_cells();
        if plan.right {
            let (x, y) = door_collision_point(DoorType::Right, width, height);
            set_collide(self, x, y, 2);
        }
        let ghost g2 = self.current_cells();
        if plan.top {
            let (x, y) = door_collision_point(DoorType::Top, width, height);
            set_collide(self, x, y, 2);
        }
        let ghost g3 = self.current_cells();
        if plan.bottom {
            let (x, y) = door_collision_point(DoorType::Bottom, width, height);
            set_collide(self, x, y, 2);
        }
        plan
    }


    /// Marks the collision tile of every tile `inner_wall` covers with 1 in the
    /// current room's grid.
    pub fn draw_inner_wall(&mut self, inner_wall: &InnerWall)
        requires
            old(self).wf(),
            wall_tiles(*inner_wall).len() > 0 ==> old(self).grid_ready(),
        ensures
            final(self).wf(),
            final(self).same_except_current_grid(&*old(self)),
            wall_tiles(*inner_wall).len() > 0 ==> final(self).current_cells() == tiles_marked(
                old(self).current_cells(),
                wall_tiles(*inner_wall),
                1u32,
            ),
            wall_tiles(*inner_wall).len() == 0 ==> final(self).grids@ == old(self).grids@,
    {
        let tiles = inner_wall_tiles(inner_wall);
        let ghost spec_tiles = wall_tiles(*inner_wall);
        let ghost g0 = self.current_cells();
        let mut i: usize = 0;
        while i < tiles.len()
            invariant
                self.wf(),
                self.same_except_current_grid(&*old(self)),
                spec_tiles.len() > 0 ==> self.grid_ready(),
                tiles@.len() == spec_tiles.len(),
                forall|j: int|
                    0 <= j < tiles@.len() ==> #[trigger] tiles@[j].0 == spec_tiles[j].0
                        && tiles@[j].1 == spec_tiles[j].1,
                i <= tiles@.len(),
                spec_tiles.len() > 0 ==> self.current_cells() == tiles_marked(
                    g0,
                    spec_tiles.take(i as int),
                    1u32,
                ),
                i == 0 ==> self.grids@ == old(self).grids@,
            decreases tiles@.len() - i,
        {
            let (tx, ty) = tiles[i];
            set_collide_tile(self, saturate(tx), saturate(ty), 1);
            proof {
                let t = spec_tiles.take(i + 1);
                assert(t.drop_last() =~= spec_tiles.take(i as int));
                assert(t.last() == spec_tiles[i as int]);
            }
            i += 1;
        }
        proof {
            assert(spec_tiles.take(tiles@.len() as int) =~= spec_tiles);
        }
    }


    /// Marks the border of the current room, a `width` by `height` start
    /// room, with collision value 1: for each column `i` the cells `(i,
    /// height - 1)` under the north wall and `(i, 0)` under the south wall,
    /// then for each row `j` up to `height` the cells `(width - 1, j)` under
    /// the east wall and `(0, j)` under the west wall.
    fn mark_start_border(&mut self, width: usize, height: usize)
        requires
            old(self).wf(),
            old(self).grid_ready(),
            height < usize::MAX,
        ensures
            final(self).wf(),
            final(self).grid_ready(),
            final(self).same_except_current_grid(&*old(self)),
            final(self).current_cells() == painted(
                old(self).current_cells(),
                |x: int, y: int| start_border(width as int, height as int, x, y),
                1u32,
            ),
    {
        let ghost g0 = self.current_cells();
        let ghost w = width as int;
        let ghost h = height as int;
        proof {
            assert(grid_shape(self.grids@[self.current_room as int]@, self.room_sizes@[self.current_room as int]));
        }
        let mut i: usize = 0;
        while i < width
            invariant
                self.wf(),
                self.grid_ready(),
                self.same_except_current_grid(&*old(self)),
                i <= width,
                w == width,
                h == height,
                g0.len() > 0,
                forall|x: int| 0 <= x < g0.len() ==> #[trigger] g0[x].len() == g0[0].len(),
                self.current_cells().len() == g0.len(),
                forall|x: int| 0 <= x < g0.len() ==> #[trigger] self.current_cells()[x].len() == g0[x].len(),
                forall|x: int, y: int|
                    0 <= x < g0.len() && 0 <= y < g0[x].len() ==> #[trigger] self.current_cells()[x][y] == if start_marks(
                        w,
                        h,
                        i as int,
                        0,
                        x,
                        y,
                    ) {
                        1u32
                    } else {
                        g0[x][y]
                    },
            decreases width - i,
        {
            let ghost c0 = self.current_cells();
            let north = if height > 0 { height - 1 } else { usize::MAX };
            set_collide_tile(self, i, north, 1);
            set_collide_tile(self, i, 0, 1);
            proof {
                assert forall|x: int, y: int|
                    0 <= x < g0.len() && 0 <= y < g0[x].len() implies #[trigger] self.current_cells()[x][y] == if start_marks(
                        w,
                        h,
                        i + 1,
                        0,
                        x,
                        y,
                    ) {
                        1u32
                    } else {
                        g0[x][y]
                    } by {
                    assert(c0[x][y] == if start_marks(w, h, i as int, 0, x, y) {
                        1u32
                    } else {
                        g0[x][y]
                    });
                }
            }
            i += 1;
        }
        let mut j: usize = 0;
        while j <= height
            invariant
                self.wf(),
                self.grid_ready(),
                self.same_except_current_grid(&*old(self)),
                j <= height + 1,
                height < usize::MAX,
                w == width,
                h == height,
                g0.len() > 0,
                forall|x: int| 0 <= x < g0.len() ==> #[trigger] g0[x].len() == g0[0].len(),
                self.current_cells().len() == g0.len(),
                forall|x: int| 0 <= x < g0.len() ==> #[trigger] self.current_cells()[x].len() == g0[x].len(),
                forall|x: int, y: int|
                    0 <= x < g0.len() && 0 <= y < g0[x].len() ==> #[trigger] self.current_cells()[x][y] == if start_marks(
                        w,
                        h,
                        w,
                        j as int,
                        x,
                        y,
                    ) {
                        1u32
                    } else {
                        g0[x][y]
                    },
            decreases height + 1 - j,
        {
            let ghost d0 = self.current_cells();
            let east = if width > 0 { width - 1 } else { usize::MAX };
            set_collide_tile(self, east, j, 1);
            set_collide_tile(self, 0, j, 1);
            proof {
                assert forall|x: int, y: int|
                    0 <= x < g0.len() && 0 <= y < g0[x].len() implies #[trigger] self.current_cells()[x][y] == if start_marks(
                        w,
                        h,
                        w,
                        j + 1,
                        x,
                        y,
                    ) {
                        1u32
                    } else {
                        g0[x][y]
                    } by {
                    assert(d0[x][y] == if start_marks(w, h, w, j as int, x, y) {
                        1u32
                    } else {
                        g0[x][y]
                    });
                }
            }
            j += 1;
        }
        proof {
            let p = |x: int, y: int| start_border(w, h, x, y);
            assert(self.current_cells() =~~= painted(g0, p, 1u32));
        }
    }

    /// The inner walls of slot `i`, as a sequence.
    pub open spec fn walls_at(&self, i: int) -> Seq<InnerWall> {
        self.inner_wall_list.walls@[i]@
    }

    /// Draws every inner wall of slot `slot` into the current room's grid.
    fn draw_inner_walls(&mut self, slot: usize)
        requires
            old(self).wf(),
            slot < old(self).inner_wall_list.walls@.len(),
            old(self).grid_ready(),
        ensures
            final(self).wf(),
            final(self).grid_ready(),
            final(self).same_except_current_grid(&*old(self)),
            final(self).current_cells() == walls_marked(old(self).current_cells(), old(self).walls_at(slot as int)),
    {
        let ghost walls = self.walls_at(slot as int);
        let ghost g0 = self.current_cells();
        let n = self.inner_wall_list.walls[slot].len();
        let mut i: usize = 0;
        while i < n
            invariant
                self.wf(),
                self.grid_ready(),
                self.same_except_current_grid(&*old(self)),
                slot < self.inner_wall_list.walls@.len(),
                walls == self.walls_at(slot as int),
                n == walls.len(),
                i <= n,
                self.current_cells() == walls_marked(g0, walls.take(i as int)),
            decreases n - i,
        {
            let wall = self.inner_wall_list.walls[slot][i];
            let ghost before = self.current_cells();
            self.draw_inner_wall(&wall);
            proof {
                let t = walls.take(i + 1);
                assert(t.drop_last() =~= walls.take(i as int));
                assert(t.last() == walls[i as int]);
                if wall_tiles(wall).len() == 0 {
                    assert(self.current_cells() == before);
                }
            }
            i += 1;
        }
        proof {
            assert(walls.take(n as int) =~= walls);
        }
    }

    /// Adds a random inner wall to the room of depth `z_index`, `room_width`
    /// by `room_height` tiles, and draws all of that room's inner walls into
    /// the current grid. The wall starts at a tile at least 2 from the left and
    /// top edges and 4 from the right and bottom ones, is horizontal or
    /// vertical, and is from 3 tiles long up to one less than half the room's
    /// extent in its direction. Slots past the last inner-wall list are left
    /// alone.
    pub fn create_inner_walls(&mut self, room_width: usize, room_height: usize, z_index: i32)
        requires
            old(self).wf(),
            8 <= room_width <= i32::MAX,
            8 <= room_height <= i32::MAX,
            depth_slot(z_index) < old(self).inner_wall_list.walls@.len() ==> old(self).grid_ready(),
        ensures
            final(self).wf(),
            final(self).room_map@ == old(self).room_map@,
            final(self).room_sizes@ == old(self).room_sizes@,
            final(self).current_room == old(self).current_room,
            final(self).room_array.rooms@ == old(self).room_array.rooms@,
            final(self).current_z_index == old(self).current_z_index,
            final(self).global_z_index == old(self).global_z_index,
            final(self).state_vector@ == old(self).state_vector@,
            final(self).inner_wall_list.walls@.len() == old(self).inner_wall_list.walls@.len(),
            depth_slot(z_index) >= old(self).inner_wall_list.walls@.len() ==> final(self).grids@
                == old(self).grids@ && final(self).inner_wall_list.walls@ == old(self).inner_wall_list.walls@,
            depth_slot(z_index) < old(self).inner_wall_list.walls@.len() ==> {
                &&& final(self).same_except_current_grid_and_walls(&*old(self))
                &&& forall|i: int|
                    0 <= i < old(self).inner_wall_list.walls@.len() && i != depth_slot(z_index)
                        ==> #[trigger] final(self).walls_at(i) == old(self).walls_at(i)
                &&& exists|wall: InnerWall|
                    generated_wall(room_width as int, room_height as int, wall) && #[trigger] final(self).walls_at(depth_slot(z_index)) == old(self).walls_at(depth_slot(z_index)).push(
                        wall,
                    )
                &&& final(self).current_cells() == walls_marked(
                    old(self).current_cells(),
                    final(self).walls_at(depth_slot(z_index)),
                )
            },
    {
        let z_abs = RoomArray::z_to_index(z_index);
        let start_pos_x = random_in_range(2, room_width - 5);
        let start_pos_y = random_in_range(2, room_height - 5);
        let horizon_or_vert = random_in_range(0, 1);
        let horizontal = horizon_or_vert == 0;
        let length = if horizontal {
            random_in_range(3, room_width / 2 - 1)
        } else {
            random_in_range(3, room_height / 2 - 1)
        };
        let wall = inner_wall_for(room_width, room_height, start_pos_x, start_pos_y, horizontal, length);
        let ghost mid = *self;
        self.add_inner_wall(z_abs, wall);
        if z_abs < self.inner_wall_list.walls.len() {
            proof {
                assert(self.walls_at(z_abs as int) == old(self).walls_at(z_abs as int).push(wall));
            }
            self.draw_inner_walls(z_abs);
            proof {
                let w = wall_for(
                    room_width as int,
                    room_height as int,
                    start_pos_x as int,
                    start_pos_y as int,
                    horizontal,
                    length as int,
                );
                assert(w == wall);
                assert(generated_wall(room_width as int, room_height as int, wall));
            }
        }
    }


    /// `self` is `old` after a room of `width` by `height` tiles was generated
    /// at depth `z` for Markov state `state`: the size lies in the state's
    /// ranges, the depth is two below the last one generated and is now both
    /// the players' depth and the last generated, the room's empty grid is
    /// the current one and its size is remembered for its depth, and from
    /// one to three generated inner walls were added to its slot, all of the
    /// room's walls being drawn after each.
    pub open spec fn room_generated(&self, old: &RoomManager, state: u8, width: usize, height: usize, z: i32) -> bool {
        let slot = depth_slot(z);
        &&& preset_states()[state as int].width_range.0 <= width <= preset_states()[state as int].width_range.1
        &&& preset_states()[state as int].height_range.0 <= height <= preset_states()[state as int].height_range.1
        &&& z == old.global_z_index - 2
        &&& self.global_z_index == z
        &&& self.current_z_index == z
        &&& self.room_map@ == old.room_map@
        &&& self.room_sizes@ == old.room_sizes@.push((width, height))
        &&& self.grids@.len() == old.grids@.len() + 1
        &&& forall|i: int| 0 <= i < old.grids@.len() ==> #[trigger] self.grids@[i] == old.grids@[i]
        &&& self.current_room == old.grids@.len()
        &&& self.room_array.rooms@ == stored_room(old.room_array.rooms@, z, width, height)
        &&& self.state_vector@ == old.state_vector@
        &&& self.inner_wall_list.walls@.len() == old.inner_wall_list.walls@.len()
        &&& forall|i: int|
            0 <= i < old.inner_wall_list.walls@.len() && i != slot ==> #[trigger] self.walls_at(i)
                == old.walls_at(i)
        &&& slot >= old.inner_wall_list.walls@.len() ==> self.current_cells() == zero_grid(
            width as int,
            height as int,
        )
        &&& slot < old.inner_wall_list.walls@.len() ==> exists|added: Seq<InnerWall>|
            {
                &&& 1 <= added.len() <= 3
                &&& forall|i: int| 0 <= i < added.len() ==> generated_wall(width as int, height as int, #[trigger] added[i])
                &&& #[trigger] self.walls_at(slot) == old.walls_at(slot) + added
                &&& self.current_cells() == redrawn(
                    zero_grid(width as int, height as int),
                    old.walls_at(slot),
                    added,
                )
            }
    }

    /// Generates the next room: the states drawn for it become the last
    /// room's states, and the state of its room-size attribute picks the
    /// ranges its width and height are drawn from. Adds its empty
    /// grid as the current room, claims the next depth for it, remembers its
    /// size for that depth, and adds from one to three random inner walls to
    /// it, drawing the room's walls after each. Returns the width, the height
    /// and the depth.
    pub fn generate_random_room_with_bounds(
        &mut self,
        room_config: &RoomConfig,
        last_attribute_array: &mut LastAttributeArray,
        next_attribute_array: &NextAttributeArray,
    ) -> (r: (usize, usize, i32))
        requires
            old(self).wf(),
            next_attribute_array.wf(),
            old(self).global_z_index >= i32::MIN + 2,
        ensures
            final(self).wf(),
            final(self).grid_ready(),
            final(last_attribute_array).attributes@ == next_attribute_array.attributes@,
            final(self).room_generated(&*old(self), next_attribute_array.attributes@[0], r.0, r.1, r.2),
    {
        adopt_next_attributes(last_attribute_array, next_attribute_array);
        let next_state = next_attribute_array.attributes[0];
        assert(is_state(next_attribute_array.attributes@[0]));
        let width_range = room_config.get_width_range(next_state);
        let height_range = room_config.get_height_range(next_state);
        let random_width = random_in_range(width_range.0, width_range.1);
        let random_height = random_in_range(height_range.0, height_range.1);
        self.add_room(random_width, random_height);
        let z_index = self.next_room_z_index();
        self.room_array.add_room_to_storage(z_index, random_width, random_height);
        let current_z_index = self.current_z_index;
        let global_z_index = self.get_global_z_index();
        let ghost slot = depth_slot(global_z_index);
        let ghost base = old(self).walls_at(slot);
        proof {
            assert(self.current_cells() =~~= zero_grid(random_width as int, random_height as int));
        }
        let wall_count = random_in_range(1, 3);
        let ghost mut added: Seq<InnerWall> = Seq::empty();
        let mut k: usize = 0;
        while k < wall_count
            invariant
                self.wf(),
                self.grid_ready(),
                k <= wall_count <= 3,
                40 <= random_width <= 79,
                40 <= random_height <= 79,
                global_z_index == self.global_z_index,
                global_z_index == old(self).global_z_index - 2,
                slot == depth_slot(global_z_index),
                self.global_z_index == self.current_z_index,
                self.room_map@ == old(self).room_map@,
                self.room_sizes@ == old(self).room_sizes@.push((random_width, random_height)),
                self.grids@.len() == old(self).grids@.len() + 1,
                forall|i: int| 0 <= i < old(self).grids@.len() ==> #[trigger] self.grids@[i] == old(self).grids@[i],
                self.current_room == old(self).grids@.len(),
                self.room_array.rooms@ == pad_rooms(old(self).room_array.rooms@, (slot + 1) as nat).update(
                    slot,
                    Some(RoomDimensions { width: random_width, height: random_height }),
                ),
                self.state_vector@ == old(self).state_vector@,
                self.inner_wall_list.walls@.len() == old(self).inner_wall_list.walls@.len(),
                forall|i: int|
                    0 <= i < old(self).inner_wall_list.walls@.len() && i != slot ==> #[trigger] self.walls_at(i)
                        == old(self).walls_at(i),
                slot >= old(self).inner_wall_list.walls@.len() ==> self.current_cells() == zero_grid(
                    random_width as int,
                    random_height as int,
                ),
                slot < old(self).inner_wall_list.walls@.len() ==> {
                    &&& added.len() == k
                    &&& forall|i: int| 0 <= i < added.len() ==> generated_wall(random_width as int, random_height as int, #[trigger] added[i])
                    &&& self.walls_at(slot) == base + added
                    &&& self.current_cells() == redrawn(
                        zero_grid(random_width as int, random_height as int),
                        base,
                        added,
                    )
                },
            decreases wall_count - k,
        {
            let ghost before = *self;
            self.create_inner_walls(random_width, random_height, global_z_index);
            proof {
                assert forall|i: int|
                    0 <= i < old(self).inner_wall_list.walls@.len() && i != slot implies #[trigger] self.walls_at(i)
                        == old(self).walls_at(i) by {
                    assert(before.walls_at(i) == old(self).walls_at(i));
                    assert(self.walls_at(i) == before.walls_at(i));
                }
                if slot < old(self).inner_wall_list.walls@.len() {
                    let wall = choose|wall: InnerWall|
                        generated_wall(random_width as int, random_height as int, wall) && #[trigger] self.walls_at(slot)
                            == before.walls_at(slot).push(wall);
                    let new_added = added.push(wall);
                    assert(new_added.drop_last() =~= added);
                    assert(base + new_added =~= (base + added).push(wall));
                    added = new_added;
                } else {
                    assert(self.grids@ == before.grids@);
                }
            }
            k += 1;
        }
        (random_width, random_height, current_z_index)
    }


    /// Spawns the start room at the players' depth: the states drawn for it
    /// become the last room's states; its size is drawn from 40 to 40 tiles
    /// each way; its empty grid is added as the current room and its size
    /// remembered for its depth; it is put at a random place on the map; its
    /// border is marked in its grid; it gets a random number of inner walls,
    /// drawn from the inner-wall-count range of the state of its inner-wall
    /// attribute, the room's walls being drawn after each; and it gets its
    /// doors. Returns its width, height, depth and doors.
    pub fn spawn_start_room(
        &mut self,
        last_attribute_array: &mut LastAttributeArray,
        next_attribute_array: &NextAttributeArray,
        room_config: &RoomConfig,
    ) -> (r: (usize, usize, i32, DoorPlan))
        requires
            old(self).wf(),
            next_attribute_array.wf(),
        ensures
            final(self).wf(),
            final(self).grid_ready(),
            final(last_attribute_array).attributes@ == next_attribute_array.attributes@,
            r.0 == 40,
            r.1 == 40,
            r.2 == old(self).current_z_index,
            final(self).current_z_index == old(self).current_z_index,
            final(self).global_z_index == old(self).global_z_index,
            final(self).state_vector@ == old(self).state_vector@,
            final(self).room_sizes@ == old(self).room_sizes@.push((40usize, 40usize)),
            final(self).grids@.len() == old(self).grids@.len() + 1,
            forall|i: int| 0 <= i < old(self).grids@.len() ==> #[trigger] final(self).grids@[i] == old(self).grids@[i],
            final(self).current_room == old(self).grids@.len(),
            final(self).room_array.rooms@ == stored_room(old(self).room_array.rooms@, r.2, 40, 40),
            exists|sx: int, sy: int|
                0 <= sx < MAP_SIZE - 40 && 0 <= sy < MAP_SIZE - 40 && final(self).map()
                    == #[trigger] filled(old(self).map(), sx, sy, 40, 40, r.2),
            r.3 == door_plan(final(self).map(), r.2),
            final(self).inner_wall_list.walls@.len() == old(self).inner_wall_list.walls@.len(),
            forall|i: int|
                0 <= i < old(self).inner_wall_list.walls@.len() && i != depth_slot(r.2) ==> #[trigger] final(self).walls_at(i)
                    == old(self).walls_at(i),
            depth_slot(r.2) >= old(self).inner_wall_list.walls@.len() ==> final(self).current_cells()
                == doors_marked(
                painted(zero_grid(40, 40), |x: int, y: int| start_border(40, 40, x, y), 1u32),
                r.3,
                40,
                40,
            ),
            depth_slot(r.2) < old(self).inner_wall_list.walls@.len() ==> exists|added: Seq<InnerWall>|
                {
                    &&& preset_states()[next_attribute_array.attributes@[1] as int].inner_wall_count.0 <= added.len()
                        <= preset_states()[next_attribute_array.attributes@[1] as int].inner_wall_count.1
                    &&& forall|i: int| 0 <= i < added.len() ==> generated_wall(40, 40, #[trigger] added[i])
                    &&& #[trigger] final(self).walls_at(depth_slot(r.2)) == old(self).walls_at(depth_slot(r.2)) + added
                    &&& final(self).current_cells() == doors_marked(
                        redrawn(
                            painted(zero_grid(40, 40), |x: int, y: int| start_border(40, 40, x, y), 1u32),
                            old(self).walls_at(depth_slot(r.2)),
                            added,
                        ),
                        r.3,
                        40,
                        40,
                    )
                },
    {
        adopt_next_attributes(last_attribute_array, next_attribute_array);
        let random_width = random_in_range(40, 40);
        let random_height = random_in_range(40, 40);
        self.add_room(random_width, random_height);
        let z_index = self.current_room_z_index();
        self.room_array.add_room_to_storage(z_index, random_width, random_height);
        assert(self.map() == old(self).map());
        self.add_start_room_to_map(z_index, random_width, random_height);
        let ghost placed_map = self.map();
        proof {
            let (sx, sy) = choose|sx: int, sy: int|
                0 <= sx < MAP_SIZE - 40 && 0 <= sy < MAP_SIZE - 40 && placed_map == filled(
                    old(self).map(),
                    sx,
                    sy,
                    40,
                    40,
                    z_index,
                );
            assert(placed_map == filled(old(self).map(), sx, sy, 40, 40, z_index));
        }
        proof {
            assert(self.current_cells() =~~= zero_grid(40, 40));
        }
        self.mark_start_border(random_width, random_height);
        let ghost border = painted(zero_grid(40, 40), |x: int, y: int| start_border(40, 40, x, y), 1u32);
        let ghost slot = depth_slot(z_index);
        let ghost base = old(self).walls_at(slot);
        let wall_count_attribute_value = match last_attribute_array.get_attribute(1) {
            Some(v) => v,
            None => 1,
        };
        let num_walls_spawn_range = room_config.get_inner_wall_count(wall_count_attribute_value);
        let inner_wall_count = random_in_range(num_walls_spawn_range.0, num_walls_spawn_range.1);
        proof {
            reveal_with_fuel(preset_states, 1);
        }
        let ghost mut added: Seq<InnerWall> = Seq::empty();
        let mut k: usize = 0;
        while k < inner_wall_count
            invariant
                self.wf(),
                self.grid_ready(),
                k <= inner_wall_count <= 5,
                random_width == 40,
                random_height == 40,
                z_index == old(self).current_z_index,
                slot == depth_slot(z_index),
                self.map() == placed_map,
                self.current_z_index == old(self).current_z_index,
                self.global_z_index == old(self).global_z_index,
                self.room_sizes@ == old(self).room_sizes@.push((40usize, 40usize)),
                self.grids@.len() == old(self).grids@.len() + 1,
                forall|i: int| 0 <= i < old(self).grids@.len() ==> #[trigger] self.grids@[i] == old(self).grids@[i],
                self.current_room == old(self).grids@.len(),
                self.room_array.rooms@ == pad_rooms(old(self).room_array.rooms@, (slot + 1) as nat).update(
                    slot,
                    Some(RoomDimensions { width: 40, height: 40 }),
                ),
                self.state_vector@ == old(self).state_vector@,
                self.inner_wall_list.walls@.len() == old(self).inner_wall_list.walls@.len(),
                forall|i: int|
                    0 <= i < old(self).inner_wall_list.walls@.len() && i != slot ==> #[trigger] self.walls_at(i)
                        == old(self).walls_at(i),
                slot >= old(self).inner_wall_list.walls@.len() ==> self.current_cells() == border,
                slot < old(self).inner_wall_list.walls@.len() ==> {
                    &&& added.len() == k
                    &&& forall|i: int| 0 <= i < added.len() ==> generated_wall(40, 40, #[trigger] added[i])
                    &&& self.walls_at(slot) == base + added
                    &&& self.current_cells() == redrawn(border, base, added)
                },
            decreases inner_wall_count - k,
        {
            let ghost before = *self;
            self.create_inner_walls(random_width, random_height, z_index);
            proof {
                assert forall|i: int|
                    0 <= i < old(self).inner_wall_list.walls@.len() && i != slot implies #[trigger] self.walls_at(i)
                        == old(self).walls_at(i) by {
                    assert(before.walls_at(i) == old(self).walls_at(i));
                    assert(self.walls_at(i) == before.walls_at(i));
                }
                if slot < old(self).inner_wall_list.walls@.len() {
                    let wall = choose|wall: InnerWall|
                        generated_wall(40, 40, wall) && #[trigger] self.walls_at(slot)
                            == before.walls_at(slot).push(wall);
                    let new_added = added.push(wall);
                    assert(new_added.drop_last() =~= added);
                    assert(base + new_added =~= (base + added).push(wall));
                    added = new_added;
                } else {
                    assert(self.grids@ == before.grids@);
                }
            }
            k += 1;
        }
        let ghost walled = *self;
        let doors = self.generate_doors(random_width, random_height, z_index);
        proof {
            if !any_door(doors) {
                assert(self.grids@ == walled.grids@);
                assert(doors_marked(walled.current_cells(), doors, 40, 40) == walled.current_cells());
            }
            assert(forall|i: int|
                0 <= i < old(self).inner_wall_list.walls@.len() && i != slot ==> #[trigger] self.walls_at(i)
                    == walled.walls_at(i));
            if slot < old(self).inner_wall_list.walls@.len() {
                assert(self.walls_at(slot) == walled.walls_at(slot));
            }
        }
        (random_width, random_height, z_index, doors)
    }

    /// `self` is `old` after the room of depth `z`, `width` by `height` tiles,
    /// was re-entered: it is the players' depth, its doors mark their tiles in
    /// the current grid, and its inner walls are drawn over them.
    pub open spec fn regenerated(&self, old: &RoomManager, width: usize, height: usize, z: i32) -> bool {
        let slot = depth_slot(z);
        let walls = if slot < old.inner_wall_list.walls@.len() {
            old.walls_at(slot)
        } else {
            Seq::empty()
        };
        let plan = door_plan(old.map(), z);
        &&& self.current_z_index == z
        &&& self.room_map@ == old.room_map@
        &&& self.grids@.len() == old.grids@.len()
        &&& forall|i: int|
            0 <= i < old.grids@.len() && i != old.current_room ==> #[trigger] self.grids@[i]
                == old.grids@[i]
        &&& self.room_sizes@ == old.room_sizes@
        &&& self.current_room == old.current_room
        &&& self.room_array.rooms@ == old.room_array.rooms@
        &&& self.state_vector@ == old.state_vector@
        &&& self.global_z_index == old.global_z_index
        &&& self.inner_wall_list.walls@ == old.inner_wall_list.walls@
        &&& (any_door(plan) || walls.len() > 0) ==> self.current_cells() == walls_marked(
            doors_marked(old.current_cells(), plan, width as int, height as int),
            walls,
        )
        &&& !(any_door(plan) || walls.len() > 0) ==> self.grids@ == old.grids@
    }

    /// Re-entering the room of depth `z` stays in bounds: the current grid
    /// exists when doors or inner walls are to be drawn.
    pub open spec fn regenerate_ok(&self, z: i32) -> bool {
        let slot = depth_slot(z);
        &&& (any_door(door_plan(self.map(), z)) || (slot < self.inner_wall_list.walls@.len()
            && self.walls_at(slot).len() > 0)) ==> self.grid_ready()
    }

    /// Re-enters the remembered room of depth `z_for_regen`, `width` by
    /// `height` tiles: makes it the players' depth, marks its doors in the
    /// current grid and draws its inner walls. Returns its doors.
    pub fn regenerate_existing_room(&mut self, width: usize, height: usize, z_for_regen: i32) -> (p: DoorPlan)
        requires
            old(self).wf(),
            old(self).regenerate_ok(z_for_regen),
        ensures
            final(self).wf(),
            p == door_plan(old(self).map(), z_for_regen),
            final(self).regenerated(&*old(self), width, height, z_for_regen),
    {
        let z_abs = RoomArray::z_to_index(z_for_regen);
        self.set_current_z_index(z_for_regen);
        let ghost after_z = *self;
        let plan = self.generate_doors(width, height, z_for_regen);
        let ghost after_doors = *self;
        if z_abs < self.inner_wall_list.walls.len() && self.inner_wall_list.walls[z_abs].len() > 0 {
            self.draw_inner_walls(z_abs);
            proof {
                if !any_door(plan) {
                    assert(after_doors.grids@ == after_z.grids@);
                }
            }
        } else {
            proof {
                let walls: Seq<InnerWall> = Seq::empty();
                if any_door(plan) {
                    assert(walls_marked(self.current_cells(), walls) == self.current_cells());
                }
            }
        }
        plan
    }

    /// Whether the current room's grid exists and has a column.
    pub fn grid_is_ready(&self) -> (b: bool)
        requires
            self.wf(),
        ensures
            b == self.grid_ready(),
    {
        self.grids.len() > 0 && self.room_sizes[self.current_room].0 > 0
    }

    /// Whether a room of `width` by `height` cells can be put beside `door`
    /// of the room of depth `z`.
    pub fn fits_beside(&self, z: i32, door: DoorType, width: usize, height: usize) -> (b: bool)
        ensures
            b == placement_ok(self.map(), z, door, width as int, height as int),
    {
        match self.find_room_bounds(z) {
            None => true,
            Some((l, r, t, b)) => {
                let l = l as i128;
                let r = r as i128;
                let t = t as i128;
                let b = b as i128;
                let w = width as i128;
                let h = height as i128;
                assert(0 <= l <= 0xffff_ffff_ffff_ffff && 0 <= r <= 0xffff_ffff_ffff_ffff);
                assert(0 <= t <= 0xffff_ffff_ffff_ffff && 0 <= b <= 0xffff_ffff_ffff_ffff);
                assert(0 <= w <= 0xffff_ffff_ffff_ffff && 0 <= h <= 0xffff_ffff_ffff_ffff);
                let (sx, sy) = match door {
                    DoorType::Top => ((l + r) / 2 - w / 2, t - h),
                    DoorType::Bottom => ((l + r) / 2 - w / 2, b + 1),
                    DoorType::Left => (l - w, (t + b) / 2 - h / 2),
                    DoorType::Right => (r + 1, (t + b) / 2 - h / 2),
                };
                let max = usize::MAX as i128;
                let map_size = MAP_SIZE as i128;
                sx >= 0 && sy >= 0 && sx + w <= max && (w == 0 || sy + h <= max) && (w == 0 || h == 0
                    || (sx + w <= map_size && sy + h <= map_size))
            },
        }
    }

    /// Whether the room of depth `z` can be re-entered.
    pub fn regenerate_fits(&self, z: i32) -> (b: bool)
        requires
            self.wf(),
        ensures
            b == self.regenerate_ok(z),
    {
        let plan = self.plan_doors(z);
        let slot = RoomArray::z_to_index(z);
        let has_walls = slot < self.inner_wall_list.walls.len() && self.inner_wall_list.walls[slot].len() > 0;
        if plan.left || plan.right || plan.top || plan.bottom || has_walls {
            self.grid_is_ready()
        } else {
            true
        }
    }

    /// Whether a new room can be opened beside `door` with the states `next`.
    pub fn new_room_fits(&self, door: DoorType, next: &NextAttributeArray) -> (b: bool)
        requires
            self.wf(),
        ensures
            b == self.new_room_ok(door, next),
    {
        let mut i: usize = 0;
        while i < 5
            invariant
                i <= 5,
                forall|j: int| 0 <= j < i ==> is_state(#[trigger] next.attributes@[j]),
            decreases 5 - i,
        {
            if next.attributes[i] > 2 {
                return false;
            }
            i += 1;
        }
        if self.global_z_index < i32::MIN + 2 {
            return false;
        }
        let state = next.attributes[0];
        proof {
            reveal_with_fuel(preset_states, 1);
        }
        let (max_w, max_h): (usize, usize) = if state == 0 {
            (59, 59)
        } else if state == 1 {
            (69, 69)
        } else {
            (79, 79)
        };
        self.fits_beside(self.current_z_index, door, max_w, max_h)
    }

    /// Whether taking `door` out of the players' room with the states `next`
    /// drawn for a possible new room stays in bounds.
    pub fn transition_fits(&self, door: DoorType, next: &NextAttributeArray) -> (b: bool)
        requires
            self.wf(),
        ensures
            b == self.transition_ok(door, next),
    {
        if self.global_z_index > 20 {
            return true;
        }
        let z_in = self.current_z_index;
        let (left_x, right_x, top_y, bottom_y) = match self.find_room_bounds(z_in) {
            Some(bd) => bd,
            None => (0, 0, 0, 0),
        };
        proof {
            if let Some(bd) = room_bounds(self.map(), z_in) {
                let m = self.map();
                assert(bounds_of(m, z_in, bd.0, bd.1, bd.2, bd.3));
                let yr = choose|y: int| holds(m, z_in, bd.1, y);
                let xb = choose|x: int| holds(m, z_in, x, bd.3);
                assert(holds(m, z_in, bd.1, yr));
                assert(holds(m, z_in, xb, bd.3));
                assert(m[xb].len() == MAP_SIZE);
            }
        }
        let cell = match door {
            DoorType::Right => self.get_room_value(right_x + 1, (top_y + bottom_y) / 2),
            DoorType::Left => if left_x == 0 {
                None
            } else {
                self.get_room_value(left_x - 1, (top_y + bottom_y) / 2)
            },
            DoorType::Top => if top_y == 0 {
                None
            } else {
                self.get_room_value((left_x + right_x) / 2, top_y - 1)
            },
            DoorType::Bottom => self.get_room_value((left_x + right_x) / 2, bottom_y + 1),
        };
        match cell {
            None => true,
            Some(v) => {
                if v == EMPTY_CELL {
                    self.new_room_fits(door, next)
                } else {
                    match self.room_array.get_room_from_storage(v) {
                        Some(_) => self.regenerate_fits(v),
                        None => true,
                    }
                }
            },
        }
    }

    /// `self` is `mid` after the room of depth `z`, `width` by `height`
    /// tiles, was put beside `door` of the room of depth `from_z`, and that
    /// room's doors, `doors`, were worked out on the new map and marked in the
    /// current grid with the new room's size.
    pub open spec fn entered(
        &self,
        mid: &RoomManager,
        from_z: i32,
        door: DoorType,
        width: usize,
        height: usize,
        z: i32,
        doors: DoorPlan,
    ) -> bool {
        &&& self.map() == placed(mid.map(), from_z, door, z, width as int, height as int)
        &&& doors == door_plan(self.map(), from_z)
        &&& self.grids@.len() == mid.grids@.len()
        &&& forall|i: int|
            0 <= i < mid.grids@.len() && i != mid.current_room ==> #[trigger] self.grids@[i]
                == mid.grids@[i]
        &&& self.room_sizes@ == mid.room_sizes@
        &&& self.current_room == mid.current_room
        &&& self.room_array.rooms@ == mid.room_array.rooms@
        &&& self.state_vector@ == mid.state_vector@
        &&& self.current_z_index == mid.current_z_index
        &&& self.global_z_index == mid.global_z_index
        &&& self.inner_wall_list.walls@ == mid.inner_wall_list.walls@
        &&& any_door(doors) ==> self.current_cells() == doors_marked(
            mid.current_cells(),
            doors,
            width as int,
            height as int,
        )
        &&& !any_door(doors) ==> self.grids@ == mid.grids@
    }

    /// `t` reports a new room, and `self` is `old` after that room, of the
    /// size and depth `t` gives and drawn for Markov state `state`, was
    /// generated and then put beside `door` of the players' room, whose doors
    /// `t` gives.
    pub open spec fn opened_room(&self, old: &RoomManager, door: DoorType, state: u8, t: Transition) -> bool {
        match t {
            Transition::NewRoom { z_index, width, height, doors } => exists|mid: RoomManager|
                #[trigger] mid.room_generated(old, state, width, height, z_index) && self.entered(
                    &mid,
                    old.current_z_index,
                    door,
                    width,
                    height,
                    z_index,
                    doors,
                ),
            _ => false,
        }
    }

    /// Opening a new room beside `door` stays in bounds: the states drawn
    /// for it are states, a further depth exists, and a room of the largest
    /// size the drawn state allows fits beside that door of the players'
    /// room.
    pub open spec fn new_room_ok(&self, door: DoorType, next: &NextAttributeArray) -> bool {
        let state = next.attributes@[0];
        &&& next.wf()
        &&& self.global_z_index >= i32::MIN + 2
        &&& placement_ok(
            self.map(),
            self.current_z_index,
            door,
            preset_states()[state as int].width_range.1 as int,
            preset_states()[state as int].height_range.1 as int,
        )
    }

    /// Generates the next room and puts it beside `door` of the room the
    /// players walk out of, then gives that room its doors, worked out on the
    /// new map and marked in the new room's grid.
    fn open_new_room(
        &mut self,
        door: DoorType,
        room_config: &RoomConfig,
        last_attribute_array: &mut LastAttributeArray,
        next_attribute_array: &NextAttributeArray,
    ) -> (r: (usize, usize, i32, DoorPlan))
        requires
            old(self).wf(),
            old(self).new_room_ok(door, next_attribute_array),
        ensures
            final(self).wf(),
            final(last_attribute_array).attributes@ == next_attribute_array.attributes@,
            exists|mid: RoomManager|
                #[trigger] mid.room_generated(
                    &*old(self),
                    next_attribute_array.attributes@[0],
                    r.0,
                    r.1,
                    r.2,
                ) && final(self).entered(&mid, old(self).current_z_index, door, r.0, r.1, r.2, r.3),
    {
        let ghost from_z = self.current_z_index;
        let current_z = self.get_current_z_index();
        let ghost state = next_attribute_array.attributes@[0];
        let (width, height, z) = self.generate_random_room_with_bounds(
            room_config,
            last_attribute_array,
            next_attribute_array,
        );
        let ghost mid = *self;
        let new_z_index = self.get_global_z_index();
        proof {
            lemma_placement_shrinks(
                mid.map(),
                from_z,
                door,
                preset_states()[state as int].width_range.1 as int,
                preset_states()[state as int].height_range.1 as int,
                width as int,
                height as int,
            );
        }
        match door {
            DoorType::Top => self.add_room_to_map_from_top_door(current_z, new_z_index, width, height),
            DoorType::Bottom => self.add_room_to_map_from_bottom_door(current_z, new_z_index, width, height),
            DoorType::Left => self.add_room_to_map_from_left_door(current_z, new_z_index, width, height),
            DoorType::Right => self.add_room_to_map_from_right_door(current_z, new_z_index, width, height),
        }
        let ghost placed_state = *self;
        let doors = self.generate_doors(width, height, current_z);
        proof {
            assert(mid.room_generated(&*old(self), state, width, height, z));
            if !any_door(doors) {
                assert(self.grids@ == placed_state.grids@);
            }
            assert(self.entered(&mid, from_z, door, width, height, z, doors));
        }
        let r = (width, height, z, doors);
        proof {
            assert(mid.room_generated(&*old(self), state, r.0, r.1, r.2));
            assert(self.entered(&mid, from_z, door, r.0, r.1, r.2, r.3));
        }
        r
    }

    /// Taking `door` out of the players' room stays in bounds: unless the
    /// players are too deep, a new room can be opened when the cell beyond
    /// the door is empty, and a remembered room found there can be re-entered.
    pub open spec fn transition_ok(&self, door: DoorType, next: &NextAttributeArray) -> bool {
        let c = exit_cell(self.map(), self.current_z_index, door);
        self.global_z_index <= 20 ==> (cell_value(self.map(), c.0, c.1) matches Some(v) ==> {
            &&& v == EMPTY_CELL ==> self.new_room_ok(door, next)
            &&& v != EMPTY_CELL ==> (self.room_array.stored(v) is Some ==> self.regenerate_ok(v))
        })
    }

    /// `self` is `old` after the players took `door` out of their room with
    /// the states `next` drawn for a possible new room, the last room's states
    /// going from `last_before` to `last_after`, and `t` reports what
    /// happened: nothing when the players are too deep; else, by the cell
    /// beyond the door, a new room opened beside that door of the players'
    /// room (on empty map), a remembered room re-entered, or nothing
    /// (off the map, or a room with no remembered size). The last room's
    /// states change only when a new room is opened, and then become `next`.
    pub open spec fn took_door(
        &self,
        old: &RoomManager,
        door: DoorType,
        next: &NextAttributeArray,
        last_before: Seq<u8>,
        last_after: Seq<u8>,
        t: Transition,
    ) -> bool {
        &&& !(t is NewRoom) ==> last_after == last_before
        &&& old.global_z_index > 20 ==> t is Stay && *self == *old
        &&& old.global_z_index <= 20 ==> {
            let c = exit_cell(old.map(), old.current_z_index, door);
            match cell_value(old.map(), c.0, c.1) {
                Some(v) => if v == EMPTY_CELL {
                    &&& last_after == next.attributes@
                    &&& self.opened_room(old, door, next.attributes@[0], t)
                } else {
                    match old.room_array.stored(v) {
                        Some(d) => t == Transition::Revisit {
                            z_index: v,
                            width: d.width,
                            height: d.height,
                            doors: door_plan(old.map(), v),
                        } && self.regenerated(old, d.width, d.height, v),
                        None => t is Unknown && *self == *old,
                    }
                },
                None => t is Unknown && *self == *old,
            }
        }
    }

    /// Takes `door` out of the players' room. Beyond the door, at the cell
    /// next to the middle of that side of the players' room, lies empty map,
    /// a remembered room, or neither. On empty map the next room is generated
    /// from the states drawn for it (which become the last room's states) and
    /// put beside that door of the players' room, which then gets its doors;
    /// a remembered room is re-entered. Nothing happens when the
    /// players are too deep or the cell is neither.
    pub fn transition_map(
        &mut self,
        door: DoorType,
        room_config: &RoomConfig,
        last_attribute_array: &mut LastAttributeArray,
        next_attribute_array: &NextAttributeArray,
    ) -> (t: Transition)
        requires
            old(self).wf(),
            old(self).transition_ok(door, next_attribute_array),
        ensures
            final(self).wf(),
            final(self).took_door(
                &*old(self),
                door,
                next_attribute_array,
                old(last_attribute_array).attributes@,
                final(last_attribute_array).attributes@,
                t,
            ),
    {
        if self.global_z_index > 20 {
            return Transition::Stay;
        }
        let z_in = self.get_current_z_index();
        let (left_x, right_x, top_y, bottom_y) = match self.find_room_bounds(z_in) {
            Some(bd) => bd,
            None => (0, 0, 0, 0),
        };
        proof {
            if let Some(bd) = room_bounds(self.map(), z_in) {
                let m = self.map();
                assert(bounds_of(m, z_in, bd.0, bd.1, bd.2, bd.3));
                let yr = choose|y: int| holds(m, z_in, bd.1, y);
                let xb = choose|x: int| holds(m, z_in, x, bd.3);
                assert(holds(m, z_in, bd.1, yr));
                assert(holds(m, z_in, xb, bd.3));
                assert(m[xb].len() == MAP_SIZE);
            }
        }
        let cell = match door {
            DoorType::Right => self.get_room_value(right_x + 1, (top_y + bottom_y) / 2),
            DoorType::Left => if left_x == 0 {
                None
            } else {
                self.get_room_value(left_x - 1, (top_y + bottom_y) / 2)
            },
            DoorType::Top => if top_y == 0 {
                None
            } else {
                self.get_room_value((left_x + right_x) / 2, top_y - 1)
            },
            DoorType::Bottom => self.get_room_value((left_x + right_x) / 2, bottom_y + 1),
        };
        match cell {
            Some(room_val) => {
                if room_val == EMPTY_CELL {
                    let ghost before = *self;
                    assert(before == *old(self));
                    let (width, height, z_index, doors) = self.open_new_room(
                        door,
                        room_config,
                        last_attribute_array,
                        next_attribute_array,
                    );
                    let t = Transition::NewRoom { z_index, width, height, doors };
                    proof {
                        assert(t->NewRoom_z_index == z_index && t->NewRoom_width == width
                            && t->NewRoom_height == height && t->NewRoom_doors == doors);
                        let mid = choose|mid: RoomManager|
                            #[trigger] mid.room_generated(
                                &before,
                                next_attribute_array.attributes@[0],
                                width,
                                height,
                                z_index,
                            ) && self.entered(&mid, before.current_z_index, door, width, height, z_index, doors);
                        assert(mid.room_generated(&before, next_attribute_array.attributes@[0], width, height, z_index));
                    }
                    assert(self.opened_room(&before, door, next_attribute_array.attributes@[0], t));
                    t
                } else {
                    match self.room_array.get_room_from_storage(room_val) {
                        Some(room_dimensions) => {
                            let width = room_dimensions.width;
                            let height = room_dimensions.height;
                            let doors = self.regenerate_existing_room(width, height, room_val);
                            Transition::Revisit { z_index: room_val, width, height, doors }
                        },
                        None => Transition::Unknown,
                    }
                }
            },
            None => Transition::Unknown,
        }
    }
}

/// The grid index of whole-pixel offset `n` from a grid edge, in a grid
/// `len` cells long: the cell of 32 pixels holding it, brought into `0 ..
/// len - 1`.
pub open spec fn grid_index(n: int, len: int) -> int {
    if n < 0 {
        0
    } else if n / 32 > len - 1 {
        len - 1
    } else {
        n / 32
    }
}

/// The grid index of whole-pixel offset `n`, as `grid_index` gives it.
fn clamp_to_grid(n: i128, len: usize) -> (i: usize)
    requires
        len > 0,
    ensures
        i == grid_index(n as int, len as int),
        i < len,
{
    if n < 0 {
        0
    } else if n / 32 > (len - 1) as i128 {
        len - 1
    } else {
        (n / 32) as usize
    }
}

/// The collision values under the corners of a box whose corners lie at the
/// whole-pixel positions `(x_min, y_min)` and `(x_max, y_max)`, the room's
/// centre being the origin: top left, top right, bottom left and bottom
/// right, in that order. Each corner is shifted by half the current room's
/// extent (16 pixels per cell) and falls into the cell of 32 pixels holding
/// it, brought onto the grid.
pub fn translate_coords_to_grid(
    room_manager: &RoomManager,
    x_min: i64,
    y_min: i64,
    x_max: i64,
    y_max: i64,
) -> (c: (u32, u32, u32, u32))
    requires
        room_manager.wf(),
        room_manager.grid_ready(),
        room_manager.room_sizes@[room_manager.current_room as int].1 > 0,
    ensures
        ({
            let g = room_manager.current_cells();
            let w = g.len() as int;
            let h = g[0].len() as int;
            let left = grid_index(x_min + 16 * w, w);
            let right = grid_index(x_max + 16 * w, w);
            let bottom = grid_index(y_min + 16 * h, h);
            let top = grid_index(y_max + 16 * h, h);
            c == (g[left][top], g[right][top], g[left][bottom], g[right][bottom])
        }),
{
    let cr = room_manager.current_room;
    proof {
        assert(grid_shape(room_manager.grids@[cr as int]@, room_manager.room_sizes@[cr as int]));
    }
    let grid = &room_manager.grids[cr];
    let w = grid.len();
    let h = grid[0].len();
    assert(0 <= w <= 0xffff_ffff_ffff_ffff && 0 <= h <= 0xffff_ffff_ffff_ffff);
    let half_w = 16 * (w as i128);
    let half_h = 16 * (h as i128);
    let arr_x_max = clamp_to_grid(x_max as i128 + half_w, w);
    let arr_x_min = clamp_to_grid(x_min as i128 + half_w, w);
    let arr_y_max = clamp_to_grid(y_max as i128 + half_h, h);
    let arr_y_min = clamp_to_grid(y_min as i128 + half_h, h);
    let topleft = grid[arr_x_min][arr_y_max];
    let topright = grid[arr_x_max][arr_y_max];
    let bottomleft = grid[arr_x_min][arr_y_min];
    let bottomright = grid[arr_x_max][arr_y_min];
    (topleft, topright, bottomleft, bottomright)
}

/// How many potions and how many coin pots a room gets: each drawn from the
/// item-count range of the state of the last room's item-count attribute.
pub fn spawn_item_counts(
    last_attribute_array: &LastAttributeArray,
    room_config: &RoomConfig,
) -> (c: (usize, usize))
    requires
        last_attribute_array.wf(),
    ensures
        ({
            let range = preset_states()[last_attribute_array.attributes@[4] as int].item_count;
            range.0 <= c.0 <= range.1 && range.0 <= c.1 <= range.1
        }),
{
    let item_count_attribute_value = match last_attribute_array.get_attribute(4) {
        Some(v) => v,
        None => 1,
    };
    let range = room_config.get_item_count(item_count_attribute_value);
    proof {
        reveal_with_fuel(preset_states, 1);
    }
    let potion_count = random_in_range(range.0, range.1);
    let coin_pot_count = random_in_range(range.0, range.1);
    (potion_count, coin_pot_count)
}

/// Reading a new room's bounds back after the players opened it beside
/// `door` gives the rectangle it was put in, beside that door of the room
/// the players walked out of: when every room on the map before was at least as deep
/// as the last generated one, the new depth is not the empty-cell value,
/// and the rectangle lies on the map.
pub proof fn lemma_new_room_read_back(
    after: RoomManager,
    before: RoomManager,
    door: DoorType,
    state: u8,
    t: Transition,
)
    requires
        before.wf(),
        is_state(state),
        after.opened_room(&before, door, state, t),
        fresh_map(before.map(), before.global_z_index),
        before.global_z_index - 2 != EMPTY_CELL,
    ensures
        t matches Transition::NewRoom { z_index, width, height, .. } ==> {
            room_bounds(before.map(), before.current_z_index) matches Some(bd) ==> {
                let o = door_origin(bd, door, width as int, height as int);
                fill_ok(o.0, o.1, width as int, height as int) ==> room_bounds(after.map(), z_index) == Some(
                    (o.0, o.0 + width - 1, o.1, o.1 + height - 1),
                )
            }
        },
{
    if let Transition::NewRoom { z_index, width, height, doors } = t {
        let mid = choose|mid: RoomManager|
            #[trigger] mid.room_generated(&before, state, width, height, z_index) && after.entered(
                &mid,
                before.current_z_index,
                door,
                width,
                height,
                z_index,
                doors,
            );
        assert(mid.map() == before.map());
        if let Some(bd) = room_bounds(before.map(), before.current_z_index) {
            let o = door_origin(bd, door, width as int, height as int);
            if fill_ok(o.0, o.1, width as int, height as int) {
                let m = before.map();
                reveal_with_fuel(preset_states, 1);
                assert(width >= 40 && height >= 40);
                assert forall|x: int, y: int| !#[trigger] holds(m, z_index, x, y) by {
                    if holds(m, z_index, x, y) {
                        assert(m[x].len() == MAP_SIZE);
                        assert(m[x][y] == EMPTY_CELL || m[x][y] >= before.global_z_index);
                    }
                }
                assert forall|x: int| o.0 <= x < o.0 + width implies o.1 + height <= #[trigger] m[x].len() by {
                    assert(m[x].len() == MAP_SIZE);
                }
                lemma_filled_bounds(m, o.0, o.1, width as int, height as int, z_index);
            }
        }
    }
}

/// Re-entering a remembered room changes neither the room map, nor the
/// rooms remembered, nor the depth last generated, nor any inner wall; the
/// players are then in that room.
pub proof fn lemma_revisit_keeps_layout(after: RoomManager, before: RoomManager, width: usize, height: usize, z: i32)
    requires
        after.regenerated(&before, width, height, z),
    ensures
        after.map() == before.map(),
        after.room_array.rooms@ == before.room_array.rooms@,
        after.global_z_index == before.global_z_index,
        after.inner_wall_list.walls@ == before.inner_wall_list.walls@,
        after.current_z_index == z,
{
}

/// Every room on the `MAP_SIZE` by `MAP_SIZE` map `m` is at depth `g` or
/// above (a depth at least `g`).
pub open spec fn fresh_map(m: Seq<Seq<i32>>, g: i32) -> bool {
    forall|x: int, y: int|
        0 <= x < MAP_SIZE && 0 <= y < MAP_SIZE ==> #[trigger] m[x][y] == EMPTY_CELL || m[x][y] >= g
}

/// Putting a room at depth `g` or above on a map whose rooms all are keeps
/// them all there.
pub proof fn lemma_fill_keeps_fresh(m: Seq<Seq<i32>>, sx: int, sy: int, w: int, h: int, z: i32, g: i32)
    requires
        m.len() == MAP_SIZE,
        forall|x: int| 0 <= x < MAP_SIZE ==> #[trigger] m[x].len() == MAP_SIZE,
        fresh_map(m, g),
        z >= g,
    ensures
        fresh_map(filled(m, sx, sy, w, h, z), g),
{
    assert forall|x: int, y: int| 0 <= x < MAP_SIZE && 0 <= y < MAP_SIZE implies #[trigger] filled(
        m,
        sx,
        sy,
        w,
        h,
        z,
    )[x][y] == EMPTY_CELL || filled(m, sx, sy, w, h, z)[x][y] >= g by {
        assert(m[x].len() == MAP_SIZE);
        assert(m[x][y] == EMPTY_CELL || m[x][y] >= g);
    }
}

/// Whatever taking a door does, every room on the map stays at least as
/// deep as the last generated one: a new room takes the next depth, which
/// becomes the last generated, and nothing else changes the map or that
/// depth.
pub proof fn lemma_transition_keeps_fresh(
    after: RoomManager,
    before: RoomManager,
    door: DoorType,
    next: NextAttributeArray,
    last_before: Seq<u8>,
    last_after: Seq<u8>,
    t: Transition,
)
    requires
        before.wf(),
        fresh_map(before.map(), before.global_z_index),
        after.took_door(&before, door, &next, last_before, last_after, t),
    ensures
        fresh_map(after.map(), after.global_z_index),
{
    if let Transition::NewRoom { z_index, width, height, doors } = t {
        if before.global_z_index <= 20 {
            let mid = choose|mid: RoomManager|
                #[trigger] mid.room_generated(&before, next.attributes@[0], width, height, z_index) && after.entered(
                    &mid,
                    before.current_z_index,
                    door,
                    width,
                    height,
                    z_index,
                    doors,
                );
            let m = before.map();
            assert(mid.map() == m);
            assert(fresh_map(m, z_index)) by {
                assert forall|x: int, y: int| 0 <= x < MAP_SIZE && 0 <= y < MAP_SIZE implies #[trigger] m[x][y]
                    == EMPTY_CELL || m[x][y] >= z_index by {
                    assert(m[x][y] == EMPTY_CELL || m[x][y] >= before.global_z_index);
                }
            }
            assert forall|x: int| 0 <= x < MAP_SIZE implies #[trigger] m[x].len() == MAP_SIZE by {
                assert(before.room_map@[x]@.len() == MAP_SIZE);
            }
            if let Some(bd) = room_bounds(m, before.current_z_index) {
                let o = door_origin(bd, door, width as int, height as int);
                lemma_fill_keeps_fresh(m, o.0, o.1, width as int, height as int, z_index, z_index);
            }
        }
    }
}

/// The map cell a door of a room leads to lies just outside that room, next
/// to the middle of the door's edge: in the row below the bottom row for the
/// bottom door, the row above the top row for the top door, the column left
/// of the left column for the left door and the column right of the right
/// column for the right door, within the span of that edge. No cell of the
/// room is that cell.
pub proof fn lemma_exit_cell_outside(m: Seq<Seq<i32>>, z: i32, door: DoorType, bd: (int, int, int, int))
    requires
        room_bounds(m, z) == Some(bd),
    ensures
        !holds(m, z, exit_cell(m, z, door).0, exit_cell(m, z, door).1),
        door == DoorType::Bottom ==> exit_cell(m, z, door).1 == bd.3 + 1 && bd.0 <= exit_cell(m, z, door).0
            <= bd.1,
        door == DoorType::Top ==> exit_cell(m, z, door).1 == bd.2 - 1 && bd.0 <= exit_cell(m, z, door).0
            <= bd.1,
        door == DoorType::Left ==> exit_cell(m, z, door).0 == bd.0 - 1 && bd.2 <= exit_cell(m, z, door).1
            <= bd.3,
        door == DoorType::Right ==> exit_cell(m, z, door).0 == bd.1 + 1 && bd.2 <= exit_cell(m, z, door).1
            <= bd.3,
{
    assert(bounds_of(m, z, bd.0, bd.1, bd.2, bd.3));
    let yl = choose|y: int| holds(m, z, bd.0, y);
    let xt = choose|x: int| holds(m, z, x, bd.2);
    assert(holds(m, z, bd.0, yl));
    assert(holds(m, z, xt, bd.2));
    let c = exit_cell(m, z, door);
    if holds(m, z, c.0, c.1) {
        assert(bd.0 <= c.0 <= bd.1 && bd.2 <= c.1 <= bd.3);
    }
}

/// Taking a door of the players' room when the map cell just past the
/// middle of that door's edge is empty, and the players are not too deep,
/// opens a new room that lies wholly beyond that edge, right against it,
/// and covers that cell, centred on it along the edge (its middle is that
/// cell, or half a cell before it when its extent along the edge is even):
/// for the bottom door its top row is the row below the old room's bottom
/// row; for the top door its bottom row is the row above the old room's top
/// row; for the left door its right column is the column left of the old
/// room's left column; for the right door its left column is the column
/// right of the old room's right column. This holds while every room on the
/// map is at least as deep as the last one generated (which every
/// transition keeps) and the next depth is not the empty-cell value.
pub proof fn lemma_new_room_beyond_door(
    after: RoomManager,
    before: RoomManager,
    door: DoorType,
    next: NextAttributeArray,
    last_before: Seq<u8>,
    last_after: Seq<u8>,
    t: Transition,
    bd: (int, int, int, int),
)
    requires
        before.wf(),
        fresh_map(before.map(), before.global_z_index),
        before.global_z_index - 2 != EMPTY_CELL,
        before.global_z_index <= 20,
        before.transition_ok(door, &next),
        room_bounds(before.map(), before.current_z_index) == Some(bd),
        (match door {
            DoorType::Bottom => cell_value(before.map(), (bd.0 + bd.1) / 2, bd.3 + 1),
            DoorType::Top => cell_value(before.map(), (bd.0 + bd.1) / 2, bd.2 - 1),
            DoorType::Left => cell_value(before.map(), bd.0 - 1, (bd.2 + bd.3) / 2),
            DoorType::Right => cell_value(before.map(), bd.1 + 1, (bd.2 + bd.3) / 2),
        }) == Some(EMPTY_CELL),
        after.took_door(&before, door, &next, last_before, last_after, t),
    ensures
        t is NewRoom,
        room_bounds(after.map(), t->NewRoom_z_index) matches Some(nb) && match door {
            DoorType::Bottom => nb.2 == bd.3 + 1 && nb.0 <= (bd.0 + bd.1) / 2 <= nb.1
                && 2 * ((bd.0 + bd.1) / 2) - 1 <= nb.0 + nb.1 <= 2 * ((bd.0 + bd.1) / 2),
            DoorType::Top => nb.3 == bd.2 - 1 && nb.0 <= (bd.0 + bd.1) / 2 <= nb.1
                && 2 * ((bd.0 + bd.1) / 2) - 1 <= nb.0 + nb.1 <= 2 * ((bd.0 + bd.1) / 2),
            DoorType::Left => nb.1 == bd.0 - 1 && nb.2 <= (bd.2 + bd.3) / 2 <= nb.3
                && 2 * ((bd.2 + bd.3) / 2) - 1 <= nb.2 + nb.3 <= 2 * ((bd.2 + bd.3) / 2),
            DoorType::Right => nb.0 == bd.1 + 1 && nb.2 <= (bd.2 + bd.3) / 2 <= nb.3
                && 2 * ((bd.2 + bd.3) / 2) - 1 <= nb.2 + nb.3 <= 2 * ((bd.2 + bd.3) / 2),
        },
{
    let m = before.map();
    let state = next.attributes@[0];
    assert(exit_cell(m, before.current_z_index, door) == match door {
        DoorType::Bottom => ((bd.0 + bd.1) / 2, bd.3 + 1),
        DoorType::Top => ((bd.0 + bd.1) / 2, bd.2 - 1),
        DoorType::Left => (bd.0 - 1, (bd.2 + bd.3) / 2),
        DoorType::Right => (bd.1 + 1, (bd.2 + bd.3) / 2),
    });
    assert(after.opened_room(&before, door, state, t));
    assert(before.new_room_ok(door, &next));
    assert(is_state(next.attributes@[0]));
    if let Transition::NewRoom { z_index, width, height, doors } = t {
        let mid = choose|mid: RoomManager|
            #[trigger] mid.room_generated(&before, state, width, height, z_index) && after.entered(
                &mid,
                before.current_z_index,
                door,
                width,
                height,
                z_index,
                doors,
            );
        reveal_with_fuel(preset_states, 1);
        assert(mid.room_generated(&before, state, width, height, z_index));
        assert(width >= 40 && height >= 40);
        lemma_placement_shrinks(
            m,
            before.current_z_index,
            door,
            preset_states()[state as int].width_range.1 as int,
            preset_states()[state as int].height_range.1 as int,
            width as int,
            height as int,
        );
        lemma_new_room_read_back(after, before, door, state, t);
        let o = door_origin(bd, door, width as int, height as int);
        assert(fill_ok(o.0, o.1, width as int, height as int));
        assert(room_bounds(after.map(), z_index) == Some((o.0, o.0 + width - 1, o.1, o.1 + height - 1)));
    }
}

/// Taking a door of the players' room when the map cell just past the
/// middle of that door's edge holds the depth of a remembered room re-enters
/// that room, with its remembered size and the doors it has on the map: the
/// map, the remembered rooms, the last generated depth and the last room's
/// states stay as they were, and the players are then in that room.
pub proof fn lemma_door_into_known_room(
    after: RoomManager,
    before: RoomManager,
    door: DoorType,
    next: NextAttributeArray,
    last_before: Seq<u8>,
    last_after: Seq<u8>,
    t: Transition,
    bd: (int, int, int, int),
    v: i32,
)
    requires
        before.global_z_index <= 20,
        room_bounds(before.map(), before.current_z_index) == Some(bd),
        (match door {
            DoorType::Bottom => cell_value(before.map(), (bd.0 + bd.1) / 2, bd.3 + 1),
            DoorType::Top => cell_value(before.map(), (bd.0 + bd.1) / 2, bd.2 - 1),
            DoorType::Left => cell_value(before.map(), bd.0 - 1, (bd.2 + bd.3) / 2),
            DoorType::Right => cell_value(before.map(), bd.1 + 1, (bd.2 + bd.3) / 2),
        }) == Some(v),
        v != EMPTY_CELL,
        before.room_array.stored(v) is Some,
        after.took_door(&before, door, &next, last_before, last_after, t),
    ensures
        t == (Transition::Revisit {
            z_index: v,
            width: before.room_array.stored(v)->Some_0.width,
            height: before.room_array.stored(v)->Some_0.height,
            doors: door_plan(before.map(), v),
        }),
        after.map() == before.map(),
        after.room_array.rooms@ == before.room_array.rooms@,
        after.global_z_index == before.global_z_index,
        after.current_z_index == v,
        last_after == last_before,
{
    let d = before.room_array.stored(v)->Some_0;
    assert(exit_cell(before.map(), before.current_z_index, door) == match door {
        DoorType::Bottom => ((bd.0 + bd.1) / 2, bd.3 + 1),
        DoorType::Top => ((bd.0 + bd.1) / 2, bd.2 - 1),
        DoorType::Left => (bd.0 - 1, (bd.2 + bd.3) / 2),
        DoorType::Right => (bd.1 + 1, (bd.2 + bd.3) / 2),
    });
    assert(after.regenerated(&before, d.width, d.height, v));
    lemma_revisit_keeps_layout(after, before, d.width, d.height, v);
}

/// A room gets the door on an edge whenever the map cell just past the
/// middle of that edge holds anything but the empty-cell value (another
/// room's depth, say) or lies off the map, whatever space lies beyond it:
/// the left door for the
/// cell left of the left column, the right door for the cell right of the
/// right column (both in the middle row), the top door for the cell above
/// the top row and the bottom door for the cell below the bottom row (both
/// in the middle column).
pub proof fn lemma_neighbour_gets_door(m: Seq<Seq<i32>>, z: i32, bd: (int, int, int, int))
    requires
        room_bounds(m, z) == Some(bd),
    ensures
        cell_value(m, bd.0 - 1, (bd.2 + bd.3) / 2) != Some(EMPTY_CELL) ==> door_plan(m, z).left,
        cell_value(m, bd.1 + 1, (bd.2 + bd.3) / 2) != Some(EMPTY_CELL) ==> door_plan(m, z).right,
        cell_value(m, (bd.0 + bd.1) / 2, bd.2 - 1) != Some(EMPTY_CELL) ==> door_plan(m, z).top,
        cell_value(m, (bd.0 + bd.1) / 2, bd.3 + 1) != Some(EMPTY_CELL) ==> door_plan(m, z).bottom,
{
    assert((bd.2 + bd.3) / 2 == bd.2 + (bd.3 - bd.2) / 2);
    assert((bd.0 + bd.1) / 2 == bd.0 + (bd.1 - bd.0) / 2);
}

/// Marking the doors of a `w` by `h` room's grid (at least 2 by 2 tiles, up
/// to 2^24 each way) sets the collision value of each planned door's tile
/// to 2 (the left door's tile in column 0 and the right door's in the last
/// column, both in row `(h + 1) / 2`; the top door's in the last row and the
/// bottom door's in row 0, both in column `(w + 1) / 2`), keeps the grid's
/// shape, and leaves every other tile as it was.
pub proof fn lemma_doors_marked_tiles(g: Seq<Seq<u32>>, plan: DoorPlan, w: int, h: int)
    requires
        2 <= w <= 0x100_0000,
        2 <= h <= 0x100_0000,
        g.len() == w,
        forall|x: int| 0 <= x < w ==> #[trigger] g[x].len() == h,
    ensures
        ({
            let g2 = doors_marked(g, plan, w, h);
            let row = (h + 1) / 2;
            let col = (w + 1) / 2;
            &&& g2.len() == w
            &&& forall|x: int| 0 <= x < w ==> #[trigger] g2[x].len() == h
            &&& plan.left ==> g2[0][row] == 2
            &&& plan.right ==> g2[w - 1][row] == 2
            &&& plan.top ==> g2[col][h - 1] == 2
            &&& plan.bottom ==> g2[col][0] == 2
            &&& forall|x: int, y: int|
                0 <= x < w && 0 <= y < h && !(plan.left && x == 0 && y == row) && !(plan.right && x == w
                    - 1 && y == row) && !(plan.top && x == col && y == h - 1) && !(plan.bottom && x == col
                    && y == 0) ==> #[trigger] g2[x][y] == g[x][y]
        }),
{
    lemma_door_cell_on_border(w, h, w, h);
    let row = (h + 1) / 2;
    let col = (w + 1) / 2;
    assert(row < h && col < w);
    let g1 = if plan.left { tile_set(g, 0, row, 2u32) } else { g };
    let g2 = if plan.right { tile_set(g1, w - 1, row, 2u32) } else { g1 };
    let g3 = if plan.top { tile_set(g2, col, h - 1, 2u32) } else { g2 };
    let g4 = if plan.bottom { tile_set(g3, col, 0, 2u32) } else { g3 };
    assert(g1.len() == w && forall|x: int| 0 <= x < w ==> #[trigger] g1[x].len() == h);
    assert(g2.len() == w && forall|x: int| 0 <= x < w ==> #[trigger] g2[x].len() == h);
    assert(g3.len() == w && forall|x: int| 0 <= x < w ==> #[trigger] g3[x].len() == h);
    assert(doors_marked(g, plan, w, h) == g4);
}

/// Marking a list of tiles on a grid of `w` columns of `h` cells (up to
/// 2^24 each way) keeps its shape, gives every listed tile on the grid the value marked, and leaves
/// every cell that no listed tile names (a negative coordinate naming 0) as
/// it was.
pub proof fn lemma_tiles_marked_reads(g: Seq<Seq<u32>>, tiles: Seq<(int, int)>, val: u32, w: int, h: int)
    requires
        1 <= w <= 0x100_0000,
        0 <= h <= 0x100_0000,
        g.len() == w,
        forall|x: int| 0 <= x < w ==> #[trigger] g[x].len() == h,
    ensures
        ({
            let g2 = tiles_marked(g, tiles, val);
            &&& g2.len() == w
            &&& forall|x: int| 0 <= x < w ==> #[trigger] g2[x].len() == h
            &&& forall|i: int|
                0 <= i < tiles.len() && 0 <= tiles[i].0 < w && 0 <= tiles[i].1 < h ==> g2[tiles[i].0][tiles[i].1]
                    == val
            &&& forall|x: int, y: int|
                0 <= x < w && 0 <= y < h && (forall|i: int|
                    0 <= i < tiles.len() ==> !(sat(#[trigger] tiles[i].0) == x && sat(tiles[i].1) == y))
                    ==> #[trigger] g2[x][y] == g[x][y]
        }),
    decreases tiles.len(),
{
    if tiles.len() > 0 {
        let rest = tiles.drop_last();
        lemma_tiles_marked_reads(g, rest, val, w, h);
        let g1 = tiles_marked(g, rest, val);
        let g2 = tiles_marked(g, tiles, val);
        let last = tiles.last();
        assert(g2 == tile_set(g1, sat(last.0), sat(last.1), val));
        assert forall|i: int|
            0 <= i < tiles.len() && 0 <= tiles[i].0 < w && 0 <= tiles[i].1 < h implies g2[tiles[i].0][tiles[i].1]
            == val by {
            assert(g1[0].len() == h);
            if i < tiles.len() - 1 {
                assert(rest[i] == tiles[i]);
                assert(g1[tiles[i].0][tiles[i].1] == val);
            } else {
                assert(tiles[i] == last);
                assert(sat(last.0) == last.0 && sat(last.1) == last.1);
            }
        }
        assert forall|x: int, y: int|
            0 <= x < w && 0 <= y < h && (forall|i: int|
                0 <= i < tiles.len() ==> !(sat(#[trigger] tiles[i].0) == x && sat(tiles[i].1) == y)) implies #[trigger] g2[x][y]
            == g[x][y] by {
            assert forall|i: int| 0 <= i < rest.len() implies !(sat(#[trigger] rest[i].0) == x && sat(rest[i].1) == y) by {
                assert(rest[i] == tiles[i]);
            }
            assert(tiles[tiles.len() - 1] == last);
        }
    }
}

/// A straight inner wall of extent `(n, 1)` or `(1, n)` with `|n| >= 2`
/// covers exactly `|n| - 2` tiles: the first one up and left of its start
/// tile, each next one a step further along the wall's direction (right for
/// `n > 0` and left for `n < 0` when horizontal; down for `n > 0` and up for
/// `n < 0` when vertical).
pub proof fn lemma_wall_tiles_run(wall: InnerWall)
    requires
        (wall.length_direction_vector.1 == 1 && (wall.length_direction_vector.0 >= 2
            || wall.length_direction_vector.0 <= -2)) || (wall.length_direction_vector.0 == 1
            && (wall.length_direction_vector.1 >= 2 || wall.length_direction_vector.1 <= -2)),
    ensures
        ({
            let (dx, dy) = wall.length_direction_vector;
            let n: int = if dy == 1 { dx as int } else { dy as int };
            let step: (int, int) = if dy == 1 {
                (if dx > 0 { 1int } else { -1int }, 0int)
            } else {
                (0int, if dy > 0 { 1int } else { -1int })
            };
            let tiles = wall_tiles(wall);
            &&& tiles.len() == (if n > 0 { n - 2 } else { -n - 2 })
            &&& tiles.len() > 0 ==> tiles[0] == (wall.start_pos.x - 1, wall.start_pos.y - 1)
            &&& forall|k: int|
                0 <= k < tiles.len() - 1 ==> #[trigger] tiles[k + 1] == (tiles[k].0 + step.0, tiles[k].1
                    + step.1)
        }),
{
    let tiles = wall_tiles(wall);
    let (dx, dy) = wall.length_direction_vector;
    if dy == 1 {
        assert(dx != 1);
    } else {
        assert(dx == 1);
    }
}

/// The collision tile of a door lies on the room's border, in the middle of
/// the door's wall, for a room of at least one tile each way: the left door
/// marks column 0 and the right door the last column, both in the middle
/// row (the row `(height + 1) / 2`, which depends on the height alone); the
/// top door marks the last row and the bottom door row 0, both in the
/// middle column (`(width + 1) / 2`, which depends on the width alone).
/// (Rooms of up to 2^24 tiles each way, whose positions fit any `usize`.)
pub proof fn lemma_door_cell_on_border(w: int, h: int, w2: int, h2: int)
    requires
        1 <= w <= 0x100_0000,
        1 <= h <= 0x100_0000,
        1 <= w2 <= 0x100_0000,
        1 <= h2 <= 0x100_0000,
    ensures
        door_cell(DoorType::Left, w, h).0 / 32 == 0,
        door_cell(DoorType::Right, w, h).0 / 32 == w - 1,
        door_cell(DoorType::Top, w, h).1 / 32 == h - 1,
        door_cell(DoorType::Bottom, w, h).1 / 32 == 0,
        door_cell(DoorType::Left, w, h).1 / 32 == (h + 1) / 2,
        door_cell(DoorType::Right, w, h).1 / 32 == (h + 1) / 2,
        door_cell(DoorType::Top, w, h).0 / 32 == (w + 1) / 2,
        door_cell(DoorType::Bottom, w, h).0 / 32 == (w + 1) / 2,
        door_cell(DoorType::Left, w, h).1 == door_cell(DoorType::Left, w2, h).1,
        door_cell(DoorType::Right, w, h).1 == door_cell(DoorType::Right, w2, h).1,
        door_cell(DoorType::Right, w, h).1 == door_cell(DoorType::Left, w, h).1,
        door_cell(DoorType::Top, w, h).0 == door_cell(DoorType::Top, w, h2).0,
        door_cell(DoorType::Bottom, w, h).0 == door_cell(DoorType::Bottom, w, h2).0,
        door_cell(DoorType::Top, w, h).0 == door_cell(DoorType::Bottom, w, h).0,
{
    assert((32 * w - 16) / 32 == w - 1);
    assert((32 * h - 16) / 32 == h - 1);
    assert((16 + 16 * h) / 32 == (h + 1) / 2);
    assert((16 + 16 * w) / 32 == (w + 1) / 2);
}

} // verus!
