use vstd::prelude::*;

use crate::cuscuta_resources::PlayerCount;
use crate::markov_chains::{LastAttributeArray, NextAttributeArray};
use crate::network::{Header, IdPacket, Sequence};
use crate::room_gen::{
    inner_wall_tiles, sat, saturate, wall_tiles, DoorPlan, DoorType, InnerWall, RoomConfig, RoomManager, Transition,
};

verus! {

/// The first door any player reports standing on, in player order.
pub open spec fn first_door(s: Seq<(bool, Option<DoorType>)>) -> Option<DoorType>
    decreases s.len(),
{
    if s.len() == 0 {
        None
    } else {
        match first_door(s.drop_last()) {
            Some(d) => Some(d),
            None => s.last().1,
        }
    }
}

/// Once some player reports a door, a first door is reported.
pub proof fn lemma_first_door_found(s: Seq<(bool, Option<DoorType>)>, j: int)
    requires
        0 <= j < s.len(),
        s[j].1 is Some,
    ensures
        first_door(s) is Some,
    decreases s.len(),
{
    if j < s.len() - 1 {
        assert(s.drop_last()[j] == s[j]);
        lemma_first_door_found(s.drop_last(), j);
    }
}

/// Every player stands on a door.
pub open spec fn all_on_door(s: Seq<(bool, Option<DoorType>)>) -> bool {
    forall|i: int| 0 <= i < s.len() ==> #[trigger] s[i].0
}

/// Every door a player reports is the first one reported.
pub open spec fn doors_agree(s: Seq<(bool, Option<DoorType>)>) -> bool {
    forall|i: int| 0 <= i < s.len() && (#[trigger] s[i].1) is Some ==> s[i].1 == first_door(s)
}

/// The door all players take together, given for each player whether it
/// stands on a door and which: there is at least one player, every player
/// stands on a door, and all report the same one.
pub open spec fn consensus(s: Seq<(bool, Option<DoorType>)>) -> Option<DoorType> {
    if s.len() > 0 && all_on_door(s) && doors_agree(s) {
        first_door(s)
    } else {
        None
    }
}

/// When the players agree on a door, there is a player, every player stands
/// on a door, and every door reported is that one; a single player standing
/// on a door takes it.
pub proof fn lemma_consensus_sound(s: Seq<(bool, Option<DoorType>)>)
    ensures
        consensus(s) matches Some(d) ==> {
            &&& s.len() > 0
            &&& forall|i: int| 0 <= i < s.len() ==> #[trigger] s[i].0
            &&& forall|i: int| 0 <= i < s.len() && (#[trigger] s[i].1) is Some ==> s[i].1 == Some(d)
        },
        s.len() == 1 && s[0].0 && s[0].1 is Some ==> consensus(s) == s[0].1,
{
    if s.len() == 1 && s[0].0 && s[0].1 is Some {
        assert(first_door(s.drop_last()) is None);
        assert(first_door(s) == s[0].1);
        assert(all_on_door(s));
        assert(doors_agree(s));
    }
}

/// When every player reports door `d`, the first door reported is `d`.
proof fn lemma_first_door_all(s: Seq<(bool, Option<DoorType>)>, d: DoorType)
    requires
        s.len() > 0,
        forall|i: int| 0 <= i < s.len() ==> (#[trigger] s[i]).1 == Some(d),
    ensures
        first_door(s) == Some(d),
    decreases s.len(),
{
    if s.len() > 1 {
        assert forall|i: int| 0 <= i < s.len() - 1 implies (#[trigger] s.drop_last()[i]).1 == Some(d) by {
            assert(s.drop_last()[i] == s[i]);
        }
        lemma_first_door_all(s.drop_last(), d);
    } else {
        assert(first_door(s.drop_last()) is None);
        assert(s.last() == s[0]);
    }
}

/// When there is a player and every player stands on door `d`, the players
/// take `d` together, however many they are.
pub proof fn lemma_consensus_complete(s: Seq<(bool, Option<DoorType>)>, d: DoorType)
    requires
        s.len() > 0,
        forall|i: int| 0 <= i < s.len() ==> #[trigger] s[i] == (true, Some(d)),
    ensures
        consensus(s) == Some(d),
{
    assert forall|i: int| 0 <= i < s.len() implies (#[trigger] s[i]).1 == Some(d) by {
        assert(s[i] == (true, Some(d)));
    }
    lemma_first_door_all(s, d);
    assert(all_on_door(s)) by {
        assert forall|i: int| 0 <= i < s.len() implies #[trigger] s[i].0 by {
            assert(s[i] == (true, Some(d)));
        }
    }
}

/// The door the players take together, given for each player whether it
/// stands on a door and which; `None` when there is no player, some player
/// stands on no door, or two players stand on different doors.
pub fn door_consensus(hits: &Vec<(bool, Option<DoorType>)>) -> (d: Option<DoorType>)
    ensures
        d == consensus(hits@),
{
    let mut all_hit = true;
    let mut have_player = false;
    let mut final_door: Option<DoorType> = None;
    let mut i: usize = 0;
    while i < hits.len()
        invariant
            i <= hits@.len(),
            have_player == (i > 0),
            final_door == first_door(hits@.take(i as int)),
            all_hit == (all_on_door(hits@.take(i as int)) && doors_agree(hits@.take(i as int))),
        decreases hits@.len() - i,
    {
        let (door_hit, door_type) = hits[i];
        let ghost before = hits@.take(i as int);
        let ghost after = hits@.take(i + 1);
        proof {
            assert(after.drop_last() =~= before);
            assert(after.last() == hits@[i as int]);
            assert(forall|j: int| 0 <= j < i ==> after[j] == #[trigger] before[j]);
        }
        all_hit = all_hit && door_hit;
        have_player = true;
        match final_door {
            Some(fd) => {
                match door_type {
                    Some(dt) => {
                        if dt != fd {
                            all_hit = false;
                        }
                    },
                    None => {},
                }
            },
            None => {
                final_door = door_type;
            },
        }
        proof {
            if all_hit {
                assert(doors_agree(after)) by {
                    assert forall|j: int| 0 <= j < after.len() && (#[trigger] after[j].1) is Some implies after[j].1
                        == first_door(after) by {
                        if j < i {
                            assert(after[j] == before[j]);
                        }
                    }
                }
            } else {
                if all_on_door(after) && doors_agree(after) {
                    assert(all_on_door(before)) by {
                        assert forall|j: int| 0 <= j < before.len() implies #[trigger] before[j].0 by {
                            assert(after[j] == before[j]);
                        }
                    }
                    assert(doors_agree(before)) by {
                        assert forall|j: int| 0 <= j < before.len() && (#[trigger] before[j].1) is Some implies before[j].1
                            == first_door(before) by {
                            assert(after[j] == before[j]);
                            lemma_first_door_found(before, j);
                        }
                    }
                    assert(after[i as int].0);
                    if after[i as int].1 is Some {
                        assert(after[i as int].1 == first_door(after));
                    }
                }
            }
        }
        i += 1;
    }
    proof {
        assert(hits@.take(hits@.len() as int) =~= hits@);
    }
    if all_hit && have_player {
        final_door
    } else {
        None
    }
}

/// Moves the players through the door they all stand on, when they all
/// stand on the same one: returns what the transition did, or `None` when
/// the players do not agree on a door and nothing changes.
pub fn check_door(
    room_manager: &mut RoomManager,
    hits: &Vec<(bool, Option<DoorType>)>,
    room_config: &RoomConfig,
    last_attribute_array: &mut LastAttributeArray,
    next_attribute_array: &NextAttributeArray,
) -> (t: Option<Transition>)
    requires
        old(room_manager).wf(),
        consensus(hits@) matches Some(d) ==> old(room_manager).transition_ok(d, next_attribute_array),
    ensures
        final(room_manager).wf(),
        t is None <==> consensus(hits@) is None,
        t is None ==> *final(room_manager) == *old(room_manager) && final(last_attribute_array).attributes@
            == old(last_attribute_array).attributes@,
        consensus(hits@) matches Some(d) ==> t matches Some(tr) && final(room_manager).took_door(
            &*old(room_manager),
            d,
            next_attribute_array,
            old(last_attribute_array).attributes@,
            final(last_attribute_array).attributes@,
            tr,
        ),
{
    match door_consensus(hits) {
        Some(door) => Some(
            room_manager.transition_map(door, room_config, last_attribute_array, next_attribute_array),
        ),
        None => None,
    }
}

/// Hands the next network id to a client that asked for one: the player
/// count goes up by one and is the new id, the server's clock gains a zero
/// counter for the new client, and the returned packet carries the id and a
/// copy of the server's clock.
pub fn assign_player_id(n_p: &mut PlayerCount, server_seq: &mut Sequence) -> (p: IdPacket)
    requires
        old(n_p).count < 255,
        old(server_seq).nums@.len() < usize::MAX,
    ensures
        final(n_p).count == old(n_p).count + 1,
        final(server_seq).nums@ == old(server_seq).nums@.push(0u64),
        final(server_seq).own() == old(server_seq).own(),
        p.head.network_id == final(n_p).count,
        p.head.sequence.nums@ == final(server_seq).nums@,
        p.head.sequence.own() == final(server_seq).own(),
{
    n_p.count += 1;
    let player_id: u8 = n_p.count;
    server_seq.nums.push(0);
    IdPacket { head: Header::new(player_id, server_seq.snapshot()) }
}

/// Map-packet code of a floor tile.
pub const FLOOR_CODE: u8 = 0;

/// Map-packet code of a potion.
pub const POTION_CODE: u8 = 3;

/// Map-packet code of a coin pot.
pub const POT_CODE: u8 = 10;

/// Map-packet code of an inner-wall tile: the plain wall tile, which
/// clients draw as a wall.
pub const INNER_WALL_CODE: u8 = 8;

/// Map-packet code of a border-wall tile at cell `(x, y)` of a room `w`
/// tiles wide: the left wall in column 0, else the bottom wall in row 0,
/// else the right wall in the last column, else the top wall.
pub open spec fn wall_code(x: int, y: int, w: int) -> u8 {
    if x == 0 {
        1
    } else if y == 0 {
        9
    } else if x == w - 1 {
        2
    } else {
        8
    }
}

/// Map-packet code of a door.
pub open spec fn door_code(d: DoorType) -> u8 {
    match d {
        DoorType::Right => 5,
        DoorType::Left => 4,
        DoorType::Top => 6,
        DoorType::Bottom => 7,
    }
}

/// The map-packet code of a border-wall tile at cell `(x, y)` of a room
/// `room_tile_w` tiles wide.
pub fn border_wall_code(x: usize, y: usize, room_tile_w: usize) -> (c: u8)
    ensures
        c == wall_code(x as int, y as int, room_tile_w as int),
{
    if x == 0 {
        1
    } else if y == 0 {
        9
    } else if room_tile_w >= 1 && x == room_tile_w - 1 {
        2
    } else {
        8
    }
}

/// The map-packet code of a door.
pub fn door_tile_code(d: DoorType) -> (c: u8)
    ensures
        c == door_code(d),
{
    match d {
        DoorType::Right => 5,
        DoorType::Left => 4,
        DoorType::Top => 6,
        DoorType::Bottom => 7,
    }
}

/// The matrix after cell `(x, y)` is set to `v`.
pub open spec fn put(m: Seq<Seq<u8>>, x: int, y: int, v: u8) -> Seq<Seq<u8>> {
    m.update(x, m[x].update(y, v))
}

/// The matrix after each cell of `cells`, in order, is set to `code`.
pub open spec fn stamped(m: Seq<Seq<u8>>, cells: Seq<(usize, usize)>, code: u8) -> Seq<Seq<u8>>
    decreases cells.len(),
{
    if cells.len() == 0 {
        m
    } else {
        let prev = stamped(m, cells.drop_last(), code);
        put(prev, cells.last().0 as int, cells.last().1 as int, code)
    }
}

/// The matrix after each border-wall tile of `cells`, in order, is set to
/// its wall code in a room `w` tiles wide.
pub open spec fn walls_stamped(m: Seq<Seq<u8>>, cells: Seq<(usize, usize)>, w: int) -> Seq<Seq<u8>>
    decreases cells.len(),
{
    if cells.len() == 0 {
        m
    } else {
        let prev = walls_stamped(m, cells.drop_last(), w);
        let c = cells.last();
        put(prev, c.0 as int, c.1 as int, wall_code(c.0 as int, c.1 as int, w))
    }
}

/// The matrix after each door of `doors`, in order, is set to its door code.
pub open spec fn doors_stamped(m: Seq<Seq<u8>>, doors: Seq<(usize, usize, DoorType)>) -> Seq<Seq<u8>>
    decreases doors.len(),
{
    if doors.len() == 0 {
        m
    } else {
        let prev = doors_stamped(m, doors.drop_last());
        let d = doors.last();
        put(prev, d.0 as int, d.1 as int, door_code(d.2))
    }
}

/// A matrix of `w` columns of `h` floor codes.
pub open spec fn floor_matrix(w: int, h: int) -> Seq<Seq<u8>> {
    Seq::new(w as nat, |x: int| Seq::new(h as nat, |y: int| 0u8))
}

/// Every cell of `cells` lies in a `w` by `h` matrix.
pub open spec fn cells_within(cells: Seq<(usize, usize)>, w: int, h: int) -> bool {
    forall|i: int| 0 <= i < cells.len() ==> (#[trigger] cells[i]).0 < w && cells[i].1 < h
}

/// Every door of `doors` lies in a `w` by `h` matrix.
pub open spec fn doors_within(doors: Seq<(usize, usize, DoorType)>, w: int, h: int) -> bool {
    forall|i: int| 0 <= i < doors.len() ==> (#[trigger] doors[i]).0 < w && doors[i].1 < h
}

/// The map a room of `room_tile_w` by `room_tile_h` tiles is sent as: one
/// cell more each way than the room, all floor, then the tiles of each kind
/// stamped in turn (floors, border walls, inner walls, potions, coin pots,
/// doors), later kinds over earlier ones.
pub open spec fn room_matrix(
    room_tile_w: int,
    room_tile_h: int,
    floors: Seq<(usize, usize)>,
    walls: Seq<(usize, usize)>,
    inner_walls: Seq<(usize, usize)>,
    potions: Seq<(usize, usize)>,
    pots: Seq<(usize, usize)>,
    doors: Seq<(usize, usize, DoorType)>,
) -> Seq<Seq<u8>> {
    let m0 = floor_matrix(room_tile_w + 1, room_tile_h + 1);
    let m1 = stamped(m0, floors, FLOOR_CODE);
    let m2 = walls_stamped(m1, walls, room_tile_w);
    let m3 = stamped(m2, inner_walls, INNER_WALL_CODE);
    let m4 = stamped(m3, potions, POTION_CODE);
    let m5 = stamped(m4, pots, POT_CODE);
    doors_stamped(m5, doors)
}

/// `m` has `w` columns of `h` cells.
pub open spec fn matrix_shape(m: Seq<Vec<u8>>, w: int, h: int) -> bool {
    &&& m.len() == w
    &&& forall|x: int| 0 <= x < w ==> (#[trigger] m[x])@.len() == h
}

/// The cells of a matrix of rows of codes.
pub open spec fn matrix_cells(m: Seq<Vec<u8>>) -> Seq<Seq<u8>> {
    m.map_values(|col: Vec<u8>| col@)
}

/// Sets cell `(x, y)` of `m` to `code`.
fn put_code(m: &mut Vec<Vec<u8>>, x: usize, y: usize, code: u8)
    requires
        x < old(m)@.len(),
        y < old(m)@[x as int]@.len(),
    ensures
        final(m)@.len() == old(m)@.len(),
        forall|i: int| 0 <= i < old(m)@.len() ==> (#[trigger] final(m)@[i])@.len() == old(m)@[i]@.len(),
        matrix_cells(final(m)@) == put(matrix_cells(old(m)@), x as int, y as int, code),
{
    let ghost before = m@;
    m[x][y] = code;
    proof {
        assert(m@[x as int]@ == before[x as int]@.update(y as int, code));
        assert forall|i: int| 0 <= i < before.len() && i != x implies #[trigger] m@[i] == before[i] by {}
        assert(matrix_cells(m@) =~= put(matrix_cells(before), x as int, y as int, code));
    }
}

/// Sets each cell of `cells`, in order, to `code`.
fn stamp_cells(m: &mut Vec<Vec<u8>>, cells: &Vec<(usize, usize)>, code: u8, Ghost(w): Ghost<int>, Ghost(h): Ghost<int>)
    requires
        matrix_shape(old(m)@, w, h),
        cells_within(cells@, w, h),
    ensures
        matrix_shape(final(m)@, w, h),
        matrix_cells(final(m)@) == stamped(matrix_cells(old(m)@), cells@, code),
{
    let ghost m0 = matrix_cells(m@);
    let mut i: usize = 0;
    while i < cells.len()
        invariant
            i <= cells@.len(),
            matrix_shape(m@, w, h),
            cells_within(cells@, w, h),
            matrix_cells(m@) == stamped(m0, cells@.take(i as int), code),
        decreases cells@.len() - i,
    {
        let (x, y) = cells[i];
        proof {
            assert(cells@[i as int].0 < w);
        }
        put_code(m, x, y, code);
        proof {
            let t = cells@.take(i + 1);
            assert(t.drop_last() =~= cells@.take(i as int));
            assert(t.last() == cells@[i as int]);
        }
        i += 1;
    }
    proof {
        assert(cells@.take(cells@.len() as int) =~= cells@);
    }
}

/// The map a room of `room_tile_w` by `room_tile_h` tiles is sent as, from
/// the matrix cells of its floor tiles, border-wall tiles, inner-wall tiles,
/// potions, coin pots and doors: as `room_matrix` gives it.
pub fn room_map_matrix(
    room_tile_w: usize,
    room_tile_h: usize,
    floors: &Vec<(usize, usize)>,
    walls: &Vec<(usize, usize)>,
    inner_walls: &Vec<(usize, usize)>,
    potions: &Vec<(usize, usize)>,
    pots: &Vec<(usize, usize)>,
    doors: &Vec<(usize, usize, DoorType)>,
) -> (m: Vec<Vec<u8>>)
    requires
        room_tile_w < usize::MAX,
        room_tile_h < usize::MAX,
        cells_within(floors@, room_tile_w + 1, room_tile_h + 1),
        cells_within(walls@, room_tile_w + 1, room_tile_h + 1),
        cells_within(inner_walls@, room_tile_w + 1, room_tile_h + 1),
        cells_within(potions@, room_tile_w + 1, room_tile_h + 1),
        cells_within(pots@, room_tile_w + 1, room_tile_h + 1),
        doors_within(doors@, room_tile_w + 1, room_tile_h + 1),
    ensures
        matrix_cells(m@) == room_matrix(
            room_tile_w as int,
            room_tile_h as int,
            floors@,
            walls@,
            inner_walls@,
            potions@,
            pots@,
            doors@,
        ),
{
    let ghost w = room_tile_w + 1;
    let ghost h = room_tile_h + 1;
    let mut m: Vec<Vec<u8>> = Vec::new();
    while m.len() < room_tile_w + 1
        invariant
            room_tile_w < usize::MAX,
            room_tile_h < usize::MAX,
            m@.len() <= room_tile_w + 1,
            forall|x: int| 0 <= x < m@.len() ==> (#[trigger] m@[x])@.len() == room_tile_h + 1,
            forall|x: int, y: int| 0 <= x < m@.len() && 0 <= y < room_tile_h + 1 ==> #[trigger] m@[x]@[y] == 0u8,
        decreases room_tile_w + 1 - m.len(),
    {
        let mut col: Vec<u8> = Vec::new();
        while col.len() < room_tile_h + 1
            invariant
                room_tile_h < usize::MAX,
                col@.len() <= room_tile_h + 1,
                forall|y: int| 0 <= y < col@.len() ==> #[trigger] col@[y] == 0u8,
            decreases room_tile_h + 1 - col.len(),
        {
            col.push(0);
        }
        m.push(col);
    }
    proof {
        assert(matrix_cells(m@) =~~= floor_matrix(w, h));
    }
    stamp_cells(&mut m, floors, FLOOR_CODE, Ghost(w), Ghost(h));
    let ghost m1 = matrix_cells(m@);
    let mut i: usize = 0;
    while i < walls.len()
        invariant
            i <= walls@.len(),
            w == room_tile_w + 1,
            matrix_shape(m@, w, h),
            cells_within(walls@, w, h),
            matrix_cells(m@) == walls_stamped(m1, walls@.take(i as int), room_tile_w as int),
        decreases walls@.len() - i,
    {
        let (x, y) = walls[i];
        proof {
            assert(walls@[i as int].0 < w);
        }
        let code = border_wall_code(x, y, room_tile_w);
        put_code(&mut m, x, y, code);
        proof {
            let t = walls@.take(i + 1);
            assert(t.drop_last() =~= walls@.take(i as int));
            assert(t.last() == walls@[i as int]);
        }
        i += 1;
    }
    proof {
        assert(walls@.take(walls@.len() as int) =~= walls@);
    }
    stamp_cells(&mut m, inner_walls, INNER_WALL_CODE, Ghost(w), Ghost(h));
    stamp_cells(&mut m, potions, POTION_CODE, Ghost(w), Ghost(h));
    stamp_cells(&mut m, pots, POT_CODE, Ghost(w), Ghost(h));
    let ghost m5 = matrix_cells(m@);
    let mut k: usize = 0;
    while k < doors.len()
        invariant
            k <= doors@.len(),
            matrix_shape(m@, w, h),
            doors_within(doors@, w, h),
            matrix_cells(m@) == doors_stamped(m5, doors@.take(k as int)),
        decreases doors@.len() - k,
    {
        let (x, y, d) = doors[k];
        proof {
            assert(doors@[k as int].0 < w);
        }
        let code = door_tile_code(d);
        put_code(&mut m, x, y, code);
        proof {
            let t = doors@.take(k + 1);
            assert(t.drop_last() =~= doors@.take(k as int));
            assert(t.last() == doors@[k as int]);
        }
        k += 1;
    }
    proof {
        assert(doors@.take(doors@.len() as int) =~= doors@);
    }
    m
}

/// The floor tiles of the first `n` columns of a room `h` tiles high, column
/// by column, each column with its rows `0 ..= h`.
pub open spec fn floor_list(n: nat, h: nat) -> Seq<(usize, usize)>
    decreases n,
{
    if n == 0 {
        Seq::empty()
    } else {
        floor_list((n - 1) as nat, h) + column_list((n - 1) as nat, h + 1)
    }
}

/// The first `n` cells of column `x`.
pub open spec fn column_list(x: nat, n: nat) -> Seq<(usize, usize)>
    decreases n,
{
    if n == 0 {
        Seq::empty()
    } else {
        column_list(x, (n - 1) as nat).push((x as usize, (n - 1) as usize))
    }
}

/// The cells under the north (last row) and south (row 0) walls of the
/// first `n` columns of a room `h` tiles high.
pub open spec fn north_south_list(n: nat, h: nat) -> Seq<(usize, usize)>
    decreases n,
{
    if n == 0 {
        Seq::empty()
    } else {
        north_south_list((n - 1) as nat, h).push(((n - 1) as usize, sat(h - 1) as usize)).push(
            ((n - 1) as usize, 0usize),
        )
    }
}

/// The cells under the east (last column) and west (column 0) walls of the
/// first `n` rows of a room `w` tiles wide.
pub open spec fn east_west_list(n: nat, w: nat) -> Seq<(usize, usize)>
    decreases n,
{
    if n == 0 {
        Seq::empty()
    } else {
        east_west_list((n - 1) as nat, w).push((sat(w - 1) as usize, (n - 1) as usize)).push(
            (0usize, (n - 1) as usize),
        )
    }
}

/// The border-wall cells of a `w` by `h` room: none without a column; else
/// the north and south walls of every column, then the east and west walls
/// of every row up to `h`.
pub open spec fn border_list(w: nat, h: nat) -> Seq<(usize, usize)> {
    if w == 0 {
        Seq::empty()
    } else {
        north_south_list(w, h) + east_west_list(h + 1, w)
    }
}

/// Inner-wall tiles as matrix cells (negative coordinates count as 0).
pub open spec fn tile_cells(tiles: Seq<(int, int)>) -> Seq<(usize, usize)> {
    tiles.map_values(|t: (int, int)| (sat(t.0) as usize, sat(t.1) as usize))
}

/// The cells of every tile of `walls`, wall by wall.
pub open spec fn inner_cells(walls: Seq<InnerWall>) -> Seq<(usize, usize)>
    decreases walls.len(),
{
    if walls.len() == 0 {
        Seq::empty()
    } else {
        inner_cells(walls.drop_last()) + tile_cells(wall_tiles(walls.last()))
    }
}

/// The door cells of a `w` by `h` room with doors `plan`, in the order
/// left, right, top, bottom: the left door mid-way up column 0, the right
/// one mid-way up the last column, the top one mid-way along the last row,
/// the bottom one mid-way along row 0.
pub open spec fn door_list(plan: DoorPlan, w: nat, h: nat) -> Seq<(usize, usize, DoorType)> {
    let l = if plan.left { seq![(0usize, (h / 2) as usize, DoorType::Left)] } else { Seq::empty() };
    let r = if plan.right { seq![(sat(w - 1) as usize, (h / 2) as usize, DoorType::Right)] } else { Seq::empty() };
    let t = if plan.top { seq![((w / 2) as usize, sat(h - 1) as usize, DoorType::Top)] } else { Seq::empty() };
    let b = if plan.bottom { seq![((w / 2) as usize, 0usize, DoorType::Bottom)] } else { Seq::empty() };
    l + r + t + b
}

/// The floor cells of a `width` by `height` room, as `floor_list` gives them.
fn floor_cells(width: usize, height: usize) -> (floors: Vec<(usize, usize)>)
    requires
        height < usize::MAX,
    ensures
        floors@ == floor_list(width as nat, height as nat),
        cells_within(floors@, width + 1, height + 1),
{
    let ghost h = height as nat;
    let mut floors: Vec<(usize, usize)> = Vec::new();
    let mut x: usize = 0;
    while x < width
        invariant
            x <= width,
            height < usize::MAX,
            h == height,
            floors@ == floor_list(x as nat, h),
        decreases width - x,
    {
        let ghost before = floors@;
        let mut y: usize = 0;
        while y <= height
            invariant
                x < width,
                y <= height + 1,
                height < usize::MAX,
                h == height,
                floors@ == before + column_list(x as nat, y as nat),
            decreases height + 1 - y,
        {
            floors.push((x, y));
            proof {
                assert(before + column_list(x as nat, (y + 1) as nat) =~= (before + column_list(
                    x as nat,
                    y as nat,
                )).push((x, y)));
            }
            y += 1;
        }
        x += 1;
    }
    proof {
        lemma_floor_list_within(width as nat, h, width as nat);
    }
    floors
}

/// The border-wall cells of a `width` by `height` room, as `border_list`
/// gives them.
fn border_cells(width: usize, height: usize) -> (walls: Vec<(usize, usize)>)
    requires
        height < usize::MAX,
    ensures
        walls@ == border_list(width as nat, height as nat),
        cells_within(walls@, width + 1, height + 1),
{
    let ghost w = width as nat;
    let ghost h = height as nat;
    let north = if height > 0 { height - 1 } else { 0 };
    let east = if width > 0 { width - 1 } else { 0 };
    let mut walls: Vec<(usize, usize)> = Vec::new();
    if width > 0 {
        let mut i: usize = 0;
        while i < width
            invariant
                i <= width,
                w == width,
                h == height,
                north == sat(h - 1),
                walls@ == north_south_list(i as nat, h),
            decreases width - i,
        {
            walls.push((i, north));
            walls.push((i, 0));
            i += 1;
        }
        let ghost ns = walls@;
        let mut j: usize = 0;
        while j <= height
            invariant
                j <= height + 1,
                height < usize::MAX,
                w == width,
                h == height,
                east == sat(w - 1),
                walls@ == ns + east_west_list(j as nat, w),
            decreases height + 1 - j,
        {
            walls.push((east, j));
            walls.push((0, j));
            proof {
                assert(ns + east_west_list((j + 1) as nat, w) =~= (ns + east_west_list(j as nat, w)).push(
                    (east, j),
                ).push((0usize, j)));
            }
            j += 1;
        }
    }
    proof {
        assert(walls@ =~= border_list(w, h));
        lemma_border_list_within(w, h);
    }
    walls
}

/// The cells of every tile of `inner_walls`, as `inner_cells` gives them.
fn inner_wall_cells(inner_walls: &Vec<InnerWall>) -> (cells: Vec<(usize, usize)>)
    ensures
        cells@ == inner_cells(inner_walls@),
{
    let mut cells: Vec<(usize, usize)> = Vec::new();
    let mut k: usize = 0;
    while k < inner_walls.len()
        invariant
            k <= inner_walls@.len(),
            cells@ == inner_cells(inner_walls@.take(k as int)),
        decreases inner_walls@.len() - k,
    {
        let tiles = inner_wall_tiles(&inner_walls[k]);
        let ghost before = cells@;
        let ghost spec_tiles = wall_tiles(inner_walls@[k as int]);
        let mut j: usize = 0;
        while j < tiles.len()
            invariant
                j <= tiles@.len(),
                tiles@.len() == spec_tiles.len(),
                forall|i: int|
                    0 <= i < tiles@.len() ==> #[trigger] tiles@[i].0 == spec_tiles[i].0 && tiles@[i].1
                        == spec_tiles[i].1,
                cells@ == before + tile_cells(spec_tiles.take(j as int)),
            decreases tiles@.len() - j,
        {
            let (tx, ty) = tiles[j];
            cells.push((saturate(tx), saturate(ty)));
            proof {
                assert(tile_cells(spec_tiles.take(j + 1)) =~= tile_cells(spec_tiles.take(j as int)).push(
                    (sat(spec_tiles[j as int].0) as usize, sat(spec_tiles[j as int].1) as usize),
                ));
                assert(before + tile_cells(spec_tiles.take(j + 1)) =~= (before + tile_cells(
                    spec_tiles.take(j as int),
                )).push((sat(spec_tiles[j as int].0) as usize, sat(spec_tiles[j as int].1) as usize)));
            }
            j += 1;
        }
        proof {
            assert(spec_tiles.take(tiles@.len() as int) =~= spec_tiles);
            let t = inner_walls@.take(k + 1);
            assert(t.drop_last() =~= inner_walls@.take(k as int));
            assert(t.last() == inner_walls@[k as int]);
        }
        k += 1;
    }
    proof {
        assert(inner_walls@.take(inner_walls@.len() as int) =~= inner_walls@);
    }
    cells
}

/// The door cells of a `width` by `height` room with doors `plan`, as
/// `door_list` gives them.
fn door_cells(width: usize, height: usize, plan: DoorPlan) -> (doors: Vec<(usize, usize, DoorType)>)
    ensures
        doors@ == door_list(plan, width as nat, height as nat),
        doors_within(doors@, width + 1, height + 1),
{
    let ghost w = width as nat;
    let ghost h = height as nat;
    let ghost l = if plan.left { seq![(0usize, (h / 2) as usize, DoorType::Left)] } else { Seq::empty() };
    let ghost r = if plan.right { seq![(sat(w - 1) as usize, (h / 2) as usize, DoorType::Right)] } else { Seq::empty() };
    let ghost t = if plan.top { seq![((w / 2) as usize, sat(h - 1) as usize, DoorType::Top)] } else { Seq::empty() };
    let ghost b = if plan.bottom { seq![((w / 2) as usize, 0usize, DoorType::Bottom)] } else { Seq::empty() };
    let north = if height > 0 { height - 1 } else { 0 };
    let east = if width > 0 { width - 1 } else { 0 };
    let mut doors: Vec<(usize, usize, DoorType)> = Vec::new();
    if plan.left {
        doors.push((0, height / 2, DoorType::Left));
    }
    assert(doors@ =~= l);
    if plan.right {
        doors.push((east, height / 2, DoorType::Right));
    }
    assert(doors@ =~= l + r);
    if plan.top {
        doors.push((width / 2, north, DoorType::Top));
    }
    assert(doors@ =~= l + r + t);
    if plan.bottom {
        doors.push((width / 2, 0, DoorType::Bottom));
    }
    assert(doors@ =~= l + r + t + b);
    assert(doors_within(doors@, width + 1, height + 1)) by {
        assert forall|i: int| 0 <= i < doors@.len() implies (#[trigger] doors@[i]).0 < width + 1 && doors@[i].1
            < height + 1 by {
            let d = doors@[i];
            assert(d.0 == 0 || d.0 == east || d.0 == width / 2);
            assert(d.1 == 0 || d.1 == north || d.1 == height / 2);
        }
    }
    doors
}

/// The map matrix the server sends for the current room, `width` by
/// `height` tiles with doors `plan`, inner walls `inner_walls`, potions at
/// the cells `potions` and coin pots at the cells `pots`: the floor under
/// every tile, the border walls, the inner walls, the potions, the pots and
/// the doors, stamped in that order.
pub fn map_packet_matrix(
    width: usize,
    height: usize,
    plan: DoorPlan,
    inner_walls: &Vec<InnerWall>,
    potions: &Vec<(usize, usize)>,
    pots: &Vec<(usize, usize)>,
) -> (m: Vec<Vec<u8>>)
    requires
        width < usize::MAX,
        height < usize::MAX,
        cells_within(inner_cells(inner_walls@), width + 1, height + 1),
        cells_within(potions@, width + 1, height + 1),
        cells_within(pots@, width + 1, height + 1),
    ensures
        matrix_cells(m@) == room_matrix(
            width as int,
            height as int,
            floor_list(width as nat, height as nat),
            border_list(width as nat, height as nat),
            inner_cells(inner_walls@),
            potions@,
            pots@,
            door_list(plan, width as nat, height as nat),
        ),
{
    let floors = floor_cells(width, height);
    let walls = border_cells(width, height);
    let cells = inner_wall_cells(inner_walls);
    let doors = door_cells(width, height, plan);
    room_map_matrix(width, height, &floors, &walls, &cells, potions, pots, &doors)
}

/// Every floor cell of the first `n` columns lies in the `w + 1` by `h + 1`
/// matrix.
proof fn lemma_floor_list_within(w: nat, h: nat, n: nat)
    requires
        n <= w,
    ensures
        cells_within(floor_list(n, h), (w + 1) as int, (h + 1) as int),
    decreases n,
{
    if n > 0 {
        lemma_floor_list_within(w, h, (n - 1) as nat);
        lemma_column_list_within(w, h, (n - 1) as nat, h + 1);
        let a = floor_list((n - 1) as nat, h);
        let b = column_list((n - 1) as nat, h + 1);
        assert forall|i: int| 0 <= i < (a + b).len() implies (#[trigger] (a + b)[i]).0 < w + 1 && (a
            + b)[i].1 < h + 1 by {
            if i >= a.len() {
                assert((a + b)[i] == b[i - a.len()]);
            }
        }
    }
}

/// Every cell of the first `n` rows of column `x` lies in the matrix.
proof fn lemma_column_list_within(w: nat, h: nat, x: nat, n: nat)
    requires
        x < w,
        n <= h + 1,
    ensures
        cells_within(column_list(x, n), (w + 1) as int, (h + 1) as int),
        column_list(x, n).len() == n,
    decreases n,
{
    if n > 0 {
        lemma_column_list_within(w, h, x, (n - 1) as nat);
    }
}

/// Every border-wall cell lies in the matrix.
proof fn lemma_border_list_within(w: nat, h: nat)
    ensures
        cells_within(border_list(w, h), (w + 1) as int, (h + 1) as int),
{
    if w > 0 {
        lemma_north_south_within(w, h, w);
        lemma_east_west_within(w, h, h + 1);
        let a = north_south_list(w, h);
        let b = east_west_list(h + 1, w);
        assert forall|i: int| 0 <= i < (a + b).len() implies (#[trigger] (a + b)[i]).0 < w + 1 && (a
            + b)[i].1 < h + 1 by {
            if i >= a.len() {
                assert((a + b)[i] == b[i - a.len()]);
            }
        }
    }
}

proof fn lemma_north_south_within(w: nat, h: nat, n: nat)
    requires
        n <= w,
    ensures
        cells_within(north_south_list(n, h), (w + 1) as int, (h + 1) as int),
    decreases n,
{
    if n > 0 {
        lemma_north_south_within(w, h, (n - 1) as nat);
    }
}

proof fn lemma_east_west_within(w: nat, h: nat, n: nat)
    requires
        n <= h + 1,
    ensures
        cells_within(east_west_list(n, w), (w + 1) as int, (h + 1) as int),
    decreases n,
{
    if n > 0 {
        lemma_east_west_within(w, h, (n - 1) as nat);
    }
}

/// `m` has `w` columns of `h` cells.
pub open spec fn shaped(m: Seq<Seq<u8>>, w: int, h: int) -> bool {
    &&& m.len() == w
    &&& forall|x: int| 0 <= x < w ==> #[trigger] m[x].len() == h
}

/// Stamping cells that lie in a `w` by `h` matrix keeps its shape.
proof fn lemma_stamped_shape(m: Seq<Seq<u8>>, cells: Seq<(usize, usize)>, code: u8, w: int, h: int)
    requires
        shaped(m, w, h),
        cells_within(cells, w, h),
    ensures
        shaped(stamped(m, cells, code), w, h),
    decreases cells.len(),
{
    if cells.len() > 0 {
        let rest = cells.drop_last();
        assert forall|i: int| 0 <= i < rest.len() implies (#[trigger] rest[i]).0 < w && rest[i].1 < h by {
            assert(rest[i] == cells[i]);
        }
        lemma_stamped_shape(m, rest, code, w, h);
        assert(cells[cells.len() - 1] == cells.last());
    }
}

/// Stamping border-wall cells that lie in a `w` by `h` matrix keeps its shape.
proof fn lemma_walls_stamped_shape(m: Seq<Seq<u8>>, cells: Seq<(usize, usize)>, rw: int, w: int, h: int)
    requires
        shaped(m, w, h),
        cells_within(cells, w, h),
    ensures
        shaped(walls_stamped(m, cells, rw), w, h),
    decreases cells.len(),
{
    if cells.len() > 0 {
        let rest = cells.drop_last();
        assert forall|i: int| 0 <= i < rest.len() implies (#[trigger] rest[i]).0 < w && rest[i].1 < h by {
            assert(rest[i] == cells[i]);
        }
        lemma_walls_stamped_shape(m, rest, rw, w, h);
        assert(cells[cells.len() - 1] == cells.last());
    }
}

/// Stamping the doors of `a + b` is stamping those of `a`, then those of `b`.
proof fn lemma_doors_stamped_append(
    m: Seq<Seq<u8>>,
    a: Seq<(usize, usize, DoorType)>,
    b: Seq<(usize, usize, DoorType)>,
)
    ensures
        doors_stamped(m, a + b) == doors_stamped(doors_stamped(m, a), b),
    decreases b.len(),
{
    if b.len() == 0 {
        assert(a + b =~= a);
    } else {
        assert((a + b).drop_last() =~= a + b.drop_last());
        lemma_doors_stamped_append(m, a, b.drop_last());
    }
}

/// In the map packet of a room of at least 2 by 2 tiles (but for exactly 2
/// by 2, where the top and right doors share a cell) each door the room has
/// is sent with its door code on its own wall, in the middle: the left door
/// in column 0 and the right door in the last column, both in row
/// `height / 2`; the top door in the last row and the bottom door in row 0,
/// both in column `width / 2`.
pub proof fn lemma_map_packet_doors(
    width: usize,
    height: usize,
    plan: DoorPlan,
    inner_walls: Seq<InnerWall>,
    potions: Seq<(usize, usize)>,
    pots: Seq<(usize, usize)>,
)
    requires
        2 <= width < usize::MAX,
        2 <= height < usize::MAX,
        !(width == 2 && height == 2),
        cells_within(inner_cells(inner_walls), width + 1, height + 1),
        cells_within(potions, width + 1, height + 1),
        cells_within(pots, width + 1, height + 1),
    ensures
        ({
            let m = room_matrix(
                width as int,
                height as int,
                floor_list(width as nat, height as nat),
                border_list(width as nat, height as nat),
                inner_cells(inner_walls),
                potions,
                pots,
                door_list(plan, width as nat, height as nat),
            );
            let (w, h) = (width as int, height as int);
            &&& plan.left ==> m[0][h / 2] == door_code(DoorType::Left)
            &&& plan.right ==> m[w - 1][h / 2] == door_code(DoorType::Right)
            &&& plan.top ==> m[w / 2][h - 1] == door_code(DoorType::Top)
            &&& plan.bottom ==> m[w / 2][0] == door_code(DoorType::Bottom)
        }),
{
    let w = width as int;
    let h = height as int;
    let wn = width as nat;
    let hn = height as nat;
    let m0 = floor_matrix(w + 1, h + 1);
    assert(shaped(m0, w + 1, h + 1));
    lemma_floor_list_within(wn, hn, wn);
    lemma_border_list_within(wn, hn);
    let m1 = stamped(m0, floor_list(wn, hn), FLOOR_CODE);
    lemma_stamped_shape(m0, floor_list(wn, hn), FLOOR_CODE, w + 1, h + 1);
    let m2 = walls_stamped(m1, border_list(wn, hn), w);
    lemma_walls_stamped_shape(m1, border_list(wn, hn), w, w + 1, h + 1);
    let m3 = stamped(m2, inner_cells(inner_walls), INNER_WALL_CODE);
    lemma_stamped_shape(m2, inner_cells(inner_walls), INNER_WALL_CODE, w + 1, h + 1);
    let m4 = stamped(m3, potions, POTION_CODE);
    lemma_stamped_shape(m3, potions, POTION_CODE, w + 1, h + 1);
    let m5 = stamped(m4, pots, POT_CODE);
    lemma_stamped_shape(m4, pots, POT_CODE, w + 1, h + 1);
    let l = if plan.left { seq![(0usize, (hn / 2) as usize, DoorType::Left)] } else { Seq::empty() };
    let r = if plan.right { seq![(sat(wn - 1) as usize, (hn / 2) as usize, DoorType::Right)] } else { Seq::empty() };
    let t = if plan.top { seq![((wn / 2) as usize, sat(hn - 1) as usize, DoorType::Top)] } else { Seq::empty() };
    let b = if plan.bottom { seq![((wn / 2) as usize, 0usize, DoorType::Bottom)] } else { Seq::empty() };
    assert(door_list(plan, wn, hn) == l + r + t + b);
    lemma_doors_stamped_append(m5, l + r + t, b);
    lemma_doors_stamped_append(m5, l + r, t);
    lemma_doors_stamped_append(m5, l, r);
    let ml = doors_stamped(m5, l);
    let mr = doors_stamped(ml, r);
    let mt = doors_stamped(mr, t);
    let mb = doors_stamped(mt, b);
    reveal_with_fuel(doors_stamped, 2);
    if plan.left {
        assert(l.drop_last() =~= Seq::<(usize, usize, DoorType)>::empty());
    }
    if plan.right {
        assert(r.drop_last() =~= Seq::<(usize, usize, DoorType)>::empty());
    }
    if plan.top {
        assert(t.drop_last() =~= Seq::<(usize, usize, DoorType)>::empty());
    }
    if plan.bottom {
        assert(b.drop_last() =~= Seq::<(usize, usize, DoorType)>::empty());
    }
    assert(sat(w - 1) == w - 1);
    assert(sat(h - 1) == h - 1);
    assert(shaped(ml, w + 1, h + 1));
    assert(shaped(mr, w + 1, h + 1));
    assert(shaped(mt, w + 1, h + 1));
    assert(plan.left ==> ml[0][h / 2] == door_code(DoorType::Left));
    assert(plan.left ==> mr[0][h / 2] == door_code(DoorType::Left));
    assert(plan.left ==> mt[0][h / 2] == door_code(DoorType::Left));
    assert(plan.right ==> mr[w - 1][h / 2] == door_code(DoorType::Right));
    assert(plan.right ==> mt[w - 1][h / 2] == door_code(DoorType::Right));
    assert(plan.top ==> mt[w / 2][h - 1] == door_code(DoorType::Top));
}

/// Some cell of `cells` is `(x, y)`.
pub open spec fn covers(cells: Seq<(usize, usize)>, x: int, y: int) -> bool {
    exists|i: int| 0 <= i < cells.len() && (#[trigger] cells[i]).0 == x && cells[i].1 == y
}

/// Some door of `doors` is at `(x, y)`.
pub open spec fn door_at(doors: Seq<(usize, usize, DoorType)>, x: int, y: int) -> bool {
    exists|i: int| 0 <= i < doors.len() && (#[trigger] doors[i]).0 == x && doors[i].1 == y
}

/// A cell is in a list with one more cell when it is in the list or is that cell.
proof fn lemma_covers_push(cells: Seq<(usize, usize)>, c: (usize, usize), x: int, y: int)
    ensures
        covers(cells.push(c), x, y) <==> covers(cells, x, y) || (c.0 == x && c.1 == y),
{
    let s = cells.push(c);
    if covers(cells, x, y) {
        let i = choose|i: int| 0 <= i < cells.len() && (#[trigger] cells[i]).0 == x && cells[i].1 == y;
        assert(s[i] == cells[i]);
    }
    if c.0 == x && c.1 == y {
        assert(s[cells.len() as int] == c);
    }
    if covers(s, x, y) {
        let i = choose|i: int| 0 <= i < s.len() && (#[trigger] s[i]).0 == x && s[i].1 == y;
        if i < cells.len() {
            assert(s[i] == cells[i]);
        }
    }
}

/// A cell is in the joined lists when it is in either.
proof fn lemma_covers_append(a: Seq<(usize, usize)>, b: Seq<(usize, usize)>, x: int, y: int)
    ensures
        covers(a + b, x, y) <==> covers(a, x, y) || covers(b, x, y),
{
    let s = a + b;
    if covers(a, x, y) {
        let i = choose|i: int| 0 <= i < a.len() && (#[trigger] a[i]).0 == x && a[i].1 == y;
        assert(s[i] == a[i]);
    }
    if covers(b, x, y) {
        let i = choose|i: int| 0 <= i < b.len() && (#[trigger] b[i]).0 == x && b[i].1 == y;
        assert(s[a.len() + i] == b[i]);
    }
    if covers(s, x, y) {
        let i = choose|i: int| 0 <= i < s.len() && (#[trigger] s[i]).0 == x && s[i].1 == y;
        if i < a.len() {
            assert(s[i] == a[i]);
        } else {
            assert(s[i] == b[i - a.len()]);
        }
    }
}

/// The north and south walls of the first `n` columns of a room `h >= 1`
/// tiles high are the cells of those columns in row 0 and in row `h - 1`.
proof fn lemma_north_south_covers(n: nat, h: nat, x: int, y: int)
    requires
        1 <= h < usize::MAX,
        n <= usize::MAX,
    ensures
        covers(north_south_list(n, h), x, y) <==> 0 <= x < n && (y == 0 || y == h - 1),
    decreases n,
{
    if n == 0 {
        assert(!covers(north_south_list(n, h), x, y));
    } else {
        lemma_north_south_covers((n - 1) as nat, h, x, y);
        let prev = north_south_list((n - 1) as nat, h);
        let a = ((n - 1) as usize, sat(h - 1) as usize);
        let b = ((n - 1) as usize, 0usize);
        lemma_covers_push(prev, a, x, y);
        lemma_covers_push(prev.push(a), b, x, y);
    }
}

/// The east and west walls of the first `n` rows of a room `w >= 1` tiles
/// wide are the cells of those rows in column 0 and in column `w - 1`.
proof fn lemma_east_west_covers(n: nat, w: nat, x: int, y: int)
    requires
        1 <= w < usize::MAX,
        n <= usize::MAX,
    ensures
        covers(east_west_list(n, w), x, y) <==> 0 <= y < n && (x == 0 || x == w - 1),
    decreases n,
{
    if n == 0 {
        assert(!covers(east_west_list(n, w), x, y));
    } else {
        lemma_east_west_covers((n - 1) as nat, w, x, y);
        let prev = east_west_list((n - 1) as nat, w);
        let a = (sat(w - 1) as usize, (n - 1) as usize);
        let b = (0usize, (n - 1) as usize);
        lemma_covers_push(prev, a, x, y);
        lemma_covers_push(prev.push(a), b, x, y);
    }
}

/// Stamping a code over cells of a `w` by `h` matrix gives a cell of it the
/// code when some stamped cell is that cell, and leaves it as it was when
/// none is.
proof fn lemma_stamped_at(m: Seq<Seq<u8>>, cells: Seq<(usize, usize)>, code: u8, w: int, h: int, x: int, y: int)
    requires
        shaped(m, w, h),
        cells_within(cells, w, h),
        0 <= x < w,
        0 <= y < h,
    ensures
        stamped(m, cells, code)[x][y] == (if covers(cells, x, y) { code } else { m[x][y] }),
    decreases cells.len(),
{
    if cells.len() > 0 {
        let rest = cells.drop_last();
        assert forall|i: int| 0 <= i < rest.len() implies (#[trigger] rest[i]).0 < w && rest[i].1 < h by {
            assert(rest[i] == cells[i]);
        }
        lemma_stamped_at(m, rest, code, w, h, x, y);
        lemma_stamped_shape(m, rest, code, w, h);
        assert(cells[cells.len() - 1] == cells.last());
        assert(rest.push(cells.last()) =~= cells);
        lemma_covers_push(rest, cells.last(), x, y);
    }
}

/// Stamping border-wall cells of a `w` by `h` matrix gives a cell of it its
/// wall code when some stamped cell is that cell, and leaves it as it was
/// when none is.
proof fn lemma_walls_stamped_at(m: Seq<Seq<u8>>, cells: Seq<(usize, usize)>, rw: int, w: int, h: int, x: int, y: int)
    requires
        shaped(m, w, h),
        cells_within(cells, w, h),
        0 <= x < w,
        0 <= y < h,
    ensures
        walls_stamped(m, cells, rw)[x][y] == (if covers(cells, x, y) { wall_code(x, y, rw) } else { m[x][y] }),
    decreases cells.len(),
{
    if cells.len() > 0 {
        let rest = cells.drop_last();
        assert forall|i: int| 0 <= i < rest.len() implies (#[trigger] rest[i]).0 < w && rest[i].1 < h by {
            assert(rest[i] == cells[i]);
        }
        lemma_walls_stamped_at(m, rest, rw, w, h, x, y);
        lemma_walls_stamped_shape(m, rest, rw, w, h);
        assert(cells[cells.len() - 1] == cells.last());
        assert(rest.push(cells.last()) =~= cells);
        lemma_covers_push(rest, cells.last(), x, y);
    }
}

/// Stamping doors leaves every cell with no door as it was.
proof fn lemma_doors_stamped_away(m: Seq<Seq<u8>>, doors: Seq<(usize, usize, DoorType)>, w: int, h: int, x: int, y: int)
    requires
        shaped(m, w, h),
        doors_within(doors, w, h),
        0 <= x < w,
        0 <= y < h,
        !door_at(doors, x, y),
    ensures
        shaped(doors_stamped(m, doors), w, h),
        doors_stamped(m, doors)[x][y] == m[x][y],
    decreases doors.len(),
{
    if doors.len() > 0 {
        let rest = doors.drop_last();
        assert forall|i: int| 0 <= i < rest.len() implies (#[trigger] rest[i]).0 < w && rest[i].1 < h by {
            assert(rest[i] == doors[i]);
        }
        assert(!door_at(rest, x, y)) by {
            if door_at(rest, x, y) {
                let i = choose|i: int| 0 <= i < rest.len() && (#[trigger] rest[i]).0 == x && rest[i].1 == y;
                assert(rest[i] == doors[i]);
            }
        }
        lemma_doors_stamped_away(m, rest, w, h, x, y);
        assert(doors[doors.len() - 1] == doors.last());
    }
}

/// In the map packet of a room of at least 1 by 1 tiles, every cell of the
/// room that no inner wall, potion, coin pot or door covers is sent as a
/// border wall (with the wall code of its side) when it lies in the room's
/// first or last column or row, and as floor otherwise: the room is drawn
/// walled all round with floor inside.
pub proof fn lemma_map_packet_walls(
    width: usize,
    height: usize,
    plan: DoorPlan,
    inner_walls: Seq<InnerWall>,
    potions: Seq<(usize, usize)>,
    pots: Seq<(usize, usize)>,
    x: int,
    y: int,
)
    requires
        1 <= width < usize::MAX,
        1 <= height < usize::MAX,
        cells_within(inner_cells(inner_walls), width + 1, height + 1),
        cells_within(potions, width + 1, height + 1),
        cells_within(pots, width + 1, height + 1),
        0 <= x < width,
        0 <= y < height,
        !covers(inner_cells(inner_walls), x, y),
        !covers(potions, x, y),
        !covers(pots, x, y),
        !door_at(door_list(plan, width as nat, height as nat), x, y),
    ensures
        ({
            let m = room_matrix(
                width as int,
                height as int,
                floor_list(width as nat, height as nat),
                border_list(width as nat, height as nat),
                inner_cells(inner_walls),
                potions,
                pots,
                door_list(plan, width as nat, height as nat),
            );
            let (w, h) = (width as int, height as int);
            &&& (x == 0 || x == w - 1 || y == 0 || y == h - 1) ==> m[x][y] == wall_code(x, y, w)
            &&& !(x == 0 || x == w - 1 || y == 0 || y == h - 1) ==> m[x][y] == FLOOR_CODE
        }),
{
    let w = width as int;
    let h = height as int;
    let wn = width as nat;
    let hn = height as nat;
    let m0 = floor_matrix(w + 1, h + 1);
    assert(shaped(m0, w + 1, h + 1));
    lemma_floor_list_within(wn, hn, wn);
    lemma_border_list_within(wn, hn);
    let m1 = stamped(m0, floor_list(wn, hn), FLOOR_CODE);
    lemma_stamped_shape(m0, floor_list(wn, hn), FLOOR_CODE, w + 1, h + 1);
    lemma_stamped_at(m0, floor_list(wn, hn), FLOOR_CODE, w + 1, h + 1, x, y);
    let m2 = walls_stamped(m1, border_list(wn, hn), w);
    lemma_walls_stamped_shape(m1, border_list(wn, hn), w, w + 1, h + 1);
    lemma_walls_stamped_at(m1, border_list(wn, hn), w, w + 1, h + 1, x, y);
    lemma_north_south_covers(wn, hn, x, y);
    lemma_east_west_covers(hn + 1, wn, x, y);
    lemma_covers_append(north_south_list(wn, hn), east_west_list(hn + 1, wn), x, y);
    let m3 = stamped(m2, inner_cells(inner_walls), INNER_WALL_CODE);
    lemma_stamped_shape(m2, inner_cells(inner_walls), INNER_WALL_CODE, w + 1, h + 1);
    lemma_stamped_at(m2, inner_cells(inner_walls), INNER_WALL_CODE, w + 1, h + 1, x, y);
    let m4 = stamped(m3, potions, POTION_CODE);
    lemma_stamped_shape(m3, potions, POTION_CODE, w + 1, h + 1);
    lemma_stamped_at(m3, potions, POTION_CODE, w + 1, h + 1, x, y);
    let m5 = stamped(m4, pots, POT_CODE);
    lemma_stamped_shape(m4, pots, POT_CODE, w + 1, h + 1);
    lemma_stamped_at(m4, pots, POT_CODE, w + 1, h + 1, x, y);
    let doors = door_list(plan, wn, hn);
    assert(doors_within(doors, w + 1, h + 1)) by {
        assert forall|i: int| 0 <= i < doors.len() implies (#[trigger] doors[i]).0 < w + 1 && doors[i].1 < h + 1 by {
            let d = doors[i];
            assert(d.0 == 0 || d.0 == w - 1 || d.0 == w / 2);
            assert(d.1 == 0 || d.1 == h - 1 || d.1 == h / 2);
        }
    }
    lemma_doors_stamped_away(m5, doors, w + 1, h + 1, x, y);
}

} // verus!
