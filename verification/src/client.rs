use std::collections::VecDeque;

use vstd::prelude::*;

use crate::cuscuta_resources::ClientId;
use crate::network::{IdPacket, Sequence, join_clocks, pad_to};
use crate::room_gen::DoorType;
use crate::server::{door_code, wall_code, FLOOR_CODE, INNER_WALL_CODE, POT_CODE, POTION_CODE};

verus! {

/// Takes the network id the server sent: it becomes our client id and the
/// index of our own clock counter (counters are added up to it), and the
/// server's clock is merged into ours.
pub fn recv_id(ds_struct: &IdPacket, sequence: &mut Sequence, id: &mut ClientId)
    requires
        ds_struct.head.sequence.nums@.len() < usize::MAX,
    ensures
        final(id).id == ds_struct.head.network_id,
        final(sequence).own() == ds_struct.head.network_id as usize,
        final(sequence).nums@ == join_clocks(
            pad_to(old(sequence).nums@, (ds_struct.head.network_id + 1) as nat),
            ds_struct.head.sequence.nums@,
        ),
        final(sequence).wf(),
{
    id.id = ds_struct.head.network_id;
    sequence.new_index(ds_struct.head.network_id as usize);
    sequence.assign(&ds_struct.head.sequence);
    proof {
        let n = join_clocks(
            pad_to(old(sequence).nums@, (ds_struct.head.network_id + 1) as nat),
            ds_struct.head.sequence.nums@,
        );
        assert(n.len() >= (ds_struct.head.network_id + 1));
    }
}

/// What a client draws for a cell of a map packet.
#[derive(Debug, Clone, Copy, PartialEq, Eq, Structural)]
pub enum MapTile {
    Floor,
    LeftWall,
    RightWall,
    /// A potion on a floor tile.
    Potion,
    Door(DoorType),
    TopWall,
    BottomWall,
    Pot,
    /// A wall placed far off screen, for a code the client does not know.
    Hidden,
}

/// What a client draws for map-packet code `code`.
pub open spec fn tile_of(code: u8) -> MapTile {
    if code == 0 {
        MapTile::Floor
    } else if code == 1 {
        MapTile::LeftWall
    } else if code == 2 {
        MapTile::RightWall
    } else if code == 3 {
        MapTile::Potion
    } else if code == 4 {
        MapTile::Door(DoorType::Left)
    } else if code == 5 {
        MapTile::Door(DoorType::Right)
    } else if code == 6 {
        MapTile::Door(DoorType::Top)
    } else if code == 7 {
        MapTile::Door(DoorType::Bottom)
    } else if code == 8 {
        MapTile::TopWall
    } else if code == 9 {
        MapTile::BottomWall
    } else if code == 10 {
        MapTile::Pot
    } else {
        MapTile::Hidden
    }
}

/// What a client draws for map-packet code `code`.
pub fn tile_for_code(code: u8) -> (t: MapTile)
    ensures
        t == tile_of(code),
{
    match code {
        0 => MapTile::Floor,
        1 => MapTile::LeftWall,
        2 => MapTile::RightWall,
        3 => MapTile::Potion,
        4 => MapTile::Door(DoorType::Left),
        5 => MapTile::Door(DoorType::Right),
        6 => MapTile::Door(DoorType::Top),
        7 => MapTile::Door(DoorType::Bottom),
        8 => MapTile::TopWall,
        9 => MapTile::BottomWall,
        10 => MapTile::Pot,
        _ => MapTile::Hidden,
    }
}

/// A client draws each tile the server sends as the tile it was sent for:
/// floors as floors, potions as potions, coin pots as pots, each door as the
/// same door, each border wall as the wall of its side, and each inner wall
/// as a plain wall.
pub proof fn lemma_map_codes_round_trip(x: int, y: int, w: int, d: DoorType)
    ensures
        tile_of(FLOOR_CODE) == MapTile::Floor,
        tile_of(POTION_CODE) == MapTile::Potion,
        tile_of(POT_CODE) == MapTile::Pot,
        tile_of(door_code(d)) == MapTile::Door(d),
        tile_of(INNER_WALL_CODE) == MapTile::TopWall,
        x == 0 ==> tile_of(wall_code(x, y, w)) == MapTile::LeftWall,
        x != 0 && y == 0 ==> tile_of(wall_code(x, y, w)) == MapTile::BottomWall,
        x != 0 && y != 0 && x == w - 1 ==> tile_of(wall_code(x, y, w)) == MapTile::RightWall,
        x != 0 && y != 0 && x != w - 1 ==> tile_of(wall_code(x, y, w)) == MapTile::TopWall,
{
}

/// A player as a client keeps it: its network id and its state.
#[derive(Debug, Clone, Copy)]
pub struct PlayerState<T> {
    pub id: u8,
    pub state: T,
}

/// Takes a player packet: every kept player with the packet's id takes the
/// packet's state; when none has that id, the player is added (spawned).
/// Returns whether it was spawned.
pub fn apply_player_packet<T: Copy>(players: &mut Vec<PlayerState<T>>, pk: PlayerState<T>) -> (spawned: bool)
    ensures
        spawned <==> forall|i: int| 0 <= i < old(players)@.len() ==> old(players)@[i].id != pk.id,
        !spawned ==> final(players)@.len() == old(players)@.len(),
        !spawned ==> forall|i: int|
            0 <= i < old(players)@.len() ==> final(players)@[i] == (if old(players)@[i].id == pk.id {
                pk
            } else {
                old(players)@[i]
            }),
        spawned ==> final(players)@ == old(players)@.push(pk),
{
    let ghost start = players@;
    let mut found = false;
    let mut i: usize = 0;
    while i < players.len()
        invariant
            i <= players@.len(),
            players@.len() == start.len(),
            found <==> exists|j: int| 0 <= j < i && start[j].id == pk.id,
            forall|j: int|
                0 <= j < players@.len() ==> players@[j] == (if j < i && start[j].id == pk.id {
                    pk
                } else {
                    start[j]
                }),
        decreases players@.len() - i,
    {
        if players[i].id == pk.id {
            players.set(i, pk);
            found = true;
        }
        i += 1;
    }
    if !found {
        assert(players@ =~= start);
        players.push(pk);
    }
    !found
}

/// Takes an enemy packet for an enemy whose past states are `q`, oldest
/// first: a known enemy keeps its two newest past states and gains `cur`,
/// its state before the packet, as the newest; an unknown one is to be
/// spawned and `q` stays. Returns whether to spawn.
pub fn apply_enemy_packet<T: Copy>(q: &mut VecDeque<T>, cur: T, known: bool) -> (spawn: bool)
    ensures
        spawn == !known,
        known ==> final(q)@ == old(q)@.skip(
            if old(q)@.len() > 2 { old(q)@.len() - 2 } else { 0 },
        ).push(cur),
        !known ==> final(q)@ == old(q)@,
{
    if known {
        let ghost start = q@;
        let ghost drop: int = if start.len() > 2 { start.len() - 2 } else { 0 };
        while q.len() > 2
            invariant
                start.len() >= q@.len(),
                q@.len() >= 2 || q@ == start,
                q@ == start.skip(start.len() - q@.len()),
            decreases q@.len(),
        {
            q.pop_front();
        }
        assert(q@ =~= start.skip(drop));
        q.push_back(cur);
    }
    !known
}

} // verus!
