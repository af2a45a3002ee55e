use vstd::prelude::*;

verus! {

/// Side length of a tile, in pixels.
pub const TILE_SIZE: u32 = 32;

/// Opcode of a request for a player id.
pub const GET_PLAYER_ID_CODE: u8 = 255;

/// Opcode of a packet of player data.
pub const PLAYER_DATA: u8 = 254;

/// Columns of the player sprite sheet.
pub const PLAYER_SPRITE_COL: u32 = 4;

/// Rows of the player sprite sheet.
pub const PLAYER_SPRITE_ROW: u32 = 16;

/// Number of enemies spawned over the level at the start.
pub const NUMBER_OF_ENEMIES: u32 = 10;

/// A coin pot, and how often it has been touched.
#[derive(Debug, Clone, Copy)]
pub struct Pot {
    pub touch: u8,
}

/// Number of players that have joined the server.
#[derive(Debug, Clone, Copy)]
pub struct PlayerCount {
    pub count: u8,
}

/// The network id this client was given by the server.
#[derive(Debug, Clone, Copy)]
pub struct ClientId {
    pub id: u8,
}

impl ClientId {
    /// Id 0, which a client holds until the server assigns one.
    pub fn new() -> (c: ClientId)
        ensures
            c.id == 0,
    {
        ClientId { id: 0 }
    }
}

} // verus!
