# cuscuta

The game logic of Cuscuta, a networked dungeon crawler, as a library whose
behaviour is stated in contracts and proved.

- `src/room_gen.rs`: the dungeon map and its rooms; placing rooms beside
  doors, working out doors, inner walls and collision grids, remembering
  room sizes by depth, and moving the players through doors.
- `src/collision.rs`: marking a collision tile of the current room.
- `src/markov_chains.rs`: the attribute states the room generator keeps
  from room to room.
- `src/network.rs`: the vector clock that orders packets, and the packet
  headers.
- `src/server.rs`, `src/client.rs`: the door agreement of the players, id
  hand-out, and the tile codes of the map packet on both ends.
- `src/player.rs`: the sprite-frame state machines of swings, rolls and
  walks, and item pick-up.
- `src/rng.rs`: the random draws, from `rand`.

`app/` holds what stays outside the proofs: the UDP server and a headless
client, the serde copies of the packets, and the floating-point geometry
and Markov matrices.
