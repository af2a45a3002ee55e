//! Game logic of the Cuscuta dungeon crawler: the vector clock that orders
//! network packets, the room map and collision grids of the dungeon
//! generator, the Markov attribute state of the room generator, and the
//! sprite-frame state machines of the player animations.

mod rng;

pub mod client;
pub mod collision;
pub mod cuscuta_resources;
pub mod markov_chains;
pub mod network;
pub mod player;
pub mod room_gen;
pub mod server;
