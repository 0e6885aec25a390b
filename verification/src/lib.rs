//! Networked state-synchronisation core of a small real-time multiplayer game.
//!
//! A server holds the authoritative position of every connected player; each
//! client mirrors what the server tells it. The crate holds the message
//! catalogue and its registry, the framed wire codec, the server's connection
//! table, the client's connection state, the world store and the per-tick
//! steps of both sides. Sockets, windows and keyboards belong to the caller.

pub mod client;
pub mod codec;
pub mod connection;
pub mod ident;
pub mod keyed;
pub mod messages;
pub mod registry;
pub mod stream;
pub mod sync;
pub mod text;
pub mod wire;
pub mod world;

pub use crate::ident::{PlayerId, SessionId};
pub use crate::messages::{
    Actions, Connected, Direction, Message, MessageKind, NewChatMessage, Position, Spawn,
    UserChatMessage,
};
pub use crate::registry::{
    client_register_network_messages, server_register_network_messages, Registry, RegistryError,
};
pub use crate::world::{Me, Player, WorldState};
