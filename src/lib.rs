//! Session broker for a two-player board game: identifiers, the board model,
//! the message schema, the invite-token counter, the shared game registry with
//! its dispatcher, the connection state machine, and the reading of typed moves.
pub mod connection;
pub mod dispatch;
pub mod game;
pub mod id;
pub mod input;
pub mod proto;
pub mod registry;
pub mod token;
