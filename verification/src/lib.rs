//! A small multiplayer drawing-game server: request routing, account and
//! question tables, response construction and the queue of static-file
//! requests, all with verified contracts.

pub mod bytes;
pub mod table;
pub mod routing;
pub mod text;
pub mod queue;
pub mod server;
pub mod peer;
pub mod args;
pub mod laws;
