//! Server-side logic of a small networked game: connection bookkeeping,
//! packet routing, per-tick message handling and the lobby chat.

pub mod components;
pub mod network;
pub mod util;
