//! Authoritative backend core for a turn-based grid game played over
//! persistent bidirectional connections.
//!
//! The crate holds the pieces of the server that own and mutate game state:
//! the game data types ([`game`]), the coordinator that owns all player
//! state and the session-to-player mapping ([`game_controller`]), the
//! per-connection relay vocabulary ([`client_controller`]), and the JSON
//! wire codec — what the server writes ([`protocol`]), what it reads back
//! ([`parse`]), and the proof that the two agree ([`round_trip`]).
//! Transport, sockets and process bootstrap live outside this crate; they
//! hand plain values in and carry plain values out.

pub mod client_controller;
pub mod digits;
pub mod game;
pub mod game_controller;
pub mod parse;
pub mod protocol;
pub mod round_trip;
pub mod session_map;
