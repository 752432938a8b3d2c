//! Core of a chess-GUI backend: games hold a tree of explored moves over a
//! starting position, a state container keys games by identifier, and a
//! request/response layer dispatches line-oriented commands to the state.
//!
//! Chess rules themselves (FEN parsing, move legality, SAN rendering) are
//! delegated to the `shakmaty` crate through the trusted adapter in `rules`.

pub mod errors;
pub mod rules;
pub mod game;
pub mod api;
pub mod state;
