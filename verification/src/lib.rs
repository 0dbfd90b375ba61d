//! A chess rules engine with an alpha-beta search opponent.
//!
//! The library keeps a legal chess position, validates and applies moves
//! under the full rule set (castling, en passant, promotion, check safety),
//! classifies the game state (check, checkmate, stalemate, material draw),
//! and picks moves for an automated player by depth-limited minimax search
//! with alpha-beta pruning.

pub mod attack;
pub mod classify;
pub mod eval;
pub mod filter;
pub mod game;
pub mod laws;
pub mod moves;
pub mod parse;
pub mod pieces;
pub mod search;

pub use classify::State;
pub use game::Game;
pub use game::Model;
pub use moves::IllegalMove;
pub use pieces::Pieces;
