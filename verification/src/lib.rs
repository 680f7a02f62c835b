//! A two-player stone-sowing board game with a Monte-Carlo move evaluator.

pub mod ai;
pub mod board;
pub mod connmanager;
pub mod field;
pub mod laws;
pub mod render;
pub mod sowing;

pub use ai::{game_playout, get_random_number, random_playout, AI};
pub use board::{GameState, MoveStatistic};
pub use field::{Direction, GameError, OnePlayersField};
