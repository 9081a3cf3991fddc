//! Move chooser for a two-player territory game: the board model, the
//! placement rules, the scoring heuristics and the strategies that pick a move.

pub mod ai;
pub mod game_state;
pub mod output;
pub mod parser;
pub mod placement;
pub mod scan;
pub mod score;
pub mod utils;
