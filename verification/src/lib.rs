//! Chess analysis that explains why a move was good or bad, built from facts
//! that are counted on the board rather than guessed.

pub mod score;
pub mod classify;
pub mod text;
pub mod board;
pub mod see;
pub mod position;
pub mod motif;
pub mod feature;
pub mod uci;
pub mod progress;
pub mod lang;
pub mod prompt;
pub mod types;
pub mod book;
pub mod eco;
pub mod engine;
pub mod tree;
pub mod outlook;
pub mod pipeline;
pub mod driver;
pub mod report;
pub mod opening;
pub mod pgn;
pub mod gate;
pub mod session;
pub mod api;
pub mod json;
pub mod messages;
pub mod stream;
pub mod cli;
