//! Core of a terminal typing-practice game: word pool, rolling display
//! window, round state machine and stopwatch.

pub mod config;
pub mod engine;
pub mod error;
pub mod pool;
pub mod text;
pub mod timer;
pub mod window;
