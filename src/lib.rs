//! Word-guessing assistant: a positional letter-frequency model, a feedback
//! constraint engine, and the decision logic of a guessing session.

pub mod config;
pub mod error;
pub mod filter_logic;
pub mod game_engine;
pub mod game_loop;
pub mod input;
pub mod letter_table;
pub mod output;
pub mod session;
pub mod setup;
pub mod shared_state;
pub mod text;
pub mod word_analyzer;
pub mod word_parser;
