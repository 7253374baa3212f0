pub mod analysis;
pub mod analyze;
pub mod analyzer;
pub mod cli;
pub mod config;
pub mod config_error;
pub mod context;
pub mod engine;
pub mod error;
pub mod exit_code;
pub mod finding;
pub mod gate;
pub mod keyed;
pub mod order;
pub mod report;
pub mod resolver;
pub mod rule;
pub mod seqs;
pub mod store;
pub mod text;
pub mod tool;
