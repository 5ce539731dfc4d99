//! Core logic of the `re` command line client: number formatting, backup
//! integrity checks for pruning, configuration contexts, report counting and
//! the shared progress statistics, each stated against a mathematical model.

pub mod commands;
pub mod config;
pub mod connection;
pub mod errors;
pub mod ids;
pub mod input;
pub mod printer;
pub mod progress;
pub mod text;
pub mod thousands;
pub mod token;
