//! Recorder of commands and their output: the parsing, filtering and rendering
//! logic, verified.

pub mod archive;
pub mod calendar;
pub mod chars;
pub mod cli;
pub mod config;
pub mod filter;
pub mod laws;
pub mod model;
pub mod query;
pub mod render;
pub mod stored;
pub mod text;
pub mod timequery;
