//! Interactive code search: the verified core of the `ripf` terminal tool.
pub mod app;
pub mod cli;
pub mod config;
pub mod keys;
pub mod open;
pub mod preview;
pub mod print;
pub mod rank;
pub mod rg;
pub mod search;
pub mod state;
pub mod text;
pub mod view;
