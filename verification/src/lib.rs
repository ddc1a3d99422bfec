pub mod config;
pub mod game;
pub mod utils;
