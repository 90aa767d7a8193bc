pub mod actions;
pub mod commands;
pub mod config;
pub mod gh;
pub mod meta;
pub mod utils;
