pub mod control;
pub mod config;
