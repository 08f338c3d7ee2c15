pub mod config;
pub mod formatter;
