pub mod config;
pub mod parser;
pub mod project;
