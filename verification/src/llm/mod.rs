pub mod analyzer;
pub mod config;
pub mod json;
