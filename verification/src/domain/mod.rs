pub mod types;
pub mod binary;
pub mod config;
