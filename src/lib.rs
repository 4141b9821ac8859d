pub mod collector;
pub mod config;
pub mod errors;
pub mod quantity;
pub mod scheduler;
pub mod types;
