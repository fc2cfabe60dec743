//! Storage of canonical clubs, athletes and results.
pub mod database;
pub mod models;

pub use database::{Database, DatabaseConfig, MigrationReport};
