//! The local SQLite database file.
use std::path::PathBuf;

use vstd::prelude::*;

verus! {

/// Where the database lives.
#[derive(Debug, Clone)]
pub struct DatabaseConfig {
    pub path: PathBuf,
}

/// What a migration run applied.
#[derive(Debug, Clone, PartialEq, Eq)]
pub struct MigrationReport {
    pub database_path: PathBuf,
    pub applied_migration_count: i64,
}

/// The local database.
#[derive(Debug)]
pub struct Database {
    config: DatabaseConfig,
}

impl Database {
    /// The configuration it was made with.
    pub closed spec fn spec_config(&self) -> DatabaseConfig {
        self.config
    }

    pub fn new(config: DatabaseConfig) -> (r: Self)
        ensures
            r.spec_config() == config,
    {
        Database { config }
    }

    /// Where the database lives.
    pub fn config(&self) -> (r: &DatabaseConfig)
        ensures
            *r == self.spec_config(),
    {
        &self.config
    }
}

} // verus!
