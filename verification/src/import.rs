//! Imports of exports into the local database.
pub mod participation;
pub mod podium;
pub mod records;

pub use participation::{ParticipationImportConfig, ParticipationImportReport, ParticipationImporter};
pub use podium::{PodiumImportConfig, PodiumImportReport, PodiumImporter};
