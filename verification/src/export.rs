//! Podium, participation and combined exports.
pub mod database;
pub mod exporters;
pub mod html;
pub mod html_rows;
pub mod matching;
pub mod models;
pub mod pages;

pub use database::{DatabaseCombinedExporter, DatabasePodiumExporter};
pub use exporters::{CombinedExporter, ParticipationExporter, PodiumExporter};
pub use models::{
    CombinedExportConfig, DatabaseCombinedExportConfig, DatabasePodiumExportConfig, ManualNameOverrides, ManualReviewPdf, ParticipationExportConfig, PodiumEntry, EntryScore, ParticipationMatch,
    PodiumExportConfig, PodiumResultKind,
};
