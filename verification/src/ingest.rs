//! The crawl of a result archive: its configuration and what it reports.
pub mod models;

pub use models::{
    AssociationPlacement, CrawlConfig, David21FocusSummary, David21Summary, PdfChangeStatus,
    PdfClassification, PdfReportItem, RemovedPdf,
};
