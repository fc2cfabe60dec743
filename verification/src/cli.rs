//! The commands of the command line and their arguments.
use std::path::PathBuf;

use vstd::prelude::*;

verus! {

pub const DEFAULT_SOURCE_NAME: &'static str = "default";

pub const DEFAULT_DOWNLOAD_DIR: &'static str = "data/downloads";

pub const DEFAULT_MANUAL_REVIEW_DIR: &'static str = "data/manual-review";

pub const DEFAULT_CRAWL_REPORT: &'static str = "reports/latest-crawl-report.json";

pub const DEFAULT_CRAWL_HTML_REPORT: &'static str = "reports/latest-crawl-report.html";

pub const DEFAULT_DATABASE_PATH: &'static str = "data/pdf-explorer.sqlite";

/// The command line.
#[derive(Debug)]
pub struct Cli {
    pub command: Commands,
}

/// The commands.
#[derive(Debug)]
pub enum Commands {
    /// Extract text and basic metadata from a PDF.
    Parse { input: PathBuf, format: OutputFormat, min_text_chars: usize },
    /// Extract DAVID21+ sport result lists into structured JSON.
    ParseSport { input: PathBuf, min_text_chars: usize },
    /// Follow a page, download linked PDFs, detect changes, classify them and write a report.
    CrawlReport(Box<CrawlReportArgs>),
    /// Export filtered podium shooters from a crawl report into JSON and HTML.
    ExportPodium(Box<ExportPodiumArgs>),
    /// Match known focus clubs against another source where participation matters.
    ExportParticipation(Box<ExportParticipationArgs>),
    /// Combine podium and participation exports into one club-oriented report.
    ExportCombined(Box<ExportCombinedArgs>),
    /// Export podium JSON and HTML from the local database.
    ExportDbPodium(Box<ExportDbPodiumArgs>),
    /// Export combined LM medal and DM participation from the local database.
    ExportDbCombined(Box<ExportDbCombinedArgs>),
    /// Import a podium export JSON into the local database.
    ImportPodium(ImportPodiumArgs),
    /// Import a participation export JSON into the local database.
    ImportParticipation(ImportParticipationArgs),
    /// Manage manual name corrections used by database imports.
    ManualOverride(ManualOverrideArgs),
    /// Remove generated state, downloads, manual-review files and reports.
    Clean(CleanArgs),
    /// Manage the local SQLite database.
    Db(DbArgs),
    /// Run the local web interface on the database.
    Serve(ServeArgs),
}

/// Where the web interface listens by default.
pub const DEFAULT_BIND_ADDRESS: &'static str = "127.0.0.1:7878";

#[derive(Debug)]
pub struct ServeArgs {
    pub database: PathBuf,
    pub bind: String,
}

#[derive(Debug)]
pub struct CrawlReportArgs {
    pub url: String,
    pub source_name: String,
    pub state_dir: PathBuf,
    pub download_dir: PathBuf,
    pub manual_review_dir: PathBuf,
    pub report: PathBuf,
    pub html_report: PathBuf,
    pub focus: String,
    pub focus_association_code: String,
    pub year: Option<String>,
    pub extra_pdf_urls: Vec<String>,
    pub max_depth: usize,
    pub max_pages: usize,
    pub min_text_chars: usize,
}

#[derive(Debug)]
pub struct ExportPodiumArgs {
    pub crawl_report: PathBuf,
    pub output: PathBuf,
    pub html_output: PathBuf,
    pub focus_association_code: String,
    pub max_place: u32,
    pub min_text_chars: usize,
    pub override_database: Option<PathBuf>,
}

#[derive(Debug)]
pub struct ExportParticipationArgs {
    pub club_source_report: PathBuf,
    pub results_report: PathBuf,
    pub output: PathBuf,
    pub html_output: PathBuf,
    pub focus_association_code: String,
    pub min_text_chars: usize,
}

#[derive(Debug)]
pub struct ExportCombinedArgs {
    pub podium_export: PathBuf,
    pub participation_export: PathBuf,
    pub output: PathBuf,
    pub html_output: PathBuf,
}

#[derive(Debug)]
pub struct ExportDbPodiumArgs {
    pub database: PathBuf,
    pub year: i64,
    pub competition_scope: String,
    pub focus_association_code: String,
    pub max_place: u32,
    pub output: PathBuf,
    pub html_output: PathBuf,
}

#[derive(Debug)]
pub struct ExportDbCombinedArgs {
    pub database: PathBuf,
    pub year: i64,
    pub focus_association_code: String,
    pub max_place: u32,
    pub output: PathBuf,
    pub html_output: PathBuf,
}

#[derive(Debug)]
pub struct ImportPodiumArgs {
    pub input: PathBuf,
    pub database: PathBuf,
}

#[derive(Debug)]
pub struct ImportParticipationArgs {
    pub input: PathBuf,
    pub database: PathBuf,
}

#[derive(Debug)]
pub struct ManualOverrideArgs {
    pub command: ManualOverrideCommands,
}

#[derive(Debug)]
pub enum ManualOverrideCommands {
    /// Store a manual club name correction.
    AddClub(ManualOverrideValueArgs),
    /// Store a manual athlete name correction.
    AddAthlete(ManualOverrideValueArgs),
    /// List active manual corrections.
    List(ManualOverrideListArgs),
}

#[derive(Debug)]
pub struct ManualOverrideValueArgs {
    pub from: String,
    pub to: String,
    pub reason: Option<String>,
    pub database: PathBuf,
}

#[derive(Debug)]
pub struct ManualOverrideListArgs {
    pub database: PathBuf,
}

#[derive(Debug)]
pub struct CleanArgs {
    pub state_dir: PathBuf,
    pub download_dir: PathBuf,
    pub manual_review_dir: PathBuf,
    pub report_dir: PathBuf,
    pub archive_data_dir: PathBuf,
    pub tmp_dir: PathBuf,
}

#[derive(Debug)]
pub struct DbArgs {
    pub command: DbCommands,
}

#[derive(Debug)]
pub enum DbCommands {
    /// Create the SQLite database file if it does not exist.
    Init(DatabaseArgs),
    /// Apply all pending database migrations.
    Migrate(DatabaseArgs),
}

#[derive(Debug)]
pub struct DatabaseArgs {
    pub database: PathBuf,
}

/// How `parse` prints a document.
#[derive(Clone, Copy, Debug, PartialEq, Eq, Structural)]
pub enum OutputFormat {
    Text,
    Json,
}

} // verus!
