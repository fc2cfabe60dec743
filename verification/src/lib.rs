//! Sport results from DAVID21+ and Meyton result lists: parsing, club name
//! matching, podium and participation exports, import rules and web views.
pub mod application;
pub mod archive;
pub mod cli;
pub mod export;
pub mod import;
pub mod ingest;
pub mod paths;
pub mod pdf;
pub mod sport_results;
pub mod storage;
pub mod template;
pub mod text;
pub mod web;
