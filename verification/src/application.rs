//! What the application shows: filters and the rows of its views.
pub mod query;
