//! Offline command-line knowledge assistant core.
//!
//! The library holds the verified logic of the two pipelines: parsing
//! reference pages into command records, planning the ingestion of those
//! records into a vector store, and ranking the matches that come back
//! from a nearest-neighbor query.

pub mod ingest;
pub mod parser;
pub mod rank;
pub mod text;
