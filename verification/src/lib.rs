//! Turns scraped classbook pages of a vocational-training platform into a
//! per-week training-record document: free-text activity descriptions are
//! canonicalized by an ordered rewrite pipeline, entries are reconciled
//! against attendance records, bucketed into ISO calendar weeks, and each
//! week is rendered onto a fixed spreadsheet grid.
//!
//! Network transport, session handling, configuration-file reading and the
//! final workbook file are outside collaborators; the library works on
//! plain values and states what it computes.
pub mod attendance;
pub mod buckets;
pub mod chars;
pub mod config;
pub mod course;
pub mod dates;
pub mod entry;
pub mod fetch;
pub mod normalize;
pub mod render;
