//! Scoring a judge against a corpus whose per-page truth is known.
//!
//! The two kinds of error are never added together: a page that needed OCR and did not get it
//! is a silent quality failure, a page that got OCR and did not need it costs money only.

pub mod collect;
pub mod corpus;
pub mod dotenv;
pub mod layout;
pub mod meter;
pub mod registry;
pub mod report;
pub mod run;
pub mod score;
