pub mod bench;
pub mod binding;
pub mod classify;
pub mod cli;
pub mod clock;
pub mod config;
pub mod error;
pub mod extract;
pub mod inspector;
pub mod jev;
pub mod json;
pub mod judge;
pub mod merge;
pub mod metadata;
pub mod number;
pub mod order;
pub mod pdf;
pub mod policy;
pub mod run;
pub mod split;
pub mod text;
