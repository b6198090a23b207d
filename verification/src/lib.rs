//! Backing up a Clarify CRM workspace to BigQuery: everything that a run computes and decides.
//!
//! Requests are made, files are written and time passes outside of this crate. It says what to ask
//! for, what to write and what an answer leads to, and its contracts say the same.

pub mod admin;
pub mod backup;
pub mod cli;
pub mod clock;
pub mod commands;
pub mod config;
pub mod coverage;
pub mod envelope;
pub mod error;
pub mod fetch;
pub mod flat;
pub mod http;
pub mod json;
pub mod load;
pub mod orchestrate;
pub mod plan;
pub mod records;
pub mod rows;
pub mod runs;
pub mod schemas;
pub mod secret;
pub mod spool;
pub mod tables;
pub mod text;
pub mod views;
