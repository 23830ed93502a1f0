//! Launch and configuration logic for running Semgrep as a language server.
//!
//! [`command`] resolves the command that starts the server from the user's
//! settings and from what a search for the executable found. [`options`]
//! builds the initialization options sent to the server: a fixed baseline
//! with the user's overrides merged in by [`merge`], a deep merge of
//! configuration [`document`]s. [`merge_laws`] proves what holds of every
//! merge.

pub mod command;
pub mod document;
pub mod merge;
pub mod merge_laws;
pub mod options;
