//! Locates marker directories (`.markerdir`) beneath a root path, computes their
//! recursive disk usage, classifies the owning project, and supports a
//! safety-checked, reversible deletion workflow with a bounded, persisted
//! deletion history.

pub mod app;
pub mod cli;
pub mod clock;
pub mod codec;
pub mod config;
pub mod filter;
pub mod history;
pub mod project;
pub mod report;
pub mod text;
pub mod trash;
pub mod ui;
pub mod scanner;
pub mod utils;
