//! The dashboard: its state, its keys, what it asks the server and what it shows.

pub mod app;
pub mod client;
pub mod dashboard_laws;
pub mod format;
pub mod poll;
pub mod run;
pub mod ui;
