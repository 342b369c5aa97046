//! The server, its command line and its dashboard.

pub mod activity;
pub mod cli;
pub mod config;
pub mod connect;
pub mod connect_laws;
pub mod error;
pub mod index;
pub mod jobs;
pub mod json;
pub mod order;
pub mod server_laws;
pub mod session;
pub mod sessions;
pub mod state;
pub mod supervise;
pub mod supervise_laws;
pub mod tui;
pub mod v2;
