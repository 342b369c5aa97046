//! The decision-making core of the AstroBurst image server.

pub mod fits;
pub mod server;
pub mod text;
pub mod text_laws;
