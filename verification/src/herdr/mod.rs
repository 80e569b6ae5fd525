//! Herdr protocol requests and the plugin's environment.

pub mod environment;
pub mod client;
