//! Verified core of a Herdr plugin that tiles panes as a binary space
//! partition: layout presets, directional moves, split toggling, and the
//! journaled plan that rebuilds a tab's pane tree.

pub mod preset;
pub mod rounding;
pub mod paths;
pub mod text;
pub mod tree;
pub mod rebuild;
pub mod action;
pub mod config;
pub mod features;
pub mod herdr;
