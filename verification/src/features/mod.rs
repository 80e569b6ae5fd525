//! The plugin's actions over a tab's pane tree.

pub mod move_window;
pub mod toggle_split;
pub mod layout;
