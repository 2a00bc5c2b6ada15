//! Verified core of a workspace minimap overlay for the Niri compositor.

pub mod config;
pub mod decorations;
pub mod ipc;
pub mod layout;
pub mod model;
pub mod monitors;
pub mod order;
pub mod stream;
pub mod update;
pub mod visibility;
pub mod text;
