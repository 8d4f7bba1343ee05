//! The chat panel.

pub mod channel_name;
pub mod laws;
pub mod message;
pub mod panel;
pub mod timestamp;
pub mod timestamp_laws;

pub use panel::{ChatPanel, Event};
