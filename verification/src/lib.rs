//! The logic of collaboration: channels and their paths, the chat panel, and calls.

pub mod calls;
pub mod channel;
pub mod channel_index;
pub mod chat_panel;
pub mod clock;
pub mod order;
pub mod proto;
pub mod text;
pub mod toolbar;
