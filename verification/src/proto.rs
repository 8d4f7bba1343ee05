//! Channels as the server describes them.

use vstd::prelude::*;

verus! {

/// Who can see a channel.
#[derive(Clone, Copy, Debug, PartialEq, Eq, Structural)]
pub enum ChannelVisibility {
    Public,
    Members,
}

/// A channel in a message from the server.
#[derive(Debug)]
pub struct Channel {
    pub id: u64,
    pub name: String,
    pub visibility: ChannelVisibility,
}

} // verus!
