//! An index of channels: the known channels by id, and the paths from root channels down.

pub mod edge_laws;
pub mod edges;
pub mod guard;
pub mod index;
pub mod laws;
pub mod model;
pub mod order_laws;
pub mod record_laws;
pub mod sorting;

pub use guard::ChannelPathsInsertGuard;
pub use index::ChannelIndex;
