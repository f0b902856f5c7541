//! Channels between the nodes of a task graph, and the registry of node
//! names and identifiers that the channels are keyed by.
//!
//! Each node owns an [`InChannels`] set: one receiving endpoint per peer that
//! sends to it, either a bounded queue or a broadcast subscription. The
//! blocking receive, the all-of map and closing are here; the asynchronous
//! forms await the same endpoints and settle their results through
//! [`queue_outcome`], [`broadcast_outcome`] and [`race_outcome`].
pub mod channel;
pub mod content;
pub mod node;

pub use channel::{
    broadcast_outcome, queue_outcome, race_outcome, typed_outcome, InChannel, InChannels, RecvErr,
    SharedInChannel, TypedInChannels,
};
pub use content::Content;
pub use node::{EnvVar, Node, NodeId, NodeName, NodeTable};
