//! Incremental encoder for a live telemetry feed.
//!
//! Events of different kinds are appended, one at a time, to a reusable byte
//! buffer and sealed into one flat JSON array `[tag, payload, tag, payload, ..]`.
//!
//! - [`feed`] holds the message kinds, their wire tags and the encoder.
//! - [`types`] holds the values that messages carry.
//! - [`json`] renders the leaf values: numbers, strings and instants.
//! - [`reading`] says where the elements of a JSON array begin and end.
//! - [`values`] shows that numbers and strings are such elements.
//! - [`batch`] states what a row of pushes puts on the wire.

pub mod batch;
pub mod feed;
pub mod json;
pub mod reading;
pub mod types;
pub mod values;

pub use feed::{
    AddedChain, AddedNode, BestBlock, FeedMessage, FeedMessageSerializer, RemovedChain, Serialized,
    Version,
};
pub use json::EncodingError;
pub use types::{BlockNumber, NodeDetails, NodeHardware, NodeId, NodeStats, RawJson, Timestamp};
