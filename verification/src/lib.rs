//! Core building blocks of a small peer-to-peer stack: an authenticated
//! datagram layer, overlay groups on top of it, and forward-error-corrected
//! bulk transfers.
//!
//! The library holds state and rules only. Sockets, timers and tasks belong
//! to the embedding program, which feeds events in and carries actions out.
pub mod utils;
pub mod adnl_node;
pub mod overlay_node;
pub mod proto;
pub mod rldp_node;
pub mod subscriber;

pub use adnl_node::AdnlNode;
pub use overlay_node::{
    OverlayNode, OverlayShard, OverlayShardMetrics, OverlayShardOptions, MAX_OVERLAY_PEERS,
};
pub use rldp_node::encoder::{RaptorQEncoder, MAX_TRANSMISSION_UNIT};
pub use subscriber::{QueryBundleConsumingResult, QueryConsumingResult};
