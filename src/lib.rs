//! Autopeering engine: salted peer distances, bounded neighborhoods, a neighbor
//! filter, request correlation and the peering protocol's state transitions;
//! and random ledger receipts for exercising code that consumes them.

pub mod hash;
pub mod peer;
pub mod salt;
pub mod local;
pub mod distance;
pub mod neighbor;
pub mod messages;
pub mod filter;
pub mod request;
pub mod manager;
pub mod receipt;
