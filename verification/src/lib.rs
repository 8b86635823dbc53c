//! Core of a benchmark that snapshots a remote accessibility object tree over
//! D-Bus twice — once through the brokered session bus and once over direct
//! peer-to-peer connections — and compares the two runs for latency and
//! structural agreement.
//!
//! The tree is discovered iteratively: a forward pass walks the remote graph
//! with an explicit work stack and appends one count-annotated record per
//! finished node, and a fold-back pass reconstructs the tree from that flat
//! list. All decisions of the algorithm (identity bookkeeping, fan-out limits,
//! record keeping, reconstruction, target matching, reporting) live here with
//! contracts; the RPC round trips themselves are driven by the surrounding
//! binary.

pub mod engine;
pub mod peers;
pub mod report;
pub mod resolve;
pub mod tree;
