//! Peer-lifecycle core for a LAN clipboard and file synchronizer.
//!
//! The verified library holds everything the system decides or computes:
//! the signaling wire codec, discovery bookkeeping, the per-peer connection
//! state machine and registry with its bounded send queues, the chunked
//! transfer protocol with its frame codec, clipboard loop suppression, and
//! the reconnection policy. The unverified shell around it only moves
//! bytes, sockets and OS clipboard contents.

pub mod clipboard;
pub mod connection;
pub mod discovery;
pub mod frames;
pub mod retry;
pub mod signaling;
pub mod transfer;
