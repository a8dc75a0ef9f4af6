//! Deterministic rollback-netcode core for a peer-to-peer space shooter.
//!
//! The crate advances a fixed-point simulation frame by frame from per-player
//! input bitmasks, buffers local and remote inputs while tracking which are
//! confirmed and which merely predicted, keeps a window of state snapshots,
//! rolls back and re-simulates when a prediction is proven wrong, and computes
//! a per-frame checksum with which peers detect divergence.

pub mod checksum;
pub mod codec;
pub mod components;
pub mod config;
pub mod rollback;
pub mod simulator;
pub mod sync;
