//! An authoritative client–server entity synchronization demo over a
//! simulated lossy, latent network: client-side prediction, server
//! reconciliation, and remote-entity interpolation, all driven by a
//! fixed-rate simulation tick independent of frame rate.
//!
//! Positions are fixed-point integers; wall-clock time enters as plain
//! millisecond values supplied by the caller, so the whole simulation is
//! reproducible from its inputs (latency and loss draws excepted).

pub mod assoc;
pub mod client;
pub mod net;
pub mod server;
pub mod sim;
pub mod ticktimer;
