//! The synchronization core of a wallet: it keeps a local mirror of the
//! wallet's coins, derived addresses, identities and token holders, and
//! brings it in line with what the peers of the network report.
//!
//! - [`derivation`]: the derivation indices of the two chains, dense from 0.
//! - [`store`]: the coin state store and its transactions.
//! - [`sync`]: applying a peer's report, choosing the next peer, resyncing.
//! - [`peers`]: the registry of active and banned peers.
//! - [`wallet`] and [`settings`]: the queries and commands built on these.
//!
//! Everything here is computed on plain values. Reading from disk, talking
//! to peers and deriving keys are left to the caller, who hands in what
//! they gave.

pub mod address;
pub mod app_state;
pub mod bytes;
pub mod derivation;
pub mod error;
pub mod models;
pub mod offer;
pub mod peers;
pub mod settings;
pub mod store;
pub mod sync;
pub mod wallet;
