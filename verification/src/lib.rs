//! A custodial balance ledger for a cross-chain transfer bridge.
//!
//! The ledger tracks how much each participant has deposited into a shared
//! pool, keeps a pool total and a depositor count exactly consistent with the
//! individual balances, and gates address-mapping configuration behind an
//! administrator identity.  All records live in a model of an expiring
//! key-value store whose entries must be touched to stay alive.

pub mod balance;
pub mod bridge;
pub mod laws;
pub mod store;

pub use bridge::{BridgeError, BridgeEvent, Counterparty, MultiChainBridge};
pub use store::Store;
