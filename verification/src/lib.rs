//! A minimal mock of a cross-chain messaging endpoint's registration surface.
//!
//! The library models an account-based ledger in which each on-chain
//! application ("OApp") can be registered exactly once.  Registration creates
//! a record at a storage address derived deterministically from the fixed
//! seed `"OApp"` and the application's own address, stores the application's
//! delegate authority there, and debits the funding account for the
//! allocation cost.

pub mod addresses;
pub mod laws;
pub mod registry;
pub mod state;
