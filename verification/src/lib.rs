//! Custody and distribution state machine for pooled contributions.
//!
//! Value flows from contributors into a single global pool, from the pool's
//! admin into per-entity reserve vaults, from vaults into four-entity packs,
//! and from packs out to users.  Every account is identified by an address
//! derived deterministically from an ordered seed tuple, and every debit is
//! authorized by recomputing that derivation from data stored on the owning
//! account, never from free-form caller input.

pub mod bytes;
pub mod errors;
pub mod holdings;
pub mod laws;
pub mod ledger;
pub mod packs;
pub mod seeds;
pub mod state;
pub mod vaults;
