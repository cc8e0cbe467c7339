//! A registry of uniquely identified kitties: minting, per-owner ownership
//! lists of bounded length, transfers, price listings and purchases, each an
//! all-or-nothing state transition over a store with a proved invariant.

pub mod dna;
pub mod laws;
pub mod pallet;
pub mod types;

pub use pallet::{Ledger, Pallet};
pub use dna::{derive_dna, encode_dna_payload};
pub use types::{Error, Event, ExecutionContext, Kitty, LedgerError};
