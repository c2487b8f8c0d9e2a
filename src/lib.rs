//! An ownership registry for unique, non-fungible assets ("kitties").
//!
//! The state is an explicit [`Pallet`] value holding the registry of kitties,
//! the per-owner index of the ids each account holds, and the log of events.
//! Every operation validates all its preconditions before mutating anything,
//! so a failed call leaves the state exactly as it was.

pub mod dna;
pub mod pallet;
pub mod types;

pub use pallet::Pallet;
pub use types::{BlockContext, Error, Event, Kitty, Origin, Sale, MAX_OWNED};
