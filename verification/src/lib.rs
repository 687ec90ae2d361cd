//! A proof-of-existence claim registry.
//!
//! An account claims a proof, an opaque string of bytes, at the block number
//! at which the claim is made. The owner of a claim may hand it to another
//! account or revoke it. [`pallet::Pallet`] is the registry, [`model`] says
//! in mathematical terms what every call does, [`rules`] holds the tests that
//! a call has to pass, and [`laws`] proves what holds of every sequence of
//! calls.

pub mod laws;
pub mod model;
pub mod pallet;
pub mod rules;

pub use model::{AccountId, BlockNumber, Call, Notice, Registry};
pub use pallet::{Config, Error, Event, Pallet};
