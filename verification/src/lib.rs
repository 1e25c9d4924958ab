//! Lazy adapters over producers that are polled one item at a time: a k-way
//! merge under a caller-supplied ordering, and a coalescer that fuses
//! adjacent items.
//!
//! A producer answers a poll with an item, with the end of its sequence, or
//! with "not ready yet". The engines in this crate never poll by themselves:
//! they say when the producer they hand out has to be polled, take the answer,
//! and decide what the caller is told. Every decision is a verified function
//! of the engine's state and of that answer.
//!
//! - [`KMerge`] merges any number of producers. Driven to its end over sorted
//!   producers and under a consistent order, it hands out a sorted
//!   interleaving of their items ([`kmerge::laws`]).
//! - [`Coalesce`] holds one item back and combines it with the next one as
//!   long as the caller's function agrees ([`coalesce::laws`]).
//! - [`comparators`] holds the orders: [`Compare`] and its ascending,
//!   descending and function-based implementations.
//!
//! The laws speak of engines that are driven against [`script`]ed producers,
//! which may stall at any time and may go on answering after their end.

pub mod coalesce;
pub mod comparators;
pub mod interleave;
pub mod kmerge;
pub mod peeked;
pub mod polled;
pub mod script;

pub use crate::coalesce::Coalesce;
pub use crate::comparators::Compare;
pub use crate::kmerge::KMerge;
pub use crate::peeked::Peeked;
pub use crate::polled::Polled;
