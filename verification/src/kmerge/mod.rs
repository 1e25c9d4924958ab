//! The k-way merge: its entries, the order among them, and the engine.

pub mod engine;
pub mod heap_entry;
pub mod laws;
pub mod parts;
pub mod ranking;
pub mod scripted;

pub use self::engine::KMerge;
