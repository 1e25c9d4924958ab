//! Fusing adjacent items of one producer.

pub mod engine;
pub mod laws;

pub use self::engine::Coalesce;
