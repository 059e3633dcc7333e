//! Serialization to the persisted byte layout.

pub mod encodable;
pub mod impls;

pub use encodable::Encodable;
