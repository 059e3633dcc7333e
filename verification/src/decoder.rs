//! Reading the persisted byte layout back.

pub mod decodable;
pub mod impls;
pub mod round_trip;

pub use decodable::Decodable;
