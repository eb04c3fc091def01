//! A process-wide configuration store: a JSON document is parsed once into an
//! in-memory key-value table, and typed accessors retrieve values by key.
//!
//! The crate models every configuration value as a closed sum type
//! ([`value::ConfigValue`]) whose mathematical meaning is a [`value::ValModel`]
//! tree; every accessor's contract is stated over that model.

pub mod json;
pub mod store;
pub mod value;

pub use store::find_name;
pub use store::ConfigStore;
pub use value::ConfigNum;
pub use value::ConfigValue;
