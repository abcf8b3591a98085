//! Several named identity profiles (name, email, optional signing key,
//! optional SSH key) kept in one flat, dot-separated configuration namespace.
//!
//! A profile's fields live under `user.<id>.<field>`. This crate builds those
//! keys, says which writes an identity turns into, recovers the set of profile
//! identifiers from a list of stored key names, and proves how the two fit
//! together over a map model of the store.
pub mod chars;
pub mod config_key;
pub mod keys;
pub mod identity;
pub mod profiles;
pub mod laws;
