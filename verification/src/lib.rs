//! Registry management for Wine-style compatibility prefixes.
//!
//! The crate models the text-based `.reg` registry files that an emulation
//! layer keeps under a prefix directory: a hierarchical key/value store that
//! can be parsed from and serialized back to the "regedit5" dialect, a typed
//! settings facade over that store, and a time-bounded cache of loaded
//! registries.  All file and clock access is left to the caller: the store
//! works on strings, and the cache takes the current time as an argument.

pub mod cache;
pub mod codec;
pub mod editor;
pub mod error;
pub mod laws;
pub mod model;
pub mod registered;
pub mod roundtrip;
pub mod schema;
pub mod store;
pub mod strutil;
