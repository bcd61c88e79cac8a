//! Lifecycle and snapshot-history state machine for stateful containers:
//! named logical containers whose filesystem changes are preserved across
//! stop/start cycles by committing them into new image tags.
//!
//! The library holds the verified core: the registry of containers with its
//! uniqueness invariant, the create/start/stop/delete transition rules, the
//! snapshot-tag derivation, the operator settings, the runtime command
//! strings, and the persistence codec. Reading files, running the container
//! runtime and parsing the command line stay outside, handing the library
//! plain values.

pub mod codec;
pub mod commands;
pub mod decimal;
pub mod laws;
pub mod lifecycle;
pub mod model;
pub mod parse;
pub mod render;
pub mod settings;
