//! Core logic of a desktop screen/audio recording coordinator.
//!
//! The library owns the session state machine, the encoder command
//! builder, the on-disk session catalog rules, and the parsers for the
//! encoder's device listing and the disk-capacity query. Process
//! spawning, window glue and other I/O live outside, in a thin shell
//! that hands this crate plain values.

pub mod command;
pub mod devices;
pub mod disk;
pub mod errors;
pub mod listener;
pub mod metadata;
pub mod options;
pub mod paths;
pub mod store;
pub mod supervisor;
pub mod text;
