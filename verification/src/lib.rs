//! Client-side pairing engine for a local network bridge device.
//!
//! The library discovers candidate bridge addresses, builds and parses the
//! byte-level messages of the pairing protocol, and drives a bounded,
//! retrying authorization loop through a pure state machine. All network
//! and file I/O lives outside the library; callers hand in the bytes they
//! received and perform the actions the coordinator decides on.

pub mod attempt;
pub mod coordinator;
pub mod discovery;
pub mod json;
pub mod store;
pub mod types;
