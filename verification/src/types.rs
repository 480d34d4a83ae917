//! Core data types of the pairing engine.
//!
//! All textual data (addresses, usernames, JSON documents) is carried as
//! UTF-8 byte strings (`Vec<u8>`), which the byte-level codec works on
//! directly.

use vstd::prelude::*;

verus! {

/// The pairing result: a secret token plus the address of the bridge that
/// issued it.
#[derive(Clone)]
pub struct User {
    pub username: Vec<u8>,
    pub bridge_address: Vec<u8>,
}

/// A discovered candidate bridge, identified by its reachable address.
#[derive(Clone)]
pub struct Bridge {
    pub internalipaddress: Vec<u8>,
}

/// The outcome of one authorization attempt against one candidate.
pub enum AttemptOutcome {
    /// The bridge issued a credential.
    Credential(User),
    /// The bridge answered with its error shape: reachable, but not yet
    /// authorized (typically the link button has not been pressed).
    Rejected,
    /// Transport failure: the candidate could not be reached at all.
    Unreachable,
    /// The response could not be parsed as the expected shape.
    Malformed,
}

/// Failure of a discovery strategy.
#[derive(Clone, Copy, Debug, PartialEq, Eq, Structural)]
pub enum DiscoveryError {
    /// Transport, bind or decode failure.
    Failure,
    /// Discovery itself succeeded but the returned list was empty: the
    /// service is reachable but knows of no devices.
    NoCandidates,
}

impl Bridge {
    /// Wrap an address as a candidate bridge.
    pub fn new(internalipaddress: Vec<u8>) -> (b: Bridge)
        ensures
            b.internalipaddress@ == internalipaddress@,
    {
        Bridge { internalipaddress }
    }
}

} // verus!
