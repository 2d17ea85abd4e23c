//! The client handle callers use to run a pairing attempt.
//!
//! The client owns no transport; the caller drives a [`crate::pairing::PairSetup`]
//! session over its own connection and maps the outcome.

use vstd::prelude::*;

verus! {

/// A handle for pairing with discovered accessories.
pub struct HapClient {}

impl HapClient {
    /// A fresh client.
    pub fn new() -> (r: Self) {
        HapClient {}
    }
}

/// A caller-facing pairing failure.
#[derive(Debug, Clone, Copy, PartialEq, Eq, Structural)]
pub enum HapError {
    PairingFailed,
}

} // verus!
