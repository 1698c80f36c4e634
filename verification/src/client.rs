//! The handle of the peer that a message came from.

use vstd::prelude::*;

verus! {

/// Identifies the connection that a message arrived on.
#[derive(Debug, Clone, Copy, PartialEq, Eq, Structural)]
pub struct Client {
    pub id: u64,
}

} // verus!
