//! Control-plane surface of a blockchain node.
//!
//! The crate models the node's shared state — a ledger of blocks and a
//! mempool of pending transactions over an unspent-output set — and verifies
//! the request-dispatch logic that reads and mutates that state: route
//! resolution, query handlers, and the atomic transaction-submission
//! pipeline. Network and HTTP I/O stay outside; the library exposes pure
//! state transitions with contracts.

pub mod api;
pub mod hash;
pub mod ledger;
pub mod mempool;
pub mod strutil;
pub mod transaction_generator;
pub mod tx;
pub mod urlparse;

use vstd::prelude::*;

verus! {

/// Number of trailing blocks regarded as not yet sufficiently confirmed.
pub const CONFIRMATION_DEPTH: usize = 6;

} // verus!
