//! The synthetic transaction generator: a stub collaborator that would
//! periodically construct and submit transactions among three parties.
//! Only its scheduling decision lives here; the timing loop that sleeps
//! between rounds belongs to the caller.

use vstd::prelude::*;

verus! {

/// The generator itself carries no state; a caller drives it with a turn
/// counter.
pub struct TransactionGenerator {}

impl TransactionGenerator {
    /// The turn after `i`: the generator cycles through three parties,
    /// each paying the next in round-robin order.
    pub fn next_turn(i: u8) -> (r: u8)
        requires
            i < 3,
        ensures
            r == (i + 1) % 3,
            r < 3,
    {
        (i + 1) % 3
    }
}

} // verus!
