//! Liquidity constraints of the engine: what happens to the unfilled
//! remainder when the participation limit binds.

use vstd::prelude::*;

verus! {

/// Policy for handling unfilled remainder when the liquidity limit is hit.
#[derive(Debug, Clone, Copy, PartialEq, Eq, Structural)]
pub enum RemainderPolicy {
    /// Carry unfilled remainder to the next bar as a pending order.
    Carry,
    /// Cancel the unfilled remainder immediately.
    Cancel,
}

} // verus!
