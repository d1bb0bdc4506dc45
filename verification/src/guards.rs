//! Rejection guards: the reasons an intent can be refused, and the guard that
//! refuses new entries once too many positions are open.

use vstd::prelude::*;

use crate::text::{decimal_text, push_decimal};

verus! {

/// Why an intent was rejected.
#[derive(Debug, Clone, Copy, PartialEq, Eq, Structural)]
pub enum RejectionReason {
    VolatilityGuard,
    LiquidityGuard,
    MarginGuard,
    RiskGuard,
}

/// The display text of a rejection reason: the variant's name.
pub open spec fn reason_text(r: RejectionReason) -> Seq<char> {
    match r {
        RejectionReason::VolatilityGuard => "VolatilityGuard"@,
        RejectionReason::LiquidityGuard => "LiquidityGuard"@,
        RejectionReason::MarginGuard => "MarginGuard"@,
        RejectionReason::RiskGuard => "RiskGuard"@,
    }
}

impl RejectionReason {
    /// The reason's display text.
    pub fn to_string(&self) -> (s: String)
        ensures
            s@ == reason_text(*self),
    {
        match self {
            RejectionReason::VolatilityGuard => String::from_str("VolatilityGuard"),
            RejectionReason::LiquidityGuard => String::from_str("LiquidityGuard"),
            RejectionReason::MarginGuard => String::from_str("MarginGuard"),
            RejectionReason::RiskGuard => String::from_str("RiskGuard"),
        }
    }
}

/// A guard's refusal of an intent on one bar.
#[derive(Debug, Clone, PartialEq, Eq)]
pub struct Rejection {
    pub bar_index: usize,
    pub signal: String,
    pub reason: RejectionReason,
    pub context: String,
}

/// The context line of a risk rejection.
pub open spec fn risk_context(open_positions: nat, max_positions: nat) -> Seq<char> {
    "open_positions="@ + decimal_text(open_positions) + ", max_positions="@ + decimal_text(max_positions)
}

/// Reject when too many positions are open.
#[derive(Debug, Clone, Copy, PartialEq, Eq, Structural)]
pub struct RiskGuard {
    pub max_positions: usize,
}

impl RiskGuard {
    pub fn new(max_positions: usize) -> (g: Self)
        ensures
            g.max_positions == max_positions,
    {
        RiskGuard { max_positions }
    }

    /// Guard name for logging.
    pub fn name(&self) -> (n: &'static str)
        ensures
            n@ == "RiskGuard"@,
    {
        "RiskGuard"
    }

    /// Whether an intent is refused with `open_positions` positions open.
    pub fn rejects(&self, open_positions: usize) -> (b: bool)
        ensures
            b == (open_positions >= self.max_positions),
    {
        open_positions >= self.max_positions
    }

    /// Evaluate an intent on bar `bar_index`: refused exactly when the
    /// number of open positions has reached the maximum.
    pub fn evaluate(&self, bar_index: usize, open_positions: usize) -> (r: Option<Rejection>)
        ensures
            r is Some <==> open_positions >= self.max_positions,
            r matches Some(rej) ==> {
                &&& rej.bar_index == bar_index
                &&& rej.signal@ == "Long"@
                &&& rej.reason == RejectionReason::RiskGuard
                &&& rej.context@ == risk_context(open_positions as nat, self.max_positions as nat)
            },
    {
        if open_positions >= self.max_positions {
            let mut context = String::from_str("open_positions=");
            push_decimal(&mut context, open_positions);
            context.append(", max_positions=");
            push_decimal(&mut context, self.max_positions);
            Some(Rejection {
                bar_index,
                signal: String::from_str("Long"),
                reason: RejectionReason::RiskGuard,
                context,
            })
        } else {
            None
        }
    }
}

} // verus!
