//! Decisions of the bar loop: what happens to each symbol after the execution
//! phases of a bar, which entry signals are admitted, and how a position's
//! manager intent reaches the order book.
//!
//! After the start-of-bar, intrabar and end-of-bar phases and the marking of
//! positions, a symbol on a void bar is left alone, no signal or position
//! manager runs before the warmup is over, a symbol already in a position is
//! managed instead of looking for a new entry, and every other symbol has its
//! signal evaluated. Signals are evaluated without any portfolio state: the
//! only thing the plan reads of the portfolio is whether a symbol is held.

use vstd::prelude::*;

use crate::domain::{mode_permits, OrderSide, PositionSide, Price, TradingMode};
use crate::ids::{IdGen, OrderId};
use crate::order_book::OrderBook;
use crate::ratchet::{
    apply_pm_intent, draws_id, enforce_ratchet, moves_stop, pm_intent_effect, ratchet, stop_after,
    stop_below_counter, stop_level, OrderIntent,
};

verus! {

/// What the loop does with one symbol after the execution phases of a bar.
#[derive(Debug, Clone, Copy, PartialEq, Eq, Structural)]
pub enum SymbolStep {
    /// Nothing: the bar is void or the warmup is not over.
    Skip,
    /// Look for an entry signal.
    EvaluateSignal,
    /// Run the position manager on the open position.
    ManagePosition,
}

/// The step for one symbol on bar `t`.
pub open spec fn symbol_step(t: usize, warmup_bars: usize, void: bool, in_position: bool) -> SymbolStep {
    if t < warmup_bars || void {
        SymbolStep::Skip
    } else if in_position {
        SymbolStep::ManagePosition
    } else {
        SymbolStep::EvaluateSignal
    }
}

/// The steps for all symbols on bar `t`, given which bars are void and which
/// symbols are held.
pub fn plan_bar(t: usize, warmup_bars: usize, void: &[bool], in_position: &[bool]) -> (s: Vec<SymbolStep>)
    requires
        void@.len() == in_position@.len(),
    ensures
        s@.len() == void@.len(),
        forall|i: int| 0 <= i < s@.len() ==> s@[i] == symbol_step(t, warmup_bars, void@[i], in_position@[i]),
{
    let mut out: Vec<SymbolStep> = Vec::new();
    let mut i: usize = 0;
    while i < void.len()
        invariant
            void@.len() == in_position@.len(),
            i <= void@.len(),
            out@.len() == i,
            forall|k: int| 0 <= k < i ==> out@[k] == symbol_step(t, warmup_bars, void@[k], in_position@[k]),
        decreases void@.len() - i,
    {
        let step = if t < warmup_bars || void[i] {
            SymbolStep::Skip
        } else if in_position[i] {
            SymbolStep::ManagePosition
        } else {
            SymbolStep::EvaluateSignal
        };
        out.push(step);
        i = i + 1;
    }
    out
}

/// An entry signal on `side` is admitted when the trading mode permits that
/// side and the signal filter passed it.
pub fn admit_entry(mode: TradingMode, side: OrderSide, filter_passed: bool) -> (b: bool)
    ensures
        b == (mode_permits(mode, side) && filter_passed),
{
    mode.permits_entry(side) && filter_passed
}

/// Position maintenance for one symbol: the manager's intent goes through
/// the ratchet against the position's current stop, then is applied to the
/// book, the stop order record and the current stop.
pub fn manage_position(
    intent: &OrderIntent,
    symbol: &str,
    side: PositionSide,
    quantity: i64,
    current_stop: &mut Option<Price>,
    book: &mut OrderBook,
    id_gen: &mut IdGen,
    stop_order_id: &mut Option<OrderId>,
    bar_index: usize,
)
    requires
        old(book).inv(),
        draws_id(ratchet(*intent, side, *old(current_stop)), side) ==> old(id_gen)@ < u64::MAX,
        moves_stop(ratchet(*intent, side, *old(current_stop)), side) ==> match *old(stop_order_id) {
            Some(old_id) => old(book)@.is_active(old_id) && old(book)@.order(old_id).filled_quantity > 0
                ==> i64::MIN <= old(book)@.order(old_id).quantity - old(book)@.order(old_id).filled_quantity <= i64::MAX,
            None => true,
        },
    ensures
        final(book).inv(),
        stop_below_counter(*old(stop_order_id), old(id_gen)@) ==> stop_below_counter(
            *final(stop_order_id),
            final(id_gen)@,
        ),
        *final(current_stop) == stop_after(ratchet(*intent, side, *old(current_stop)), side, *old(current_stop)),
        pm_intent_effect(
            ratchet(*intent, side, *old(current_stop)),
            symbol@,
            side,
            quantity,
            bar_index,
            old(book)@,
            final(book)@,
            old(id_gen)@,
            final(id_gen)@,
            *old(stop_order_id),
            *final(stop_order_id),
        ),
{
    let r = enforce_ratchet(intent, side, *current_stop);
    apply_pm_intent(&r, symbol, side, quantity, current_stop, book, id_gen, stop_order_id, bar_index);
}

/// No signal and no position manager runs during the warmup, nor on a void
/// bar; a symbol is never both looking for an entry and managed.
pub proof fn warmup_and_void_bars_are_skipped(t: usize, warmup_bars: usize, void: bool, in_position: bool)
    ensures
        t < warmup_bars || void ==> symbol_step(t, warmup_bars, void, in_position) == SymbolStep::Skip,
        symbol_step(t, warmup_bars, void, in_position) == SymbolStep::EvaluateSignal ==> !in_position,
        symbol_step(t, warmup_bars, void, in_position) == SymbolStep::ManagePosition ==> in_position,
{
}

/// A managed position's stop never loosens: after maintenance a long's stop
/// is at or above its previous stop and a short's at or below.
pub proof fn managed_stop_never_loosens(intent: OrderIntent, side: PositionSide, current: Option<Price>)
    requires
        current is Some,
    ensures
        ({
            let after = stop_after(ratchet(intent, side, current), side, current);
            &&& after is Some
            &&& side == PositionSide::Long ==> stop_level(after) >= stop_level(current)
            &&& side == PositionSide::Short ==> stop_level(after) <= stop_level(current)
        }),
{
}

} // verus!
