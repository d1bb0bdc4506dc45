//! Position-manager intents and the ratchet invariant on protective stops.

use vstd::prelude::*;

use crate::domain::{OrderSide, PositionSide, Price};
use crate::ids::{IdGen, OrderId};
use crate::order::{Order, OrderStatus, OrderType, OrderView, StatusView};
use crate::order_book::{BookView, OrderBook};

verus! {

/// What a position manager asks for on a bar.
#[derive(Debug, Clone, Copy, PartialEq, Eq, Structural)]
pub enum IntentAction {
    /// Leave the position and its orders as they are.
    Hold,
    /// Move the protective stop to `stop_price`.
    AdjustStop,
    /// Exit the position now.
    ForceExit,
    /// Move the take-profit target (not acted on by the engine).
    AdjustTarget,
}

/// A position manager's request for one position on one bar.
#[derive(Debug, Clone, Copy, PartialEq, Eq, Structural)]
pub struct OrderIntent {
    pub action: IntentAction,
    pub stop_price: Option<Price>,
}

impl OrderIntent {
    pub fn hold() -> (i: Self)
        ensures
            i == (OrderIntent { action: IntentAction::Hold, stop_price: None }),
    {
        OrderIntent { action: IntentAction::Hold, stop_price: None }
    }

    pub fn adjust_stop(stop_price: Price) -> (i: Self)
        ensures
            i == (OrderIntent { action: IntentAction::AdjustStop, stop_price: Some(stop_price) }),
    {
        OrderIntent { action: IntentAction::AdjustStop, stop_price: Some(stop_price) }
    }

    pub fn force_exit() -> (i: Self)
        ensures
            i == (OrderIntent { action: IntentAction::ForceExit, stop_price: None }),
    {
        OrderIntent { action: IntentAction::ForceExit, stop_price: None }
    }
}

/// The intent after the ratchet: a long's stop may only rise and a short's
/// may only fall, so a requested stop that would loosen the current one is
/// clamped to it. A stop adjustment without a price, or on a flat position,
/// becomes a hold; other intents pass through.
pub open spec fn ratchet(intent: OrderIntent, side: PositionSide, current_stop: Option<Price>) -> OrderIntent {
    match intent.action {
        IntentAction::AdjustStop => match intent.stop_price {
            None => OrderIntent { action: IntentAction::Hold, stop_price: None },
            Some(new_stop) => match side {
                PositionSide::Long => OrderIntent {
                    action: IntentAction::AdjustStop,
                    stop_price: Some(
                        match current_stop {
                            Some(cur) => if new_stop.0 >= cur.0 { new_stop } else { cur },
                            None => new_stop,
                        },
                    ),
                },
                PositionSide::Short => OrderIntent {
                    action: IntentAction::AdjustStop,
                    stop_price: Some(
                        match current_stop {
                            Some(cur) => if new_stop.0 <= cur.0 { new_stop } else { cur },
                            None => new_stop,
                        },
                    ),
                },
                PositionSide::Flat => OrderIntent { action: IntentAction::Hold, stop_price: None },
            },
        },
        _ => intent,
    }
}

/// Enforce the ratchet invariant on a position manager's intent for a
/// position on `side` whose protective stop is currently `current_stop`.
pub fn enforce_ratchet(intent: &OrderIntent, side: PositionSide, current_stop: Option<Price>) -> (r: OrderIntent)
    ensures
        r == ratchet(*intent, side, current_stop),
{
    match intent.action {
        IntentAction::AdjustStop => {
            let new_stop = match intent.stop_price {
                Some(p) => p,
                None => {
                    return OrderIntent::hold();
                },
            };
            match side {
                PositionSide::Long => {
                    let clamped = match current_stop {
                        Some(cur) => if new_stop.0 >= cur.0 { new_stop } else { cur },
                        None => new_stop,
                    };
                    OrderIntent::adjust_stop(clamped)
                },
                PositionSide::Short => {
                    let clamped = match current_stop {
                        Some(cur) => if new_stop.0 <= cur.0 { new_stop } else { cur },
                        None => new_stop,
                    };
                    OrderIntent::adjust_stop(clamped)
                },
                PositionSide::Flat => OrderIntent::hold(),
            }
        },
        _ => *intent,
    }
}

/// The level of a stop that is set.
pub open spec fn stop_level(stop: Option<Price>) -> i64 {
    match stop {
        Some(p) => p.0,
        None => 0,
    }
}

/// The ratchet invariant: after enforcement a long's stop is never below its
/// current stop and a short's never above; the stop is the requested one or
/// the current one; enforcing twice changes nothing.
pub proof fn ratchet_never_loosens(intent: OrderIntent, side: PositionSide, current_stop: Option<Price>)
    ensures
        ({
            let r = ratchet(intent, side, current_stop);
            &&& r.action == IntentAction::AdjustStop ==> r.stop_price is Some
            &&& (r.action == IntentAction::AdjustStop && current_stop is Some) ==> match side {
                PositionSide::Long => stop_level(r.stop_price) >= stop_level(current_stop),
                PositionSide::Short => stop_level(r.stop_price) <= stop_level(current_stop),
                PositionSide::Flat => false,
            }
            &&& r.action == IntentAction::AdjustStop ==> r.stop_price == intent.stop_price
                || r.stop_price == current_stop
            &&& ratchet(r, side, current_stop) == r
        }),
{
}

/// Stops set bar after bar through the ratchet form a monotone series: each
/// accepted stop becomes the current stop for the next bar, so a long's stop
/// never goes down and a short's never goes up.
pub proof fn ratchet_sequence_is_monotone(a: OrderIntent, b: OrderIntent, side: PositionSide, start: Option<Price>)
    requires
        ratchet(a, side, start).action == IntentAction::AdjustStop,
        ratchet(b, side, ratchet(a, side, start).stop_price).action == IntentAction::AdjustStop,
    ensures
        ({
            let first = ratchet(a, side, start).stop_price->0;
            let second = ratchet(b, side, Some(first)).stop_price->0;
            &&& side == PositionSide::Long ==> first.0 <= second.0
            &&& side == PositionSide::Short ==> first.0 >= second.0
        }),
{
}

/// The side of the order that closes a position (none for a flat one).
pub open spec fn exit_side(side: PositionSide) -> Option<OrderSide> {
    match side {
        PositionSide::Long => Some(OrderSide::Sell),
        PositionSide::Short => Some(OrderSide::Buy),
        PositionSide::Flat => None,
    }
}

/// The position's current stop after an intent: the requested level for a
/// priced stop adjustment on an open position, else unchanged.
pub open spec fn stop_after(intent: OrderIntent, side: PositionSide, current: Option<Price>) -> Option<Price> {
    match (intent.action, intent.stop_price, side) {
        (_, _, PositionSide::Flat) => current,
        (IntentAction::AdjustStop, Some(p), _) => Some(p),
        _ => current,
    }
}

/// A fresh standalone order placed by the engine for a position manager.
pub open spec fn pm_order(
    id: OrderId,
    symbol: Seq<char>,
    side: OrderSide,
    order_type: OrderType,
    quantity: i64,
    bar: usize,
) -> OrderView {
    OrderView {
        id,
        symbol,
        side,
        order_type,
        quantity,
        filled_quantity: 0,
        status: StatusView::Pending,
        created_bar: bar,
        parent_id: None,
        oco_group_id: None,
        activated_bar: None,
    }
}

/// Whether the intent moves the position's stop to a new stop order.
pub open spec fn moves_stop(intent: OrderIntent, side: PositionSide) -> bool {
    exit_side(side) is Some && intent.action == IntentAction::AdjustStop && intent.stop_price is Some
}

/// Whether carrying out the intent draws a new order id.
pub open spec fn draws_id(intent: OrderIntent, side: PositionSide) -> bool {
    moves_stop(intent, side) || (exit_side(side) is Some && intent.action == IntentAction::ForceExit)
}

/// The recorded stop order, if any, carries an id the counter has already
/// handed out.
pub open spec fn stop_below_counter(stop_order_id: Option<OrderId>, counter: u64) -> bool {
    match stop_order_id {
        Some(id) => id.0 < counter,
        None => true,
    }
}

/// The book after the protective stop moves to a new order: the current
/// stop order, if still active, is atomically replaced; otherwise the new stop is
/// submitted on its own.
pub open spec fn book_after_stop_move(b: BookView, current_stop_id: Option<OrderId>, new_stop: OrderView, bar: usize) -> BookView {
    match current_stop_id {
        Some(old_id) => if b.is_active(old_id) {
            b.cancel_replace_outcome(old_id, new_stop, bar).0
        } else {
            b.after_submit(new_stop)
        },
        None => b.after_submit(new_stop),
    }
}

/// The book after a forced exit: the current stop order, if still active, is
/// cancelled, then a market-on-open exit order is submitted.
pub open spec fn book_after_force_exit(b: BookView, current_stop_id: Option<OrderId>, exit_order: OrderView, bar: usize) -> BookView {
    let b1 = match current_stop_id {
        Some(old_id) => if b.is_active(old_id) {
            b.cancel_outcome(old_id, bar, "PM force exit"@).0
        } else {
            b
        },
        None => b,
    };
    b1.after_submit(exit_order)
}

/// What an intent does to the book, the id counter (`g0` before, `g1`
/// after) and the recorded stop order (`s0` before, `s1` after) of a
/// position on `side` in `symbol`.
pub open spec fn pm_intent_effect(
    intent: OrderIntent,
    symbol: Seq<char>,
    side: PositionSide,
    quantity: i64,
    bar_index: usize,
    b0: BookView,
    b1: BookView,
    g0: u64,
    g1: u64,
    s0: Option<OrderId>,
    s1: Option<OrderId>,
) -> bool {
    let issued = OrderId(g0);
    match exit_side(side) {
        None => b1 == b0 && g1 == g0
            && s1 == s0,
        Some(xs) => match (intent.action, intent.stop_price) {
            (IntentAction::AdjustStop, Some(p)) => {
                &&& g1 == g0 + 1
                &&& s1 == Some(issued)
                &&& b1 == book_after_stop_move(
                    b0,
                    s0,
                    pm_order(issued, symbol, xs, OrderType::StopMarket { trigger_price: p }, quantity, bar_index),
                    bar_index,
                )
            },
            (IntentAction::ForceExit, _) => {
                &&& g1 == g0 + 1
                &&& s1 is None
                &&& b1 == book_after_force_exit(
                    b0,
                    s0,
                    pm_order(issued, symbol, xs, OrderType::MarketOnOpen, quantity, bar_index),
                    bar_index,
                )
            },
            _ => b1 == b0 && g1 == g0
                && s1 == s0,
        },
    }
}

fn new_pm_order(id: OrderId, symbol: &str, side: OrderSide, order_type: OrderType, quantity: i64, bar: usize) -> (o: Order)
    ensures
        o@ == pm_order(id, symbol@, side, order_type, quantity, bar),
{
    Order {
        id,
        symbol: String::from_str(symbol),
        side,
        order_type,
        quantity,
        filled_quantity: 0,
        status: OrderStatus::Pending,
        created_bar: bar,
        parent_id: None,
        oco_group_id: None,
        activated_bar: None,
    }
}

/// Translate a position manager's intent for the position in `symbol` into
/// order-book operations. `current_stop` is the position's protective stop
/// level and `stop_order_id` the engine's record of its stop order.
///
/// Nothing happens for a flat position, a hold, a target adjustment or a
/// stop adjustment without a price. A stop adjustment records the new level
/// as the position's current stop, places a stop-market
/// exit at the new level for `quantity` (replacing the recorded stop while it
/// is active) and records it. A forced exit cancels the recorded stop while it
/// is active, forgets it, and places a market-on-open exit for `quantity`.
pub fn apply_pm_intent(
    intent: &OrderIntent,
    symbol: &str,
    side: PositionSide,
    quantity: i64,
    current_stop: &mut Option<Price>,
    book: &mut OrderBook,
    id_gen: &mut IdGen,
    stop_order_id: &mut Option<OrderId>,
    bar_index: usize,
)
    requires
        old(book).inv(),
        draws_id(*intent, side) ==> old(id_gen)@ < u64::MAX,
        moves_stop(*intent, side) ==> match *old(stop_order_id) {
            Some(old_id) => old(book)@.is_active(old_id) && old(book)@.order(old_id).filled_quantity > 0
                ==> i64::MIN <= old(book)@.order(old_id).quantity - old(book)@.order(old_id).filled_quantity <= i64::MAX,
            None => true,
        },
    ensures
        final(book).inv(),
        stop_below_counter(*old(stop_order_id), old(id_gen)@) ==> stop_below_counter(
            *final(stop_order_id),
            final(id_gen)@,
        ),
        *final(current_stop) == stop_after(*intent, side, *old(current_stop)),
        pm_intent_effect(
            *intent,
            symbol@,
            side,
            quantity,
            bar_index,
            old(book)@,
            final(book)@,
            old(id_gen)@,
            final(id_gen)@,
            *old(stop_order_id),
            *final(stop_order_id),
        ),
{
    let xs = match side {
        PositionSide::Long => OrderSide::Sell,
        PositionSide::Short => OrderSide::Buy,
        PositionSide::Flat => {
            return;
        },
    };
    match intent.action {
        IntentAction::AdjustStop => {
            let stop_price = match intent.stop_price {
                Some(p) => p,
                None => {
                    return;
                },
            };
            let new_id = id_gen.next_order_id();
            let new_stop = new_pm_order(
                new_id,
                symbol,
                xs,
                OrderType::StopMarket { trigger_price: stop_price },
                quantity,
                bar_index,
            );
            match *stop_order_id {
                Some(old_id) => {
                    let old_is_active = match book.get_order(old_id) {
                        Some(o) => o.is_active(),
                        None => false,
                    };
                    if old_is_active {
                        let _ = book.cancel_replace(old_id, new_stop, bar_index);
                    } else {
                        book.submit(new_stop);
                    }
                },
                None => {
                    book.submit(new_stop);
                },
            }
            *stop_order_id = Some(new_id);
            *current_stop = Some(stop_price);
        },
        IntentAction::ForceExit => {
            match *stop_order_id {
                Some(old_id) => {
                    let old_is_active = match book.get_order(old_id) {
                        Some(o) => o.is_active(),
                        None => false,
                    };
                    if old_is_active {
                        let _ = book.cancel(old_id, bar_index, "PM force exit");
                    }
                },
                None => {},
            }
            *stop_order_id = None;
            let exit_id = id_gen.next_order_id();
            let exit_order = new_pm_order(exit_id, symbol, xs, OrderType::MarketOnOpen, quantity, bar_index);
            book.submit(exit_order);
        },
        IntentAction::Hold => {},
        IntentAction::AdjustTarget => {},
    }
}

} // verus!
