//! Trigger checking — does a bar trigger a given order?
//!
//! Evaluates whether an order's trigger condition is met within a bar's
//! OHLC range and picks the raw fill price before slippage and commission.
//! Handles gap-through fills per the configured `GapPolicy`.

use vstd::prelude::*;

use crate::domain::{price_max, price_min, OrderSide, Price, PriceBar};
use crate::order::{Order, OrderStatus, OrderType, StatusView};

verus! {

/// Fill price for a stop whose trigger the bar opened beyond.
#[derive(Debug, Clone, Copy, PartialEq, Eq, Structural)]
pub enum GapPolicy {
    /// Fill at the open (worse, the realistic default).
    FillAtOpen,
    /// Fill at the trigger (optimistic).
    FillAtTrigger,
    /// Fill at the worse of open and trigger.
    FillAtWorst,
}

/// Result of checking whether an order triggers on a bar.
#[derive(Debug, Clone, Copy, PartialEq, Eq, Structural)]
pub enum TriggerResult {
    /// Order does not trigger on this bar.
    NoTrigger,
    /// Order triggers and fills at the computed price.
    Fill { fill_price: Price, gap_through: bool },
    /// StopLimit: stop triggers but limit is not reached on this bar.
    /// Order transitions to Triggered but does not fill yet.
    StopTriggeredLimitPending,
}

/// Gap-through fill price for a sell stop: the lower of open and trigger is
/// the worse one for a seller.
pub open spec fn gap_sell_price(open: Price, trigger: Price, policy: GapPolicy) -> Price {
    match policy {
        GapPolicy::FillAtOpen => open,
        GapPolicy::FillAtTrigger => trigger,
        GapPolicy::FillAtWorst => price_min(open, trigger),
    }
}

/// Gap-through fill price for a buy stop: the higher of open and trigger is
/// the worse one for a buyer.
pub open spec fn gap_buy_price(open: Price, trigger: Price, policy: GapPolicy) -> Price {
    match policy {
        GapPolicy::FillAtOpen => open,
        GapPolicy::FillAtTrigger => trigger,
        GapPolicy::FillAtWorst => price_max(open, trigger),
    }
}

/// Stop-market rule. A sell stop triggers when the low reaches the trigger
/// and gaps through when the open is already at or below it; a buy stop
/// mirrors this with the high and the open at or above the trigger.
pub open spec fn stop_market_rule(side: OrderSide, trigger: Price, bar: PriceBar, gap: GapPolicy) -> TriggerResult {
    match side {
        OrderSide::Sell => if bar.low.0 <= trigger.0 {
            let through = bar.open.0 <= trigger.0;
            TriggerResult::Fill {
                fill_price: if through { gap_sell_price(bar.open, trigger, gap) } else { trigger },
                gap_through: through,
            }
        } else {
            TriggerResult::NoTrigger
        },
        OrderSide::Buy => if bar.high.0 >= trigger.0 {
            let through = bar.open.0 >= trigger.0;
            TriggerResult::Fill {
                fill_price: if through { gap_buy_price(bar.open, trigger, gap) } else { trigger },
                gap_through: through,
            }
        } else {
            TriggerResult::NoTrigger
        },
    }
}

/// Limit rule. A buy limit fills when the low reaches the limit, at the open
/// when the bar opened at or below it (a favourable gap), else at the limit;
/// a sell limit mirrors this with the high.
pub open spec fn limit_rule(side: OrderSide, limit: Price, bar: PriceBar) -> TriggerResult {
    match side {
        OrderSide::Buy => if bar.low.0 <= limit.0 {
            TriggerResult::Fill {
                fill_price: if bar.open.0 <= limit.0 { bar.open } else { limit },
                gap_through: bar.open.0 <= limit.0,
            }
        } else {
            TriggerResult::NoTrigger
        },
        OrderSide::Sell => if bar.high.0 >= limit.0 {
            TriggerResult::Fill {
                fill_price: if bar.open.0 >= limit.0 { bar.open } else { limit },
                gap_through: bar.open.0 >= limit.0,
            }
        } else {
            TriggerResult::NoTrigger
        },
    }
}

/// Stop-limit rule. A pending stop-limit first needs its stop to trigger
/// (high reaches it for a buy, low for a sell); it then fills on the same
/// bar if the limit is reached, else it only triggers. A triggered one
/// follows the limit rule. Other states never trigger.
pub open spec fn stop_limit_rule(
    side: OrderSide,
    status: StatusView,
    trigger: Price,
    limit: Price,
    bar: PriceBar,
) -> TriggerResult {
    match status {
        StatusView::Pending => {
            let triggers = match side {
                OrderSide::Buy => bar.high.0 >= trigger.0,
                OrderSide::Sell => bar.low.0 <= trigger.0,
            };
            if !triggers {
                TriggerResult::NoTrigger
            } else if limit_rule(side, limit, bar) is Fill {
                limit_rule(side, limit, bar)
            } else {
                TriggerResult::StopTriggeredLimitPending
            }
        },
        StatusView::Triggered => limit_rule(side, limit, bar),
        _ => TriggerResult::NoTrigger,
    }
}

/// What a bar does to an order: a bar with no prices never triggers
/// anything; market-on-open and immediate orders fill at the open,
/// market-on-close at the close; the other types follow their rules.
pub open spec fn trigger_rule(order: crate::order::OrderView, bar: Option<PriceBar>, gap: GapPolicy) -> TriggerResult {
    match bar {
        None => TriggerResult::NoTrigger,
        Some(b) => match order.order_type {
            OrderType::MarketOnOpen => TriggerResult::Fill { fill_price: b.open, gap_through: false },
            OrderType::MarketOnClose => TriggerResult::Fill { fill_price: b.close, gap_through: false },
            OrderType::MarketImmediate => TriggerResult::Fill { fill_price: b.open, gap_through: false },
            OrderType::StopMarket { trigger_price } => stop_market_rule(order.side, trigger_price, b, gap),
            OrderType::Limit { limit_price } => limit_rule(order.side, limit_price, b),
            OrderType::StopLimit { trigger_price, limit_price } => stop_limit_rule(
                order.side,
                order.status,
                trigger_price,
                limit_price,
                b,
            ),
        },
    }
}

fn resolve_gap_sell(open: Price, trigger: Price, policy: GapPolicy) -> (p: Price)
    ensures
        p == gap_sell_price(open, trigger, policy),
{
    match policy {
        GapPolicy::FillAtOpen => open,
        GapPolicy::FillAtTrigger => trigger,
        GapPolicy::FillAtWorst => if open.0 <= trigger.0 { open } else { trigger },
    }
}

fn resolve_gap_buy(open: Price, trigger: Price, policy: GapPolicy) -> (p: Price)
    ensures
        p == gap_buy_price(open, trigger, policy),
{
    match policy {
        GapPolicy::FillAtOpen => open,
        GapPolicy::FillAtTrigger => trigger,
        GapPolicy::FillAtWorst => if open.0 >= trigger.0 { open } else { trigger },
    }
}

fn check_stop_market(side: OrderSide, trigger: Price, bar: &PriceBar, gap_policy: GapPolicy) -> (r: TriggerResult)
    ensures
        r == stop_market_rule(side, trigger, *bar, gap_policy),
{
    match side {
        OrderSide::Sell => {
            if bar.low.0 <= trigger.0 {
                let gap_through = bar.open.0 <= trigger.0;
                let fill_price = if gap_through {
                    resolve_gap_sell(bar.open, trigger, gap_policy)
                } else {
                    trigger
                };
                TriggerResult::Fill { fill_price, gap_through }
            } else {
                TriggerResult::NoTrigger
            }
        },
        OrderSide::Buy => {
            if bar.high.0 >= trigger.0 {
                let gap_through = bar.open.0 >= trigger.0;
                let fill_price = if gap_through {
                    resolve_gap_buy(bar.open, trigger, gap_policy)
                } else {
                    trigger
                };
                TriggerResult::Fill { fill_price, gap_through }
            } else {
                TriggerResult::NoTrigger
            }
        },
    }
}

fn check_limit(side: OrderSide, limit: Price, bar: &PriceBar) -> (r: TriggerResult)
    ensures
        r == limit_rule(side, limit, *bar),
{
    match side {
        OrderSide::Buy => {
            if bar.low.0 <= limit.0 {
                let fill_price = if bar.open.0 <= limit.0 { bar.open } else { limit };
                TriggerResult::Fill { fill_price, gap_through: bar.open.0 <= limit.0 }
            } else {
                TriggerResult::NoTrigger
            }
        },
        OrderSide::Sell => {
            if bar.high.0 >= limit.0 {
                let fill_price = if bar.open.0 >= limit.0 { bar.open } else { limit };
                TriggerResult::Fill { fill_price, gap_through: bar.open.0 >= limit.0 }
            } else {
                TriggerResult::NoTrigger
            }
        },
    }
}

fn check_stop_limit(
    side: OrderSide,
    status: &OrderStatus,
    trigger: Price,
    limit: Price,
    bar: &PriceBar,
) -> (r: TriggerResult)
    ensures
        r == stop_limit_rule(side, status@, trigger, limit, *bar),
{
    match status {
        OrderStatus::Pending => {
            let triggers = match side {
                OrderSide::Buy => bar.high.0 >= trigger.0,
                OrderSide::Sell => bar.low.0 <= trigger.0,
            };
            if !triggers {
                return TriggerResult::NoTrigger;
            }
            let limit_result = check_limit(side, limit, bar);
            match limit_result {
                TriggerResult::Fill { .. } => limit_result,
                _ => TriggerResult::StopTriggeredLimitPending,
            }
        },
        OrderStatus::Triggered => check_limit(side, limit, bar),
        _ => TriggerResult::NoTrigger,
    }
}

/// Check whether an order triggers on a bar and compute its raw fill price.
/// `None` stands for a bar with no prices (market closed for the symbol).
///
/// Does not apply slippage or commission, and does not look at
/// `activated_bar`: the caller skips same-bar bracket children.
pub fn check_trigger(order: &Order, bar: Option<PriceBar>, gap_policy: GapPolicy) -> (r: TriggerResult)
    ensures
        r == trigger_rule(order@, bar, gap_policy),
{
    let bar = match bar {
        None => {
            return TriggerResult::NoTrigger;
        },
        Some(b) => b,
    };
    let bar = &bar;
    match order.order_type {
        OrderType::MarketOnOpen => TriggerResult::Fill { fill_price: bar.open, gap_through: false },
        OrderType::MarketOnClose => TriggerResult::Fill { fill_price: bar.close, gap_through: false },
        OrderType::MarketImmediate => TriggerResult::Fill { fill_price: bar.open, gap_through: false },
        OrderType::StopMarket { trigger_price } => check_stop_market(order.side, trigger_price, bar, gap_policy),
        OrderType::Limit { limit_price } => check_limit(order.side, limit_price, bar),
        OrderType::StopLimit { trigger_price, limit_price } => check_stop_limit(
            order.side,
            &order.status,
            trigger_price,
            limit_price,
            bar,
        ),
    }
}

/// Fills never happen outside the bar's traded range on the adverse side: a
/// triggered sell stop fills at or below its trigger and a triggered buy stop
/// at or above it (the market already went through the level), while a limit
/// order never fills at a worse price than its limit.
pub proof fn fills_respect_order_levels(side: OrderSide, level: Price, bar: PriceBar, gap: GapPolicy)
    ensures
        stop_market_rule(side, level, bar, gap) matches TriggerResult::Fill { fill_price, .. } ==> match side {
            OrderSide::Sell => fill_price.0 <= level.0,
            OrderSide::Buy => fill_price.0 >= level.0,
        },
        limit_rule(side, level, bar) matches TriggerResult::Fill { fill_price, .. } ==> match side {
            OrderSide::Buy => fill_price.0 <= level.0,
            OrderSide::Sell => fill_price.0 >= level.0,
        },
{
}

/// Whether a stop on `side` gapped through `trigger`: the bar opened at or
/// beyond it in the direction that sets the stop off.
pub open spec fn opened_through(side: OrderSide, trigger: Price, bar: PriceBar) -> bool {
    match side {
        OrderSide::Sell => bar.open.0 <= trigger.0,
        OrderSide::Buy => bar.open.0 >= trigger.0,
    }
}

/// The gap policy only decides the price of gapped fills: whether a stop
/// fills, and whether it is reported as gapped, is the same under every
/// policy, and a stop the bar reached without gapping fills at its trigger
/// whatever the policy.
pub proof fn gap_policy_only_prices_gapped_stops(
    order: crate::order::OrderView,
    bar: PriceBar,
    p1: GapPolicy,
    p2: GapPolicy,
)
    requires
        order.order_type is StopMarket,
    ensures
        (trigger_rule(order, Some(bar), p1) is Fill) == (trigger_rule(order, Some(bar), p2) is Fill),
        trigger_rule(order, Some(bar), p1) matches TriggerResult::Fill { fill_price, gap_through } ==> {
            &&& gap_through == opened_through(order.side, order.order_type->StopMarket_trigger_price, bar)
            &&& !gap_through ==> fill_price == order.order_type->StopMarket_trigger_price
        },
        trigger_rule(order, Some(bar), p1) is NoTrigger || trigger_rule(order, Some(bar), p1) is Fill,
{
}

/// Under `FillAtTrigger` every stop-market order that fills, gapped or not,
/// buy or sell, fills exactly at its trigger price, whatever the open.
pub proof fn fill_at_trigger_fills_stops_at_their_trigger(order: crate::order::OrderView, bar: PriceBar)
    requires
        order.order_type is StopMarket,
    ensures
        trigger_rule(order, Some(bar), GapPolicy::FillAtTrigger) matches TriggerResult::Fill { fill_price, .. }
            ==> fill_price == order.order_type->StopMarket_trigger_price,
{
}

/// Under `FillAtOpen` a stop that gapped through fills exactly at the bar's
/// open, buy or sell.
pub proof fn fill_at_open_fills_gapped_stops_at_the_open(order: crate::order::OrderView, bar: PriceBar)
    requires
        order.order_type is StopMarket,
    ensures
        trigger_rule(order, Some(bar), GapPolicy::FillAtOpen) matches TriggerResult::Fill { fill_price, gap_through }
            ==> (gap_through ==> fill_price == bar.open),
{
}

/// `FillAtWorst` gives a gapped stop the worse, for its side, of the prices
/// that `FillAtOpen` and `FillAtTrigger` give it: the higher one for a buy,
/// the lower one for a sell. Filling at the trigger is never worse for the
/// order than filling at the open.
pub proof fn fill_at_worst_takes_the_worse_price(order: crate::order::OrderView, bar: PriceBar)
    requires
        order.order_type is StopMarket,
        trigger_rule(order, Some(bar), GapPolicy::FillAtOpen) is Fill,
    ensures
        ({
            let po = trigger_rule(order, Some(bar), GapPolicy::FillAtOpen)->fill_price;
            let pt = trigger_rule(order, Some(bar), GapPolicy::FillAtTrigger)->fill_price;
            let pw = trigger_rule(order, Some(bar), GapPolicy::FillAtWorst)->fill_price;
            &&& pw == po || pw == pt
            &&& order.side == OrderSide::Buy ==> pw.0 >= po.0 && pw.0 >= pt.0 && pt.0 <= po.0
            &&& order.side == OrderSide::Sell ==> pw.0 <= po.0 && pw.0 <= pt.0 && pt.0 >= po.0
        }),
{
}

/// On a bar whose open and close lie within its low and high, a stop-market
/// or limit order fills when the bar traded at its level, and does not when
/// the bar stayed on the far side of it: a sell stop or buy limit needs the
/// low to reach down to the level, a buy stop or sell limit needs the high to
/// reach up to it.
pub proof fn orders_fill_when_the_bar_reaches_their_level(side: OrderSide, level: Price, bar: PriceBar, gap: GapPolicy)
    requires
        bar.low.0 <= bar.open.0 <= bar.high.0,
        bar.low.0 <= bar.close.0 <= bar.high.0,
    ensures
        bar.low.0 <= level.0 <= bar.high.0 ==> stop_market_rule(side, level, bar, gap) is Fill && limit_rule(side, level, bar) is Fill,
        side == OrderSide::Sell && level.0 < bar.low.0 ==> stop_market_rule(side, level, bar, gap) is NoTrigger,
        side == OrderSide::Buy && level.0 > bar.high.0 ==> stop_market_rule(side, level, bar, gap) is NoTrigger,
        side == OrderSide::Buy && level.0 < bar.low.0 ==> limit_rule(side, level, bar) is NoTrigger,
        side == OrderSide::Sell && level.0 > bar.high.0 ==> limit_rule(side, level, bar) is NoTrigger,
        side == OrderSide::Sell && level.0 > bar.high.0 ==> stop_market_rule(side, level, bar, gap)
            == (TriggerResult::Fill { fill_price: gap_sell_price(bar.open, level, gap), gap_through: true }),
        side == OrderSide::Buy && level.0 < bar.low.0 ==> stop_market_rule(side, level, bar, gap)
            == (TriggerResult::Fill { fill_price: gap_buy_price(bar.open, level, gap), gap_through: true }),
{
}

} // verus!
