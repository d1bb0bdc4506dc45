use trendlab_core::domain::{OrderSide, Price, PriceBar};
use trendlab_core::ids::OrderId;
use trendlab_core::order::{Order, OrderStatus, OrderType};
use trendlab_core::trigger::{check_trigger, GapPolicy, TriggerResult};

fn px(x: f64) -> Price {
    Price((x * 100.0).round() as i64)
}

fn bar(open: f64, high: f64, low: f64, close: f64) -> Option<PriceBar> {
    Some(PriceBar { open: px(open), high: px(high), low: px(low), close: px(close) })
}

/// A bar on which the symbol did not trade.
fn void_bar() -> Option<PriceBar> {
    None
}

fn make_order(side: OrderSide, order_type: OrderType) -> Order {
    Order {
        id: OrderId(1),
        symbol: "SPY".into(),
        side,
        order_type,
        quantity: 100,
        filled_quantity: 0,
        status: OrderStatus::Pending,
        created_bar: 0,
        parent_id: None,
        oco_group_id: None,
        activated_bar: None,
    }
}

fn make_triggered_order(side: OrderSide, order_type: OrderType) -> Order {
    let mut o = make_order(side, order_type);
    o.status = OrderStatus::Triggered;
    o
}

// ── MarketOnOpen ─────────────────────────────────────────────────

#[test]
fn moo_fills_at_open() {
    let order = make_order(OrderSide::Buy, OrderType::MarketOnOpen);
    let b = bar(100.0, 105.0, 98.0, 103.0);
    let result = check_trigger(&order, b, GapPolicy::FillAtOpen);
    assert_eq!(
        result,
        TriggerResult::Fill {
            fill_price: px(100.0),
            gap_through: false
        }
    );
}

// ── MarketOnClose ────────────────────────────────────────────────

#[test]
fn moc_fills_at_close() {
    let order = make_order(OrderSide::Sell, OrderType::MarketOnClose);
    let b = bar(100.0, 105.0, 98.0, 103.0);
    let result = check_trigger(&order, b, GapPolicy::FillAtOpen);
    assert_eq!(
        result,
        TriggerResult::Fill {
            fill_price: px(103.0),
            gap_through: false
        }
    );
}

// ── StopMarket sell ──────────────────────────────────────────────

#[test]
fn sell_stop_triggers_when_low_reaches_trigger() {
    let order = make_order(
        OrderSide::Sell,
        OrderType::StopMarket {
            trigger_price: px(98.0),
        },
    );
    let b = bar(100.0, 105.0, 97.0, 99.0); // low 97 <= trigger 98
    let result = check_trigger(&order, b, GapPolicy::FillAtOpen);
    assert_eq!(
        result,
        TriggerResult::Fill {
            fill_price: px(98.0),
            gap_through: false
        }
    );
}

#[test]
fn sell_stop_does_not_trigger_above() {
    let order = make_order(
        OrderSide::Sell,
        OrderType::StopMarket {
            trigger_price: px(95.0),
        },
    );
    let b = bar(100.0, 105.0, 98.0, 103.0); // low 98 > trigger 95
    assert_eq!(
        check_trigger(&order, b, GapPolicy::FillAtOpen),
        TriggerResult::NoTrigger
    );
}

#[test]
fn sell_stop_gap_through_fill_at_open() {
    let order = make_order(
        OrderSide::Sell,
        OrderType::StopMarket {
            trigger_price: px(100.0),
        },
    );
    // Gap down: open at 95, below trigger of 100
    let b = bar(95.0, 97.0, 93.0, 96.0);
    let result = check_trigger(&order, b, GapPolicy::FillAtOpen);
    assert_eq!(
        result,
        TriggerResult::Fill {
            fill_price: px(95.0),
            gap_through: true
        }
    );
}

#[test]
fn sell_stop_gap_through_fill_at_trigger() {
    let order = make_order(
        OrderSide::Sell,
        OrderType::StopMarket {
            trigger_price: px(100.0),
        },
    );
    let b = bar(95.0, 97.0, 93.0, 96.0);
    let result = check_trigger(&order, b, GapPolicy::FillAtTrigger);
    assert_eq!(
        result,
        TriggerResult::Fill {
            fill_price: px(100.0),
            gap_through: true
        }
    );
}

#[test]
fn sell_stop_gap_through_fill_at_worst() {
    let order = make_order(
        OrderSide::Sell,
        OrderType::StopMarket {
            trigger_price: px(100.0),
        },
    );
    let b = bar(95.0, 97.0, 93.0, 96.0);
    let result = check_trigger(&order, b, GapPolicy::FillAtWorst);
    // For seller, open (95) is worse than trigger (100), so fill at 95
    assert_eq!(
        result,
        TriggerResult::Fill {
            fill_price: px(95.0),
            gap_through: true
        }
    );
}

// ── StopMarket buy ───────────────────────────────────────────────

#[test]
fn buy_stop_triggers_when_high_reaches_trigger() {
    let order = make_order(
        OrderSide::Buy,
        OrderType::StopMarket {
            trigger_price: px(105.0),
        },
    );
    let b = bar(100.0, 106.0, 98.0, 103.0); // high 106 >= trigger 105
    let result = check_trigger(&order, b, GapPolicy::FillAtOpen);
    assert_eq!(
        result,
        TriggerResult::Fill {
            fill_price: px(105.0),
            gap_through: false
        }
    );
}

#[test]
fn buy_stop_gap_through_fill_at_open() {
    let order = make_order(
        OrderSide::Buy,
        OrderType::StopMarket {
            trigger_price: px(100.0),
        },
    );
    // Gap up: open at 105, above trigger of 100
    let b = bar(105.0, 108.0, 103.0, 107.0);
    let result = check_trigger(&order, b, GapPolicy::FillAtOpen);
    // Buyer pays 105 (open) instead of 100 (trigger) — worse
    assert_eq!(
        result,
        TriggerResult::Fill {
            fill_price: px(105.0),
            gap_through: true
        }
    );
}

#[test]
fn buy_stop_gap_through_fill_at_worst() {
    let order = make_order(
        OrderSide::Buy,
        OrderType::StopMarket {
            trigger_price: px(100.0),
        },
    );
    let b = bar(105.0, 108.0, 103.0, 107.0);
    let result = check_trigger(&order, b, GapPolicy::FillAtWorst);
    // For buyer, open (105) is worse than trigger (100), so fill at 105
    assert_eq!(
        result,
        TriggerResult::Fill {
            fill_price: px(105.0),
            gap_through: true
        }
    );
}

// ── Limit buy ────────────────────────────────────────────────────

#[test]
fn buy_limit_triggers_when_low_reaches_limit() {
    let order = make_order(OrderSide::Buy, OrderType::Limit { limit_price: px(98.0) });
    let b = bar(100.0, 105.0, 97.0, 103.0); // low 97 <= limit 98
    let result = check_trigger(&order, b, GapPolicy::FillAtOpen);
    assert_eq!(
        result,
        TriggerResult::Fill {
            fill_price: px(98.0),
            gap_through: false
        }
    );
}

#[test]
fn buy_limit_gap_favorable_fills_at_open() {
    let order = make_order(OrderSide::Buy, OrderType::Limit { limit_price: px(100.0) });
    // Gap down: open at 95, below limit of 100 → buyer gets better price
    let b = bar(95.0, 97.0, 93.0, 96.0);
    let result = check_trigger(&order, b, GapPolicy::FillAtOpen);
    assert_eq!(
        result,
        TriggerResult::Fill {
            fill_price: px(95.0),
            gap_through: true
        }
    );
}

#[test]
fn buy_limit_not_triggered() {
    let order = make_order(OrderSide::Buy, OrderType::Limit { limit_price: px(95.0) });
    let b = bar(100.0, 105.0, 98.0, 103.0); // low 98 > limit 95
    assert_eq!(
        check_trigger(&order, b, GapPolicy::FillAtOpen),
        TriggerResult::NoTrigger
    );
}

// ── Limit sell ───────────────────────────────────────────────────

#[test]
fn sell_limit_triggers_when_high_reaches_limit() {
    let order = make_order(OrderSide::Sell, OrderType::Limit { limit_price: px(108.0) });
    let b = bar(100.0, 110.0, 98.0, 105.0); // high 110 >= limit 108
    let result = check_trigger(&order, b, GapPolicy::FillAtOpen);
    assert_eq!(
        result,
        TriggerResult::Fill {
            fill_price: px(108.0),
            gap_through: false
        }
    );
}

#[test]
fn sell_limit_gap_favorable_fills_at_open() {
    let order = make_order(OrderSide::Sell, OrderType::Limit { limit_price: px(100.0) });
    // Gap up: open at 105, above limit of 100 → seller gets better price
    let b = bar(105.0, 108.0, 103.0, 107.0);
    let result = check_trigger(&order, b, GapPolicy::FillAtOpen);
    assert_eq!(
        result,
        TriggerResult::Fill {
            fill_price: px(105.0),
            gap_through: true
        }
    );
}

// ── StopLimit ────────────────────────────────────────────────────

#[test]
fn stop_limit_pending_trigger_and_fill_same_bar() {
    // Buy stop-limit: trigger at 105, limit at 106
    let order = make_order(
        OrderSide::Buy,
        OrderType::StopLimit {
            trigger_price: px(105.0),
            limit_price: px(106.0),
        },
    );
    // Bar where high reaches trigger AND low reaches limit
    let b = bar(100.0, 108.0, 98.0, 103.0);
    let result = check_trigger(&order, b, GapPolicy::FillAtOpen);
    assert!(matches!(result, TriggerResult::Fill { .. }));
}

#[test]
fn stop_limit_pending_trigger_but_limit_not_reached() {
    // Buy stop-limit: trigger at 105, limit at 95
    let order = make_order(
        OrderSide::Buy,
        OrderType::StopLimit {
            trigger_price: px(105.0),
            limit_price: px(95.0),
        },
    );
    // High reaches trigger but low doesn't reach limit
    let b = bar(100.0, 108.0, 98.0, 103.0); // low 98 > limit 95
    let result = check_trigger(&order, b, GapPolicy::FillAtOpen);
    assert_eq!(result, TriggerResult::StopTriggeredLimitPending);
}

#[test]
fn stop_limit_already_triggered_fills_at_limit() {
    let order = make_triggered_order(
        OrderSide::Buy,
        OrderType::StopLimit {
            trigger_price: px(105.0),
            limit_price: px(98.0),
        },
    );
    let b = bar(100.0, 105.0, 97.0, 103.0); // low 97 <= limit 98
    let result = check_trigger(&order, b, GapPolicy::FillAtOpen);
    assert_eq!(
        result,
        TriggerResult::Fill {
            fill_price: px(98.0),
            gap_through: false
        }
    );
}

#[test]
fn stop_limit_not_triggered_yet() {
    let order = make_order(
        OrderSide::Buy,
        OrderType::StopLimit {
            trigger_price: px(110.0),
            limit_price: px(108.0),
        },
    );
    let b = bar(100.0, 105.0, 98.0, 103.0); // high 105 < trigger 110
    assert_eq!(
        check_trigger(&order, b, GapPolicy::FillAtOpen),
        TriggerResult::NoTrigger
    );
}

// ── Void bar ─────────────────────────────────────────────────────

#[test]
fn void_bar_never_triggers() {
    let order = make_order(OrderSide::Buy, OrderType::MarketOnOpen);
    let b = void_bar();
    assert_eq!(
        check_trigger(&order, b, GapPolicy::FillAtOpen),
        TriggerResult::NoTrigger
    );
}

// ── Edge cases ───────────────────────────────────────────────────

#[test]
fn sell_stop_triggers_at_exact_level() {
    let order = make_order(
        OrderSide::Sell,
        OrderType::StopMarket {
            trigger_price: px(98.0),
        },
    );
    let b = bar(100.0, 105.0, 98.0, 103.0); // low == trigger exactly
    let result = check_trigger(&order, b, GapPolicy::FillAtOpen);
    assert_eq!(
        result,
        TriggerResult::Fill {
            fill_price: px(98.0),
            gap_through: false
        }
    );
}

#[test]
fn buy_limit_triggers_at_exact_level() {
    let order = make_order(OrderSide::Buy, OrderType::Limit { limit_price: px(98.0) });
    let b = bar(100.0, 105.0, 98.0, 103.0); // low == limit exactly
    let result = check_trigger(&order, b, GapPolicy::FillAtOpen);
    assert_eq!(
        result,
        TriggerResult::Fill {
            fill_price: px(98.0),
            gap_through: false
        }
    );
}

