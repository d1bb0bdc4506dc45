use trendlab_core::domain::{OrderSide, Price};
use trendlab_core::ids::{OcoGroupId, OrderId};
use trendlab_core::order::{OcoGroup, Order, OrderStatus, OrderType};
use trendlab_core::order_book::{OrderBook, OrderBookError};

// ── Test helpers ───────────────────────────────────────────────────

fn px(x: f64) -> Price {
    Price((x * 100.0).round() as i64)
}

fn make_order(id: u64, symbol: &str, side: OrderSide, order_type: OrderType, qty: i64) -> Order {
    Order {
        id: OrderId(id),
        symbol: symbol.into(),
        side,
        order_type,
        quantity: qty,
        filled_quantity: 0,
        status: OrderStatus::Pending,
        created_bar: 0,
        parent_id: None,
        oco_group_id: None,
        activated_bar: None,
    }
}

fn moo_buy(id: u64, qty: i64) -> Order {
    make_order(id, "SPY", OrderSide::Buy, OrderType::MarketOnOpen, qty)
}

fn moc_sell(id: u64, qty: i64) -> Order {
    make_order(id, "SPY", OrderSide::Sell, OrderType::MarketOnClose, qty)
}

fn stop_sell(id: u64, trigger: f64, qty: i64) -> Order {
    make_order(id, "SPY", OrderSide::Sell, OrderType::StopMarket { trigger_price: px(trigger) }, qty)
}

fn limit_buy(id: u64, limit: f64, qty: i64) -> Order {
    make_order(id, "SPY", OrderSide::Buy, OrderType::Limit { limit_price: px(limit) }, qty)
}

fn limit_sell(id: u64, limit: f64, qty: i64) -> Order {
    make_order(id, "SPY", OrderSide::Sell, OrderType::Limit { limit_price: px(limit) }, qty)
}

fn stop_limit_buy(id: u64, trigger: f64, limit: f64, qty: i64) -> Order {
    make_order(
        id,
        "SPY",
        OrderSide::Buy,
        OrderType::StopLimit { trigger_price: px(trigger), limit_price: px(limit) },
        qty,
    )
}

fn is_cancelled(s: &OrderStatus) -> bool {
    matches!(s, OrderStatus::Cancelled { .. })
}

// ── Submit and retrieve ────────────────────────────────────────────

#[test]
fn submit_and_get() {
    let mut book = OrderBook::new();
    book.submit(moo_buy(1, 100));

    let retrieved = book.get(OrderId(1)).unwrap();
    assert_eq!(retrieved.id, OrderId(1));
    assert_eq!(retrieved.quantity, 100);
    assert_eq!(retrieved.status, OrderStatus::Pending);
}

#[test]
fn active_orders_returns_only_active() {
    let mut book = OrderBook::new();
    book.submit(moo_buy(1, 100));
    book.submit(moo_buy(2, 50));

    assert_eq!(book.active_orders().len(), 2);
    assert_eq!(book.active_count(), 2);

    book.record_fill(OrderId(1), 100, 0).unwrap();

    assert_eq!(book.active_orders().len(), 1);
    assert_eq!(book.active_count(), 1);
    assert_eq!(book.active_orders()[0].id, OrderId(2));
}

#[test]
fn active_orders_for_symbol_filters() {
    let mut book = OrderBook::new();
    book.submit(moo_buy(1, 100)); // SPY
    book.submit(make_order(2, "QQQ", OrderSide::Buy, OrderType::MarketOnOpen, 50));

    assert_eq!(book.active_orders_for_symbol("SPY").len(), 1);
    assert_eq!(book.active_orders_for_symbol("QQQ").len(), 1);
    assert_eq!(book.active_orders_for_symbol("IWM").len(), 0);
}

// ── Full fill ──────────────────────────────────────────────────────

#[test]
fn fill_moo_order() {
    let mut book = OrderBook::new();
    book.submit(moo_buy(1, 100));

    let fully_filled = book.record_fill(OrderId(1), 100, 0).unwrap();
    assert!(fully_filled);

    let order = book.get(OrderId(1)).unwrap();
    assert_eq!(order.status, OrderStatus::Filled);
    assert_eq!(order.filled_quantity, 100);
    assert!(!order.is_active());
}

#[test]
fn fill_moc_order() {
    let mut book = OrderBook::new();
    book.submit(moc_sell(1, 50));

    let fully_filled = book.record_fill(OrderId(1), 50, 5).unwrap();
    assert!(fully_filled);

    let order = book.get(OrderId(1)).unwrap();
    assert_eq!(order.status, OrderStatus::Filled);
}

#[test]
fn fill_limit_order() {
    let mut book = OrderBook::new();
    book.submit(limit_buy(1, 100.0, 50));

    let fully_filled = book.record_fill(OrderId(1), 50, 3).unwrap();
    assert!(fully_filled);

    let order = book.get(OrderId(1)).unwrap();
    assert_eq!(order.status, OrderStatus::Filled);
}

#[test]
fn fill_immediate_order() {
    let mut book = OrderBook::new();
    book.submit(make_order(1, "SPY", OrderSide::Buy, OrderType::MarketImmediate, 100));

    let fully_filled = book.record_fill(OrderId(1), 100, 0).unwrap();
    assert!(fully_filled);
}

// ── Stop trigger → fill flow ───────────────────────────────────────

#[test]
fn stop_market_trigger_then_fill() {
    let mut book = OrderBook::new();
    book.submit(stop_sell(1, 95.0, 100));

    assert_eq!(book.get(OrderId(1)).unwrap().status, OrderStatus::Pending);

    book.trigger(OrderId(1), 5).unwrap();
    assert_eq!(book.get(OrderId(1)).unwrap().status, OrderStatus::Triggered);

    let fully_filled = book.record_fill(OrderId(1), 100, 5).unwrap();
    assert!(fully_filled);
    assert_eq!(book.get(OrderId(1)).unwrap().status, OrderStatus::Filled);
}

#[test]
fn stop_limit_trigger_then_fill() {
    let mut book = OrderBook::new();
    book.submit(stop_limit_buy(1, 105.0, 106.0, 100));

    book.trigger(OrderId(1), 3).unwrap();
    assert_eq!(book.get(OrderId(1)).unwrap().status, OrderStatus::Triggered);

    book.record_fill(OrderId(1), 100, 3).unwrap();
    assert_eq!(book.get(OrderId(1)).unwrap().status, OrderStatus::Filled);
}

// ── Partial fills ──────────────────────────────────────────────────

#[test]
fn partial_fill_tracking() {
    let mut book = OrderBook::new();
    book.submit(moo_buy(1, 100));

    let fully_filled = book.record_fill(OrderId(1), 30, 0).unwrap();
    assert!(!fully_filled);

    let order = book.get(OrderId(1)).unwrap();
    assert_eq!(order.filled_quantity, 30);
    assert_eq!(order.remaining_quantity(), 70);
    assert!(order.is_active());

    let fully_filled = book.record_fill(OrderId(1), 70, 1).unwrap();
    assert!(fully_filled);
    assert_eq!(book.get(OrderId(1)).unwrap().status, OrderStatus::Filled);
}

// ── Cancellation ───────────────────────────────────────────────────

#[test]
fn cancel_pending_order() {
    let mut book = OrderBook::new();
    book.submit(moo_buy(1, 100));

    book.cancel(OrderId(1), 0, "user cancel").unwrap();

    let order = book.get(OrderId(1)).unwrap();
    assert_eq!(order.status, OrderStatus::Cancelled { reason: "user cancel".into() });
    assert!(!order.is_active());
}

#[test]
fn cancel_triggered_order() {
    let mut book = OrderBook::new();
    book.submit(stop_sell(1, 95.0, 100));
    book.trigger(OrderId(1), 3).unwrap();

    book.cancel(OrderId(1), 4, "PM adjustment").unwrap();

    let order = book.get(OrderId(1)).unwrap();
    assert!(is_cancelled(&order.status));
}

#[test]
fn cancel_filled_order_fails() {
    let mut book = OrderBook::new();
    book.submit(moo_buy(1, 100));
    book.record_fill(OrderId(1), 100, 0).unwrap();

    let result = book.cancel(OrderId(1), 1, "too late");
    assert!(result.is_err());
}

#[test]
fn cancel_already_cancelled_fails() {
    let mut book = OrderBook::new();
    book.submit(moo_buy(1, 100));
    book.cancel(OrderId(1), 0, "first cancel").unwrap();

    let result = book.cancel(OrderId(1), 0, "second cancel");
    assert!(result.is_err());
}

// ── Expiration ─────────────────────────────────────────────────────

#[test]
fn expire_pending_order() {
    let mut book = OrderBook::new();
    book.submit(moo_buy(1, 100));

    book.expire(OrderId(1), 0).unwrap();

    let order = book.get(OrderId(1)).unwrap();
    assert_eq!(order.status, OrderStatus::Expired);
    assert!(!order.is_active());
}

#[test]
fn expire_filled_order_fails() {
    let mut book = OrderBook::new();
    book.submit(moo_buy(1, 100));
    book.record_fill(OrderId(1), 100, 0).unwrap();

    let result = book.expire(OrderId(1), 0);
    assert!(result.is_err());
}

// ── Invalid transitions ────────────────────────────────────────────

#[test]
fn trigger_non_pending_fails() {
    let mut book = OrderBook::new();
    book.submit(stop_sell(1, 95.0, 100));
    book.trigger(OrderId(1), 0).unwrap();

    let result = book.trigger(OrderId(1), 1);
    assert!(result.is_err());
}

#[test]
fn fill_nonexistent_order_fails() {
    let mut book = OrderBook::new();
    let result = book.record_fill(OrderId(999), 100, 0);
    assert!(result.is_err());
}

#[test]
fn fill_cancelled_order_fails() {
    let mut book = OrderBook::new();
    book.submit(moo_buy(1, 100));
    book.cancel(OrderId(1), 0, "cancel").unwrap();

    let result = book.record_fill(OrderId(1), 100, 0);
    assert!(result.is_err());
}

// ── OCO enforcement ────────────────────────────────────────────────

#[test]
fn oco_one_fill_cancels_sibling() {
    let mut book = OrderBook::new();

    let mut stop = stop_sell(1, 95.0, 100);
    stop.oco_group_id = Some(OcoGroupId(10));
    let mut limit = limit_sell(2, 110.0, 100);
    limit.oco_group_id = Some(OcoGroupId(10));

    let oco = OcoGroup { id: OcoGroupId(10), order_ids: vec![OrderId(1), OrderId(2)] };

    book.submit(stop);
    book.submit(limit);
    book.register_oco_group(oco);

    book.trigger(OrderId(1), 5).unwrap();
    book.record_fill(OrderId(1), 100, 5).unwrap();

    assert_eq!(book.get(OrderId(1)).unwrap().status, OrderStatus::Filled);
    assert!(is_cancelled(&book.get(OrderId(2)).unwrap().status));
}

#[test]
fn oco_three_siblings_one_fill_cancels_both_others() {
    let mut book = OrderBook::new();

    let mut o1 = moo_buy(1, 100);
    o1.oco_group_id = Some(OcoGroupId(20));
    let mut o2 = moo_buy(2, 100);
    o2.oco_group_id = Some(OcoGroupId(20));
    let mut o3 = moo_buy(3, 100);
    o3.oco_group_id = Some(OcoGroupId(20));

    let oco = OcoGroup { id: OcoGroupId(20), order_ids: vec![OrderId(1), OrderId(2), OrderId(3)] };

    book.submit(o1);
    book.submit(o2);
    book.submit(o3);
    book.register_oco_group(oco);

    book.record_fill(OrderId(2), 100, 0).unwrap();

    assert_eq!(book.get(OrderId(2)).unwrap().status, OrderStatus::Filled);
    assert!(is_cancelled(&book.get(OrderId(1)).unwrap().status));
    assert!(is_cancelled(&book.get(OrderId(3)).unwrap().status));
}

#[test]
fn oco_partial_fill_does_not_cancel_siblings() {
    let mut book = OrderBook::new();

    let mut o1 = moo_buy(1, 100);
    o1.oco_group_id = Some(OcoGroupId(30));
    let mut o2 = moo_buy(2, 100);
    o2.oco_group_id = Some(OcoGroupId(30));

    let oco = OcoGroup { id: OcoGroupId(30), order_ids: vec![OrderId(1), OrderId(2)] };

    book.submit(o1);
    book.submit(o2);
    book.register_oco_group(oco);

    book.record_fill(OrderId(1), 50, 0).unwrap();

    assert!(book.get(OrderId(1)).unwrap().is_active());
    assert!(book.get(OrderId(2)).unwrap().is_active());
}

// ── Bracket orders ─────────────────────────────────────────────────

#[test]
fn bracket_children_dormant_before_entry_fill() {
    let mut book = OrderBook::new();

    let entry = moo_buy(1, 100);
    let stop = stop_sell(2, 95.0, 100);
    let tp = limit_sell(3, 110.0, 100);

    book.submit_bracket(entry, stop, Some(tp), OcoGroupId(50));

    assert!(book.get(OrderId(1)).unwrap().is_active());

    assert!(book.is_dormant(OrderId(2)));
    assert!(book.is_dormant(OrderId(3)));
    assert!(book.get(OrderId(2)).is_none());
    assert!(book.get(OrderId(3)).is_none());

    assert_eq!(book.active_count(), 1);
}

#[test]
fn bracket_children_activate_on_entry_fill() {
    let mut book = OrderBook::new();

    let entry = moo_buy(1, 100);
    let mut stop = stop_sell(2, 95.0, 100);
    stop.oco_group_id = Some(OcoGroupId(50));
    let mut tp = limit_sell(3, 110.0, 100);
    tp.oco_group_id = Some(OcoGroupId(50));

    book.submit_bracket(entry, stop, Some(tp), OcoGroupId(50));

    book.record_fill(OrderId(1), 100, 0).unwrap();

    assert_eq!(book.get(OrderId(1)).unwrap().status, OrderStatus::Filled);

    assert!(!book.is_dormant(OrderId(2)));
    assert!(!book.is_dormant(OrderId(3)));
    assert!(book.get(OrderId(2)).unwrap().is_active());
    assert!(book.get(OrderId(3)).unwrap().is_active());

    assert_eq!(book.active_count(), 2);
}

#[test]
fn bracket_oco_works_after_activation() {
    let mut book = OrderBook::new();

    let entry = moo_buy(1, 100);
    let mut stop = stop_sell(2, 95.0, 100);
    stop.oco_group_id = Some(OcoGroupId(50));
    let mut tp = limit_sell(3, 110.0, 100);
    tp.oco_group_id = Some(OcoGroupId(50));

    book.submit_bracket(entry, stop, Some(tp), OcoGroupId(50));

    book.record_fill(OrderId(1), 100, 0).unwrap();

    book.trigger(OrderId(2), 5).unwrap();
    book.record_fill(OrderId(2), 100, 5).unwrap();

    assert_eq!(book.get(OrderId(2)).unwrap().status, OrderStatus::Filled);
    assert!(is_cancelled(&book.get(OrderId(3)).unwrap().status));
    assert_eq!(book.active_count(), 0);
}

#[test]
fn bracket_entry_cancel_cleans_up_dormant_children() {
    let mut book = OrderBook::new();

    let entry = moo_buy(1, 100);
    let stop = stop_sell(2, 95.0, 100);
    let tp = limit_sell(3, 110.0, 100);

    book.submit_bracket(entry, stop, Some(tp), OcoGroupId(60));

    book.cancel(OrderId(1), 0, "entry cancelled").unwrap();

    assert!(!book.is_dormant(OrderId(2)));
    assert!(!book.is_dormant(OrderId(3)));
    assert!(is_cancelled(&book.get(OrderId(2)).unwrap().status));
    assert!(is_cancelled(&book.get(OrderId(3)).unwrap().status));
    assert_eq!(book.active_count(), 0);
}

#[test]
fn bracket_without_take_profit() {
    let mut book = OrderBook::new();

    let entry = moo_buy(1, 100);
    let mut stop = stop_sell(2, 95.0, 100);
    stop.oco_group_id = Some(OcoGroupId(70));

    book.submit_bracket(entry, stop, None, OcoGroupId(70));

    book.record_fill(OrderId(1), 100, 0).unwrap();

    assert_eq!(book.active_count(), 1);
    assert!(book.get(OrderId(2)).unwrap().is_active());
}

// ── Atomic cancel/replace ──────────────────────────────────────────

#[test]
fn cancel_replace_basic() {
    let mut book = OrderBook::new();
    book.submit(stop_sell(1, 95.0, 100));

    let replacement = stop_sell(2, 97.0, 100);
    book.cancel_replace(OrderId(1), replacement, 5).unwrap();

    assert!(is_cancelled(&book.get(OrderId(1)).unwrap().status));

    let new_order = book.get(OrderId(2)).unwrap();
    assert!(new_order.is_active());
    assert_eq!(new_order.quantity, 100);
    match new_order.order_type {
        OrderType::StopMarket { trigger_price } => assert_eq!(trigger_price, px(97.0)),
        _ => panic!("expected StopMarket"),
    }
}

#[test]
fn cancel_replace_with_partial_fill() {
    let mut book = OrderBook::new();
    book.submit(stop_sell(1, 95.0, 100));

    book.trigger(OrderId(1), 3).unwrap();
    book.record_fill(OrderId(1), 30, 3).unwrap();

    let replacement = stop_sell(2, 97.0, 100);
    book.cancel_replace(OrderId(1), replacement, 5).unwrap();

    let new_order = book.get(OrderId(2)).unwrap();
    assert_eq!(new_order.quantity, 70);
}

#[test]
fn cancel_replace_inherits_oco_group() {
    let mut book = OrderBook::new();

    let mut stop = stop_sell(1, 95.0, 100);
    stop.oco_group_id = Some(OcoGroupId(80));
    let mut tp = limit_sell(2, 110.0, 100);
    tp.oco_group_id = Some(OcoGroupId(80));

    let oco = OcoGroup { id: OcoGroupId(80), order_ids: vec![OrderId(1), OrderId(2)] };

    book.submit(stop);
    book.submit(tp);
    book.register_oco_group(oco);

    let replacement = stop_sell(3, 97.0, 100);
    book.cancel_replace(OrderId(1), replacement, 5).unwrap();

    let new_order = book.get(OrderId(3)).unwrap();
    assert_eq!(new_order.oco_group_id, Some(OcoGroupId(80)));

    let group = book.get_oco_group(OcoGroupId(80)).unwrap();
    assert!(group.order_ids.contains(&OrderId(3)));
    assert!(!group.order_ids.contains(&OrderId(1)));

    book.record_fill(OrderId(2), 100, 6).unwrap();
    assert!(is_cancelled(&book.get(OrderId(3)).unwrap().status));
}

#[test]
fn cancel_replace_filled_order_fails() {
    let mut book = OrderBook::new();
    book.submit(moo_buy(1, 100));
    book.record_fill(OrderId(1), 100, 0).unwrap();

    let replacement = moo_buy(2, 100);
    let result = book.cancel_replace(OrderId(1), replacement, 1);
    assert!(result.is_err());
}

// ── Audit trail ────────────────────────────────────────────────────

#[test]
fn audit_trail_records_all_transitions() {
    let mut book = OrderBook::new();
    book.submit(stop_sell(1, 95.0, 100));

    book.trigger(OrderId(1), 3).unwrap();
    book.record_fill(OrderId(1), 100, 5).unwrap();

    let trail = book.audit_trail();
    assert_eq!(trail.len(), 2);

    assert_eq!(trail[0].order_id, OrderId(1));
    assert_eq!(trail[0].from_status, OrderStatus::Pending);
    assert_eq!(trail[0].to_status, OrderStatus::Triggered);
    assert_eq!(trail[0].bar_index, 3);

    assert_eq!(trail[1].order_id, OrderId(1));
    assert_eq!(trail[1].from_status, OrderStatus::Triggered);
    assert_eq!(trail[1].to_status, OrderStatus::Filled);
    assert_eq!(trail[1].bar_index, 5);
}

#[test]
fn audit_trail_includes_oco_cancellations() {
    let mut book = OrderBook::new();

    let mut o1 = moo_buy(1, 100);
    o1.oco_group_id = Some(OcoGroupId(90));
    let mut o2 = moo_buy(2, 100);
    o2.oco_group_id = Some(OcoGroupId(90));

    let oco = OcoGroup { id: OcoGroupId(90), order_ids: vec![OrderId(1), OrderId(2)] };

    book.submit(o1);
    book.submit(o2);
    book.register_oco_group(oco);

    book.record_fill(OrderId(1), 100, 0).unwrap();

    let trail = book.audit_trail();
    assert_eq!(trail.len(), 2);
    assert_eq!(trail[1].order_id, OrderId(2));
    assert!(is_cancelled(&trail[1].to_status));
    assert_eq!(trail[1].reason, "OCO sibling filled");
}

#[test]
fn audit_trail_includes_bracket_activation() {
    let mut book = OrderBook::new();

    let entry = moo_buy(1, 100);
    let stop = stop_sell(2, 95.0, 100);

    book.submit_bracket(entry, stop, None, OcoGroupId(100));
    book.record_fill(OrderId(1), 100, 0).unwrap();

    let trail = book.audit_trail();
    assert!(trail.len() >= 2);

    let activation = trail.iter().find(|e| e.order_id == OrderId(2)).unwrap();
    assert_eq!(activation.reason, "bracket entry filled — child activated");
}

// ── Empty state ────────────────────────────────────────────────────

#[test]
fn new_book_is_empty() {
    let book = OrderBook::new();
    assert!(!book.has_active_orders());
    assert_eq!(book.active_count(), 0);
    assert!(book.audit_trail().is_empty());
}

// ── Property-style tests ───────────────────────────────────────────

#[test]
fn oco_invariant_siblings_never_both_fill() {
    for first_to_fill in [OrderId(1), OrderId(2)] {
        let mut book = OrderBook::new();

        let mut o1 = stop_sell(1, 95.0, 100);
        o1.oco_group_id = Some(OcoGroupId(200));
        let mut o2 = limit_sell(2, 110.0, 100);
        o2.oco_group_id = Some(OcoGroupId(200));

        let oco = OcoGroup { id: OcoGroupId(200), order_ids: vec![OrderId(1), OrderId(2)] };

        book.submit(o1);
        book.submit(o2);
        book.register_oco_group(oco);

        if first_to_fill == OrderId(1) {
            book.trigger(OrderId(1), 0).unwrap();
        }

        book.record_fill(first_to_fill, 100, 5).unwrap();

        let filled_count = [OrderId(1), OrderId(2)]
            .iter()
            .filter(|id| book.get(**id).unwrap().status == OrderStatus::Filled)
            .count();

        assert_eq!(filled_count, 1, "exactly one OCO sibling should be filled");

        let other = if first_to_fill == OrderId(1) { OrderId(2) } else { OrderId(1) };
        assert!(is_cancelled(&book.get(other).unwrap().status), "OCO sibling must be cancelled");
    }
}

#[test]
fn bracket_invariant_children_never_active_before_entry() {
    let mut book = OrderBook::new();

    let entry = moo_buy(1, 100);
    let stop = stop_sell(2, 95.0, 100);
    let tp = limit_sell(3, 110.0, 100);

    book.submit_bracket(entry, stop, Some(tp), OcoGroupId(300));

    for bar in 0..10 {
        let active_ids: Vec<OrderId> = book.active_orders().iter().map(|o| o.id).collect();
        assert!(!active_ids.contains(&OrderId(2)), "stop-loss should not be active at bar {bar}");
        assert!(!active_ids.contains(&OrderId(3)), "take-profit should not be active at bar {bar}");
    }

    book.record_fill(OrderId(1), 100, 10).unwrap();

    let active_ids: Vec<OrderId> = book.active_orders().iter().map(|o| o.id).collect();
    assert!(active_ids.contains(&OrderId(2)));
    assert!(active_ids.contains(&OrderId(3)));
}

#[test]
fn cancel_replace_atomicity() {
    let mut book = OrderBook::new();
    book.submit(stop_sell(1, 95.0, 100));

    assert_eq!(book.active_orders_for_symbol("SPY").len(), 1);

    let replacement = stop_sell(2, 97.0, 100);
    book.cancel_replace(OrderId(1), replacement, 5).unwrap();

    let active = book.active_orders_for_symbol("SPY");
    assert_eq!(active.len(), 1);
    assert_eq!(active[0].id, OrderId(2));
}

// ── Orders ─────────────────────────────────────────────────────────

#[test]
fn order_remaining_quantity() {
    let order = Order {
        id: OrderId(1),
        symbol: "SPY".into(),
        side: OrderSide::Buy,
        order_type: OrderType::MarketOnOpen,
        quantity: 100,
        filled_quantity: 30,
        status: OrderStatus::Pending,
        created_bar: 0,
        parent_id: None,
        oco_group_id: None,
        activated_bar: None,
    };
    assert_eq!(order.remaining_quantity(), 70);
}

#[test]
fn order_is_active() {
    let mut order = Order {
        id: OrderId(1),
        symbol: "SPY".into(),
        side: OrderSide::Buy,
        order_type: OrderType::StopMarket { trigger_price: px(105.0) },
        quantity: 100,
        filled_quantity: 0,
        status: OrderStatus::Pending,
        created_bar: 0,
        parent_id: None,
        oco_group_id: None,
        activated_bar: None,
    };
    assert!(order.is_active());

    order.status = OrderStatus::Triggered;
    assert!(order.is_active());

    order.status = OrderStatus::Filled;
    assert!(!order.is_active());

    order.status = OrderStatus::Cancelled { reason: "OCO sibling filled".into() };
    assert!(!order.is_active());
}

// ── Error variants ─────────────────────────────────────────────────

#[test]
fn errors_name_the_order_and_its_state() {
    let mut book = OrderBook::new();
    assert!(matches!(book.record_fill(OrderId(9), 1, 0), Err(OrderBookError::OrderNotFound(OrderId(9)))));

    book.submit(moo_buy(1, 100));
    book.record_fill(OrderId(1), 100, 0).unwrap();
    assert!(matches!(
        book.cancel(OrderId(1), 1, "late"),
        Err(OrderBookError::OrderNotActive(OrderId(1), OrderStatus::Filled))
    ));

    book.submit(stop_sell(2, 95.0, 100));
    book.trigger(OrderId(2), 0).unwrap();
    assert!(matches!(
        book.trigger(OrderId(2), 1),
        Err(OrderBookError::InvalidTransition(OrderId(2), OrderStatus::Triggered, OrderStatus::Triggered))
    ));
}

#[test]
fn dormant_child_cannot_be_cancelled_directly() {
    let mut book = OrderBook::new();
    book.submit_bracket(moo_buy(1, 100), stop_sell(2, 95.0, 100), None, OcoGroupId(7));
    let r = book.cancel(OrderId(2), 0, "early");
    assert!(r.is_err());
    assert!(book.is_dormant(OrderId(2)));
}

#[test]
fn bracket_relationship_is_recorded() {
    let mut book = OrderBook::new();
    book.submit_bracket(moo_buy(1, 100), stop_sell(2, 95.0, 100), Some(limit_sell(3, 110.0, 100)), OcoGroupId(5));
    let b = *book.get_bracket(OrderId(1)).unwrap();
    assert_eq!(b.entry_id, OrderId(1));
    assert_eq!(b.stop_loss_id, OrderId(2));
    assert_eq!(b.take_profit_id, Some(OrderId(3)));
    assert_eq!(b.oco_group_id, OcoGroupId(5));
    assert!(book.get_bracket(OrderId(2)).is_none());
}

#[test]
fn oco_group_over_a_run_of_requests_fills_once() {
    let mut book = OrderBook::new();

    let mut stop = stop_sell(1, 95.0, 100);
    stop.oco_group_id = Some(OcoGroupId(90));
    let mut tp = limit_sell(2, 110.0, 100);
    tp.oco_group_id = Some(OcoGroupId(90));
    book.submit(stop);
    book.submit(tp);
    book.register_oco_group(OcoGroup { id: OcoGroupId(90), order_ids: vec![OrderId(1), OrderId(2)] });
    book.submit(moo_buy(7, 10));

    book.trigger(OrderId(1), 1).unwrap();
    assert_eq!(book.record_fill(OrderId(2), 40, 2).unwrap(), false);
    book.cancel_replace(OrderId(1), stop_sell(3, 96.0, 100), 3).unwrap();
    book.record_fill(OrderId(7), 10, 3).unwrap();
    assert_eq!(book.record_fill(OrderId(3), 100, 4).unwrap(), true);
    assert!(book.record_fill(OrderId(2), 60, 5).is_err());

    let filled = [OrderId(1), OrderId(2), OrderId(3)]
        .iter()
        .filter(|id| book.get(**id).unwrap().status == OrderStatus::Filled)
        .count();
    assert_eq!(filled, 1);
    assert_eq!(book.get(OrderId(3)).unwrap().status, OrderStatus::Filled);
    assert!(is_cancelled(&book.get(OrderId(2)).unwrap().status));
}

#[test]
fn bracket_children_wait_through_other_requests() {
    let mut book = OrderBook::new();
    let entry = moo_buy(1, 100);
    let stop = stop_sell(2, 95.0, 100);
    let tp = limit_sell(3, 110.0, 100);
    book.submit_bracket(entry, stop, Some(tp), OcoGroupId(50));
    book.submit(moo_buy(9, 5));

    assert_eq!(book.record_fill(OrderId(1), 60, 1).unwrap(), false);
    book.record_fill(OrderId(9), 5, 1).unwrap();
    book.cancel_replace(OrderId(9), moo_buy(10, 5), 2).unwrap_err();
    book.submit(moo_buy(11, 5));
    book.cancel(OrderId(11), 2, "user").unwrap();

    assert!(book.get(OrderId(2)).is_none());
    assert!(book.get(OrderId(3)).is_none());
    assert!(book.is_dormant(OrderId(2)));
    assert!(book.is_dormant(OrderId(3)));

    assert_eq!(book.record_fill(OrderId(1), 40, 3).unwrap(), true);
    assert!(book.get(OrderId(2)).unwrap().is_active());
    assert!(book.get(OrderId(3)).unwrap().is_active());
}
