use trendlab_core::domain::{OrderSide, PositionSide, Price, PriceBar};
use trendlab_core::ids::{OcoGroupId, OrderId};
use trendlab_core::order::{OcoGroup, Order, OrderStatus, OrderType};
use trendlab_core::order_book::OrderBook;
use trendlab_core::path_policy::PathPolicy;
use trendlab_core::phases::{
    process_end_of_bar, process_intrabar, process_start_of_bar, FillPhase, SymbolBar,
};
use trendlab_core::trigger::GapPolicy;

fn px(x: f64) -> Price {
    Price((x * 100.0).round() as i64)
}

fn spy_bar(open: f64, high: f64, low: f64, close: f64) -> SymbolBar {
    SymbolBar {
        symbol: "SPY".into(),
        bar: Some(PriceBar { open: px(open), high: px(high), low: px(low), close: px(close) }),
        high_first: (open - high).abs() <= (open - low).abs(),
        qty_cap: None,
        position_side: None,
    }
}

fn make_order(id: u64, side: OrderSide, order_type: OrderType) -> Order {
    Order {
        id: OrderId(id),
        symbol: "SPY".into(),
        side,
        order_type,
        quantity: 100,
        filled_quantity: 0,
        status: OrderStatus::Pending,
        created_bar: 0,
        parent_id: None,
        oco_group_id: None,
        activated_bar: None,
    }
}

// ── Start-of-bar tests ──────────────────────────────────────────

#[test]
fn start_of_bar_fills_moo() {
    let mut book = OrderBook::new();
    book.submit(make_order(1, OrderSide::Buy, OrderType::MarketOnOpen));

    let bars = vec![spy_bar(100.0, 105.0, 98.0, 103.0)];
    let fills = process_start_of_bar(&mut book, &bars, 0);

    assert_eq!(fills.len(), 1);
    assert_eq!(fills[0].level, px(100.0));
    assert_eq!(fills[0].quantity, 100);
    assert_eq!(fills[0].phase, FillPhase::StartOfBar);
    assert_eq!(book.get(OrderId(1)).unwrap().status, OrderStatus::Filled);
}

#[test]
fn start_of_bar_fills_immediate() {
    let mut book = OrderBook::new();
    book.submit(make_order(1, OrderSide::Buy, OrderType::MarketImmediate));

    let bars = vec![spy_bar(100.0, 105.0, 98.0, 103.0)];
    let fills = process_start_of_bar(&mut book, &bars, 0);
    assert_eq!(fills.len(), 1);
    assert_eq!(fills[0].level, px(100.0));
}

#[test]
fn start_of_bar_skips_void_bar() {
    let mut book = OrderBook::new();
    book.submit(make_order(1, OrderSide::Buy, OrderType::MarketOnOpen));

    let bars = vec![SymbolBar {
        symbol: "SPY".into(),
        bar: None,
        high_first: true,
        qty_cap: None,
        position_side: None,
    }];
    let fills = process_start_of_bar(&mut book, &bars, 0);
    assert!(fills.is_empty());
    assert!(book.get(OrderId(1)).unwrap().is_active());
}

// ── Intrabar tests ──────────────────────────────────────────────

#[test]
fn intrabar_fills_stop_market() {
    let mut book = OrderBook::new();
    book.submit(make_order(1, OrderSide::Sell, OrderType::StopMarket { trigger_price: px(98.0) }));

    let bars = vec![spy_bar(100.0, 105.0, 97.0, 103.0)];
    let fills = process_intrabar(&mut book, &bars, 0, PathPolicy::WorstCase, GapPolicy::FillAtOpen);
    assert_eq!(fills.len(), 1);
    assert_eq!(fills[0].level, px(98.0));
    assert_eq!(fills[0].phase, FillPhase::Intrabar);
}

#[test]
fn intrabar_gap_through_fills_at_open() {
    let mut book = OrderBook::new();
    book.submit(make_order(1, OrderSide::Sell, OrderType::StopMarket { trigger_price: px(100.0) }));

    let bars = vec![spy_bar(95.0, 97.0, 93.0, 96.0)];
    let fills = process_intrabar(&mut book, &bars, 0, PathPolicy::WorstCase, GapPolicy::FillAtOpen);
    assert_eq!(fills.len(), 1);
    assert_eq!(fills[0].level, px(95.0));
}

#[test]
fn intrabar_fills_limit_order() {
    let mut book = OrderBook::new();
    book.submit(make_order(1, OrderSide::Buy, OrderType::Limit { limit_price: px(98.0) }));

    let bars = vec![spy_bar(100.0, 105.0, 97.0, 103.0)];
    let fills = process_intrabar(&mut book, &bars, 0, PathPolicy::WorstCase, GapPolicy::FillAtOpen);
    assert_eq!(fills.len(), 1);
    assert_eq!(fills[0].level, px(98.0));
}

#[test]
fn intrabar_worst_case_stop_before_tp() {
    let mut book = OrderBook::new();

    let mut stop = make_order(1, OrderSide::Sell, OrderType::StopMarket { trigger_price: px(95.0) });
    stop.oco_group_id = Some(OcoGroupId(10));
    let mut tp = make_order(2, OrderSide::Sell, OrderType::Limit { limit_price: px(110.0) });
    tp.oco_group_id = Some(OcoGroupId(10));

    let oco = OcoGroup { id: OcoGroupId(10), order_ids: vec![OrderId(1), OrderId(2)] };
    book.submit(stop);
    book.submit(tp);
    book.register_oco_group(oco);

    let mut b = spy_bar(100.0, 112.0, 94.0, 105.0);
    b.position_side = Some(PositionSide::Long);
    let bars = vec![b];

    let fills = process_intrabar(&mut book, &bars, 0, PathPolicy::WorstCase, GapPolicy::FillAtOpen);

    assert_eq!(fills.len(), 1);
    assert_eq!(fills[0].order_id, OrderId(1));
    assert_eq!(fills[0].level, px(95.0));

    assert!(matches!(book.get(OrderId(2)).unwrap().status, OrderStatus::Cancelled { .. }));
}

#[test]
fn intrabar_same_bar_bracket_children_not_filled() {
    let mut book = OrderBook::new();

    let entry = make_order(1, OrderSide::Buy, OrderType::MarketOnOpen);
    let mut stop = make_order(2, OrderSide::Sell, OrderType::StopMarket { trigger_price: px(95.0) });
    stop.oco_group_id = Some(OcoGroupId(20));

    book.submit_bracket(entry, stop, None, OcoGroupId(20));

    let bars = vec![spy_bar(100.0, 105.0, 94.0, 103.0)];

    let _ = process_start_of_bar(&mut book, &bars, 0);

    assert!(book.get(OrderId(2)).unwrap().is_active());
    assert_eq!(book.get(OrderId(2)).unwrap().activated_bar, Some(0));

    let fills = process_intrabar(&mut book, &bars, 0, PathPolicy::WorstCase, GapPolicy::FillAtOpen);

    assert!(fills.is_empty());
    assert!(book.get(OrderId(2)).unwrap().is_active());
}

// ── End-of-bar tests ────────────────────────────────────────────

#[test]
fn end_of_bar_fills_moc() {
    let mut book = OrderBook::new();
    book.submit(make_order(1, OrderSide::Sell, OrderType::MarketOnClose));

    let bars = vec![spy_bar(100.0, 105.0, 98.0, 103.0)];
    let fills = process_end_of_bar(&mut book, &bars, 0);
    assert_eq!(fills.len(), 1);
    assert_eq!(fills[0].level, px(103.0));
    assert_eq!(fills[0].phase, FillPhase::EndOfBar);
}

// ── Further scenarios ───────────────────────────────────────────

#[test]
fn liquidity_cap_limits_fill_and_leaves_order_active() {
    let mut book = OrderBook::new();
    book.submit(make_order(1, OrderSide::Buy, OrderType::MarketOnOpen));

    let mut b = spy_bar(100.0, 105.0, 98.0, 103.0);
    b.qty_cap = Some(40);
    let bars = vec![b];
    let fills = process_start_of_bar(&mut book, &bars, 0);
    assert_eq!(fills.len(), 1);
    assert_eq!(fills[0].quantity, 40);
    let o = book.get(OrderId(1)).unwrap();
    assert!(o.is_active());
    assert_eq!(o.filled_quantity, 40);
}

#[test]
fn zero_cap_fills_nothing() {
    let mut book = OrderBook::new();
    book.submit(make_order(1, OrderSide::Sell, OrderType::MarketOnClose));
    let mut b = spy_bar(100.0, 105.0, 98.0, 103.0);
    b.qty_cap = Some(0);
    let fills = process_end_of_bar(&mut book, &[b], 0);
    assert!(fills.is_empty());
    assert!(book.get(OrderId(1)).unwrap().is_active());
}

#[test]
fn market_phase_ignores_symbols_without_bar() {
    let mut book = OrderBook::new();
    let mut qqq = make_order(1, OrderSide::Buy, OrderType::MarketOnOpen);
    qqq.symbol = "QQQ".into();
    book.submit(qqq);
    let fills = process_start_of_bar(&mut book, &[spy_bar(100.0, 105.0, 98.0, 103.0)], 0);
    assert!(fills.is_empty());
    assert!(book.get(OrderId(1)).unwrap().is_active());
}

#[test]
fn intrabar_stop_limit_triggers_without_fill() {
    let mut book = OrderBook::new();
    book.submit(make_order(
        1,
        OrderSide::Buy,
        OrderType::StopLimit { trigger_price: px(105.0), limit_price: px(95.0) },
    ));
    let bars = vec![spy_bar(100.0, 108.0, 98.0, 103.0)];
    let fills = process_intrabar(&mut book, &bars, 3, PathPolicy::Deterministic, GapPolicy::FillAtOpen);
    assert!(fills.is_empty());
    assert_eq!(book.get(OrderId(1)).unwrap().status, OrderStatus::Triggered);
}

#[test]
fn intrabar_stop_market_is_triggered_then_filled_in_audit() {
    let mut book = OrderBook::new();
    book.submit(make_order(1, OrderSide::Sell, OrderType::StopMarket { trigger_price: px(98.0) }));
    let bars = vec![spy_bar(100.0, 105.0, 97.0, 103.0)];
    let _ = process_intrabar(&mut book, &bars, 4, PathPolicy::BestCase, GapPolicy::FillAtOpen);
    let trail = book.audit_trail();
    assert_eq!(trail.len(), 2);
    assert_eq!(trail[0].to_status, OrderStatus::Triggered);
    assert_eq!(trail[1].to_status, OrderStatus::Filled);
}
