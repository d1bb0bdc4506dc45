use trendlab_core::domain::{OrderSide, PositionSide, Price};
use trendlab_core::ids::OrderId;
use trendlab_core::order::{Order, OrderStatus, OrderType};
use trendlab_core::path_policy::{order_evaluation_sequence, PathPolicy};

fn px(x: f64) -> Price {
    Price((x * 100.0).round() as i64)
}

/// The bar's open level and whether it reaches its high before its low.
fn bar(open: f64, high: f64, low: f64, _close: f64) -> (Price, bool) {
    (px(open), (open - high).abs() <= (open - low).abs())
}

fn make_order(id: u64, side: OrderSide, order_type: OrderType) -> Order {
    Order {
        id: OrderId(id),
        symbol: "SPY".into(),
        side,
        order_type,
        quantity: 100,
        filled_quantity: 0,
        status: OrderStatus::Pending,
        created_bar: 0,
        parent_id: None,
        oco_group_id: None,
        activated_bar: None,
    }
}

#[test]
fn worst_case_long_position_stop_first() {
    let stop = make_order(1, OrderSide::Sell, OrderType::StopMarket { trigger_price: px(95.0) });
    let tp = make_order(2, OrderSide::Sell, OrderType::Limit { limit_price: px(110.0) });
    let orders: Vec<&Order> = vec![&tp, &stop]; // intentionally reversed

    let (open, high_first) = bar(100.0, 112.0, 94.0, 105.0);
    let seq = order_evaluation_sequence(&orders, Some(PositionSide::Long), PathPolicy::WorstCase, open, high_first);

    assert_eq!(seq[0], OrderId(1));
    assert_eq!(seq[1], OrderId(2));
}

#[test]
fn best_case_long_position_tp_first() {
    let stop = make_order(1, OrderSide::Sell, OrderType::StopMarket { trigger_price: px(95.0) });
    let tp = make_order(2, OrderSide::Sell, OrderType::Limit { limit_price: px(110.0) });
    let orders: Vec<&Order> = vec![&stop, &tp];

    let (open, high_first) = bar(100.0, 112.0, 94.0, 105.0);
    let seq = order_evaluation_sequence(&orders, Some(PositionSide::Long), PathPolicy::BestCase, open, high_first);

    assert_eq!(seq[0], OrderId(2));
    assert_eq!(seq[1], OrderId(1));
}

#[test]
fn deterministic_high_first_path() {
    // |open - high| = 3, |open - low| = 8 → high first
    let (open, high_first) = bar(100.0, 103.0, 92.0, 98.0);

    let stop = make_order(1, OrderSide::Sell, OrderType::StopMarket { trigger_price: px(95.0) });
    let tp = make_order(2, OrderSide::Sell, OrderType::Limit { limit_price: px(102.0) });
    let orders: Vec<&Order> = vec![&stop, &tp];

    let seq = order_evaluation_sequence(&orders, Some(PositionSide::Long), PathPolicy::Deterministic, open, high_first);

    assert_eq!(seq[0], OrderId(2));
    assert_eq!(seq[1], OrderId(1));
}

#[test]
fn single_order_returns_itself() {
    let order = make_order(1, OrderSide::Buy, OrderType::MarketOnOpen);
    let orders: Vec<&Order> = vec![&order];
    let (open, high_first) = bar(100.0, 105.0, 98.0, 103.0);
    let seq = order_evaluation_sequence(&orders, None, PathPolicy::WorstCase, open, high_first);
    assert_eq!(seq, vec![OrderId(1)]);
}

#[test]
fn empty_orders_returns_empty() {
    let orders: Vec<&Order> = vec![];
    let (open, high_first) = bar(100.0, 105.0, 98.0, 103.0);
    let seq = order_evaluation_sequence(&orders, None, PathPolicy::WorstCase, open, high_first);
    assert!(seq.is_empty());
}

#[test]
fn deterministic_low_first_path() {
    // |open - high| = 8, |open - low| = 3 → low first
    let (open, high_first) = bar(100.0, 108.0, 97.0, 101.0);
    assert!(!high_first);

    let tp = make_order(1, OrderSide::Sell, OrderType::Limit { limit_price: px(105.0) });
    let stop = make_order(2, OrderSide::Sell, OrderType::StopMarket { trigger_price: px(98.0) });
    let far_stop = make_order(3, OrderSide::Sell, OrderType::StopMarket { trigger_price: px(97.5) });
    let orders: Vec<&Order> = vec![&tp, &far_stop, &stop];

    let seq = order_evaluation_sequence(&orders, Some(PositionSide::Long), PathPolicy::Deterministic, open, high_first);
    assert_eq!(seq, vec![OrderId(2), OrderId(3), OrderId(1)]);
}

#[test]
fn worst_case_without_position_puts_stops_first_in_listed_order() {
    let limit = make_order(1, OrderSide::Buy, OrderType::Limit { limit_price: px(99.0) });
    let stop_a = make_order(2, OrderSide::Buy, OrderType::StopMarket { trigger_price: px(101.0) });
    let stop_b = make_order(
        3,
        OrderSide::Buy,
        OrderType::StopLimit { trigger_price: px(102.0), limit_price: px(103.0) },
    );
    let orders: Vec<&Order> = vec![&limit, &stop_a, &stop_b];
    let (open, high_first) = bar(100.0, 104.0, 98.0, 101.0);
    let seq = order_evaluation_sequence(&orders, None, PathPolicy::WorstCase, open, high_first);
    assert_eq!(seq, vec![OrderId(2), OrderId(3), OrderId(1)]);
}
