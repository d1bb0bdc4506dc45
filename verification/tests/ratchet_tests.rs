use trendlab_core::domain::{OrderSide, PositionSide, Price};
use trendlab_core::ids::{IdGen, OrderId};
use trendlab_core::order::{OrderStatus, OrderType};
use trendlab_core::order_book::OrderBook;
use trendlab_core::ratchet::{apply_pm_intent, enforce_ratchet, IntentAction, OrderIntent};

fn px(x: f64) -> Price {
    Price((x * 100.0).round() as i64)
}

#[test]
fn enforce_ratchet_long_tightens() {
    let intent = OrderIntent::adjust_stop(px(97.0)); // tighter (higher)
    let result = enforce_ratchet(&intent, PositionSide::Long, Some(px(95.0)));
    assert_eq!(result.stop_price, Some(px(97.0)));
}

#[test]
fn enforce_ratchet_long_clamps_loosening() {
    let intent = OrderIntent::adjust_stop(px(90.0)); // loosening (lower)
    let result = enforce_ratchet(&intent, PositionSide::Long, Some(px(95.0)));
    assert_eq!(result.stop_price, Some(px(95.0)));
}

#[test]
fn enforce_ratchet_short_tightens() {
    let intent = OrderIntent::adjust_stop(px(103.0)); // tighter (lower)
    let result = enforce_ratchet(&intent, PositionSide::Short, Some(px(105.0)));
    assert_eq!(result.stop_price, Some(px(103.0)));
}

#[test]
fn enforce_ratchet_short_clamps_loosening() {
    let intent = OrderIntent::adjust_stop(px(110.0)); // loosening (higher)
    let result = enforce_ratchet(&intent, PositionSide::Short, Some(px(105.0)));
    assert_eq!(result.stop_price, Some(px(105.0)));
}

#[test]
fn enforce_ratchet_no_existing_stop() {
    let intent = OrderIntent::adjust_stop(px(90.0));
    let result = enforce_ratchet(&intent, PositionSide::Long, None);
    assert_eq!(result.stop_price, Some(px(90.0)));
}

#[test]
fn enforce_ratchet_force_exit_passes_through() {
    let intent = OrderIntent::force_exit();
    let result = enforce_ratchet(&intent, PositionSide::Long, None);
    assert_eq!(result.action, IntentAction::ForceExit);
}

#[test]
fn ratchet_turns_flat_or_priceless_adjustment_into_hold() {
    let flat = enforce_ratchet(&OrderIntent::adjust_stop(px(90.0)), PositionSide::Flat, None);
    assert_eq!(flat, OrderIntent::hold());
    let priceless = OrderIntent { action: IntentAction::AdjustStop, stop_price: None };
    assert_eq!(enforce_ratchet(&priceless, PositionSide::Long, None), OrderIntent::hold());
}

#[test]
fn ratchet_series_never_loosens_a_long_stop() {
    let mut current = None;
    let mut levels = Vec::new();
    for requested in [95.0, 97.0, 96.0, 99.0, 90.0] {
        let r = enforce_ratchet(&OrderIntent::adjust_stop(px(requested)), PositionSide::Long, current);
        current = r.stop_price;
        levels.push(current.unwrap());
    }
    assert_eq!(levels, vec![px(95.0), px(97.0), px(97.0), px(99.0), px(99.0)]);
}

#[test]
fn pm_first_stop_is_submitted_and_recorded() {
    let mut book = OrderBook::new();
    let mut ids = IdGen::default();
    let mut stop = None;
    let mut cur: Option<Price> = None;
    apply_pm_intent(&OrderIntent::adjust_stop(px(95.0)), "SPY", PositionSide::Long, 100, &mut cur, &mut book, &mut ids, &mut stop, 3);
    assert_eq!(stop, Some(OrderId(0)));
    assert_eq!(cur, Some(px(95.0)));
    let o = book.get(OrderId(0)).unwrap();
    assert_eq!(o.side, OrderSide::Sell);
    assert_eq!(o.order_type, OrderType::StopMarket { trigger_price: px(95.0) });
    assert_eq!(o.quantity, 100);
    assert_eq!(o.created_bar, 3);
    assert_eq!(o.status, OrderStatus::Pending);
}

#[test]
fn pm_stop_move_replaces_active_stop() {
    let mut book = OrderBook::new();
    let mut ids = IdGen::default();
    let mut stop = None;
    let mut cur: Option<Price> = None;
    apply_pm_intent(&OrderIntent::adjust_stop(px(95.0)), "SPY", PositionSide::Long, 100, &mut cur, &mut book, &mut ids, &mut stop, 3);
    apply_pm_intent(&OrderIntent::adjust_stop(px(97.0)), "SPY", PositionSide::Long, 100, &mut cur, &mut book, &mut ids, &mut stop, 4);
    assert_eq!(stop, Some(OrderId(1)));
    assert!(matches!(book.get(OrderId(0)).unwrap().status, OrderStatus::Cancelled { .. }));
    assert!(book.get(OrderId(1)).unwrap().is_active());
    assert_eq!(book.active_count(), 1);
}

#[test]
fn pm_force_exit_cancels_stop_and_places_moo_exit() {
    let mut book = OrderBook::new();
    let mut ids = IdGen::default();
    let mut stop = None;
    let mut cur: Option<Price> = None;
    apply_pm_intent(&OrderIntent::adjust_stop(px(103.0)), "SPY", PositionSide::Short, 50, &mut cur, &mut book, &mut ids, &mut stop, 1);
    apply_pm_intent(&OrderIntent::force_exit(), "SPY", PositionSide::Short, 50, &mut cur, &mut book, &mut ids, &mut stop, 2);
    assert_eq!(stop, None);
    assert_eq!(cur, Some(px(103.0)));
    assert_eq!(
        book.get(OrderId(0)).unwrap().status,
        OrderStatus::Cancelled { reason: "PM force exit".into() }
    );
    let exit = book.get(OrderId(1)).unwrap();
    assert_eq!(exit.order_type, OrderType::MarketOnOpen);
    assert_eq!(exit.side, OrderSide::Buy);
    assert_eq!(exit.quantity, 50);
}

#[test]
fn pm_intent_on_flat_position_does_nothing() {
    let mut book = OrderBook::new();
    let mut ids = IdGen::default();
    let mut stop = None;
    let mut cur: Option<Price> = None;
    apply_pm_intent(&OrderIntent::force_exit(), "SPY", PositionSide::Flat, 10, &mut cur, &mut book, &mut ids, &mut stop, 0);
    assert!(!book.has_active_orders());
    assert_eq!(cur, None);
    assert_eq!(ids.next_order_id(), OrderId(0));
}

use trendlab_core::bar_loop::{admit_entry, manage_position, plan_bar, SymbolStep};
use trendlab_core::domain::TradingMode;

#[test]
fn plan_bar_skips_warmup_and_void_bars() {
    let void = [false, true, false];
    let held = [true, false, false];
    assert_eq!(plan_bar(3, 5, &void, &held), vec![SymbolStep::Skip; 3]);
    assert_eq!(
        plan_bar(5, 5, &void, &held),
        vec![SymbolStep::ManagePosition, SymbolStep::Skip, SymbolStep::EvaluateSignal]
    );
}

#[test]
fn entries_pass_mode_and_filter() {
    assert!(admit_entry(TradingMode::LongOnly, OrderSide::Buy, true));
    assert!(!admit_entry(TradingMode::LongOnly, OrderSide::Sell, true));
    assert!(!admit_entry(TradingMode::LongShort, OrderSide::Buy, false));
}

#[test]
fn managed_stop_is_ratcheted_and_recorded() {
    let mut book = OrderBook::new();
    let mut ids = IdGen::default();
    let mut stop = None;
    let mut cur: Option<Price> = None;
    manage_position(&OrderIntent::adjust_stop(px(95.0)), "SPY", PositionSide::Long, 100, &mut cur, &mut book, &mut ids, &mut stop, 1);
    manage_position(&OrderIntent::adjust_stop(px(90.0)), "SPY", PositionSide::Long, 100, &mut cur, &mut book, &mut ids, &mut stop, 2);
    assert_eq!(cur, Some(px(95.0)));
    let o = book.get(stop.unwrap()).unwrap();
    assert_eq!(o.order_type, OrderType::StopMarket { trigger_price: px(95.0) });
    assert!(o.is_active());
    assert_eq!(book.active_count(), 1);
}
