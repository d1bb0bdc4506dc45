use trendlab_core::guards::{RejectionReason, RiskGuard};

#[test]
fn test_risk_guard_triggers() {
    let guard = RiskGuard::new(10);
    let result = guard.evaluate(0, 10);
    assert!(result.is_some());
    assert_eq!(result.unwrap().reason, RejectionReason::RiskGuard);
}

#[test]
fn test_risk_guard_passes() {
    let guard = RiskGuard::new(10);
    let result = guard.evaluate(0, 5);
    assert!(result.is_none());
}

#[test]
fn test_rejection_reason_display() {
    assert_eq!(RejectionReason::VolatilityGuard.to_string(), "VolatilityGuard");
    assert_eq!(RejectionReason::LiquidityGuard.to_string(), "LiquidityGuard");
    assert_eq!(RejectionReason::MarginGuard.to_string(), "MarginGuard");
    assert_eq!(RejectionReason::RiskGuard.to_string(), "RiskGuard");
}

#[test]
fn risk_guard_rejection_carries_context() {
    let guard = RiskGuard::new(3);
    let rej = guard.evaluate(42, 7).unwrap();
    assert_eq!(rej.bar_index, 42);
    assert_eq!(rej.signal, "Long");
    assert_eq!(rej.context, "open_positions=7, max_positions=3");
    assert_eq!(guard.name(), "RiskGuard");
}

#[test]
fn risk_guard_boundary() {
    let guard = RiskGuard::new(2);
    assert!(!guard.rejects(1));
    assert!(guard.rejects(2));
    assert!(guard.rejects(3));
    let zero = RiskGuard::new(0);
    assert!(zero.rejects(0));
}

use trendlab_core::domain::{OrderSide, TradingMode};

#[test]
fn trading_mode_filters_entry_sides() {
    assert!(TradingMode::LongOnly.permits_entry(OrderSide::Buy));
    assert!(!TradingMode::LongOnly.permits_entry(OrderSide::Sell));
    assert!(!TradingMode::ShortOnly.permits_entry(OrderSide::Buy));
    assert!(TradingMode::ShortOnly.permits_entry(OrderSide::Sell));
    assert!(TradingMode::LongShort.permits_entry(OrderSide::Buy));
    assert!(TradingMode::LongShort.permits_entry(OrderSide::Sell));
}
