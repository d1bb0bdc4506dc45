use trendlab_core::indicators::{Adx, Aroon, Atr, Donchian, Ema, Momentum, Roc, Rsi, Sma};
use trendlab_core::warmup::{compute_warmup, run_warmup, Indicator, WarmupState};

#[test]
fn compute_warmup_max_lookback() {
    let lookbacks = [
        Sma::new(5).lookback(),  // lookback 4
        Ema::new(20).lookback(), // lookback 19
        Sma::new(10).lookback(), // lookback 9
    ];
    assert_eq!(compute_warmup(&lookbacks), 19);
}

#[test]
fn compute_warmup_empty() {
    let lookbacks: [usize; 0] = [];
    assert_eq!(compute_warmup(&lookbacks), 0);
}

#[test]
fn test_warmup_state() {
    let mut warmup = WarmupState::new(20);
    assert!(!warmup.is_warm());
    assert_eq!(warmup.bars_until_warm(), 20);

    for _ in 0..19 {
        warmup.process_bar();
    }
    assert!(!warmup.is_warm());
    assert_eq!(warmup.bars_until_warm(), 1);

    warmup.process_bar();
    assert!(warmup.is_warm());
    assert_eq!(warmup.bars_until_warm(), 0);
}

#[test]
fn test_zero_warmup() {
    let warmup = WarmupState::new(0);
    assert!(warmup.is_warm());
    assert_eq!(warmup.bars_until_warm(), 0);
}

#[test]
fn test_warmup_progress() {
    let mut warmup = WarmupState::new(10);

    for i in 1..=10 {
        warmup.process_bar();
        if i < 10 {
            assert!(!warmup.is_warm());
            assert_eq!(warmup.bars_until_warm(), 10 - i);
        } else {
            assert!(warmup.is_warm());
            assert_eq!(warmup.bars_until_warm(), 0);
        }
    }
}

struct MockIndicator {
    lookback: usize,
}

impl Indicator for MockIndicator {
    // The lookback the library's contract speaks of; `max_lookback` reports it.
    fn spec_max_lookback(&self) -> usize {
        self.lookback
    }

    fn max_lookback(&self) -> usize {
        self.lookback
    }
}

#[test]
fn test_from_features() {
    let features = vec![
        MockIndicator { lookback: 20 },
        MockIndicator { lookback: 50 },
        MockIndicator { lookback: 10 },
    ];

    let warmup = WarmupState::from_features(&features);
    assert_eq!(warmup.bars_until_warm(), 50); // max lookback
}

#[test]
fn test_from_empty_features() {
    let features: Vec<MockIndicator> = vec![];
    let warmup = WarmupState::from_features(&features);
    assert_eq!(warmup.bars_until_warm(), 0);
    assert!(warmup.is_warm());
}

#[test]
fn warmup_stays_warm_after_reaching_zero() {
    let mut warmup = WarmupState::new(2);
    warmup.process_bar();
    warmup.process_bar();
    warmup.process_bar();
    assert!(warmup.is_warm());
    assert_eq!(warmup.bars_until_warm(), 0);
}

#[test]
fn warmup_from_lookbacks_takes_the_maximum() {
    let w = WarmupState::from_lookbacks(&[
        Adx::new(14).lookback(),
        Aroon::up(25).lookback(),
        Atr::new(14).lookback(),
        Donchian::upper(20).lookback(),
        Momentum::new(20).lookback(),
        Roc::new(14).lookback(),
        Rsi::new(14).lookback(),
    ]);
    assert_eq!(w.bars_until_warm(), 28);
}

#[test]
fn run_warmup_takes_the_longer_of_config_and_lookbacks() {
    assert_eq!(run_warmup(10, &[20, 50, 10]), 50);
    assert_eq!(run_warmup(60, &[20, 50, 10]), 60);
    assert_eq!(run_warmup(0, &[]), 0);
    assert_eq!(run_warmup(7, &[]), 7);
}
