use trendlab_core::indicators::{
    Adx, Aroon, AroonBand, Atr, Donchian, DonchianBand, Ema, Momentum, Roc, Rsi, Sma,
};

#[test]
fn adx_lookback() {
    assert_eq!(Adx::new(14).lookback(), 28);
    assert_eq!(Adx::new(7).lookback(), 14);
}

#[test]
fn aroon_lookback() {
    assert_eq!(Aroon::up(25).lookback(), 25);
}

#[test]
fn atr_lookback() {
    assert_eq!(Atr::new(14).lookback(), 14);
}

#[test]
fn donchian_lookback() {
    assert_eq!(Donchian::upper(20).lookback(), 19);
    assert_eq!(Donchian::lower(1).lookback(), 0);
}

#[test]
fn ema_lookback() {
    assert_eq!(Ema::new(20).lookback(), 19);
    assert_eq!(Ema::new(1).lookback(), 0);
}

#[test]
fn momentum_lookback() {
    assert_eq!(Momentum::new(20).lookback(), 20);
}

#[test]
fn roc_lookback() {
    assert_eq!(Roc::new(14).lookback(), 14);
}

#[test]
fn rsi_lookback() {
    assert_eq!(Rsi::new(14).lookback(), 14);
}

#[test]
fn sma_lookback() {
    assert_eq!(Sma::new(20).lookback(), 19);
    assert_eq!(Sma::new(1).lookback(), 0);
}

#[test]
fn indicator_names_carry_their_period() {
    assert_eq!(Sma::new(3).name(), "sma_3");
    assert_eq!(Ema::new(20).name(), "ema_20");
    assert_eq!(Atr::new(14).name(), "atr_14");
    assert_eq!(Adx::new(14).name(), "adx_14");
    assert_eq!(Rsi::new(14).name(), "rsi_14");
    assert_eq!(Roc::new(10).name(), "roc_10");
    assert_eq!(Momentum::new(5).name(), "momentum_5");
    assert_eq!(Donchian::upper(20).name(), "donchian_upper_20");
    assert_eq!(Donchian::lower(55).name(), "donchian_lower_55");
    assert_eq!(Aroon::up(25).name(), "aroon_up_25");
    assert_eq!(Aroon::down(25).name(), "aroon_down_25");
}

#[test]
fn band_selectors_are_kept() {
    assert_eq!(Donchian::upper(20).band(), DonchianBand::Upper);
    assert_eq!(Donchian::lower(20).band(), DonchianBand::Lower);
    assert_eq!(Aroon::up(25).band(), AroonBand::Up);
    assert_eq!(Aroon::down(25).band(), AroonBand::Down);
}

// ── Window extremes of the Donchian channel and the Aroon lines ──

use trendlab_core::domain::Price;

fn px(x: f64) -> Price {
    Price((x * 100.0).round() as i64)
}

/// Highs and lows of (open, high, low, close) rows as levels (NaN → missing).
fn highs_lows(data: &[(f64, f64, f64, f64)]) -> (Vec<Option<Price>>, Vec<Option<Price>>) {
    let lvl = |x: f64| if x.is_nan() { None } else { Some(px(x)) };
    (data.iter().map(|r| lvl(r.1)).collect(), data.iter().map(|r| lvl(r.2)).collect())
}

fn aroon_value(off: Option<usize>, period: usize) -> f64 {
    match off {
        Some(o) => 100.0 * o as f64 / period as f64,
        None => f64::NAN,
    }
}

const CHANNEL_ROWS: [(f64, f64, f64, f64); 5] = [
    (10.0, 12.0, 9.0, 11.0),
    (11.0, 15.0, 10.0, 14.0),
    (14.0, 14.0, 13.0, 13.5),
    (13.5, 16.0, 12.0, 15.0),
    (15.0, 15.5, 14.0, 14.5),
];

#[test]
fn donchian_upper_3() {
    let (h, l) = highs_lows(&CHANNEL_ROWS);
    let result = Donchian::upper(3).channel(&h, &l);
    assert!(result[0].is_none());
    assert!(result[1].is_none());
    assert_eq!(result[2], Some(px(15.0)));
    assert_eq!(result[3], Some(px(16.0)));
    assert_eq!(result[4], Some(px(16.0)));
}

#[test]
fn donchian_lower_3() {
    let (h, l) = highs_lows(&CHANNEL_ROWS);
    let result = Donchian::lower(3).channel(&h, &l);
    assert!(result[0].is_none());
    assert!(result[1].is_none());
    assert_eq!(result[2], Some(px(9.0)));
    assert_eq!(result[3], Some(px(10.0)));
    assert_eq!(result[4], Some(px(12.0)));
}

#[test]
fn donchian_nan_propagation() {
    let (h, l) = highs_lows(&[
        (10.0, 12.0, 9.0, 11.0),
        (11.0, f64::NAN, f64::NAN, 14.0),
        (14.0, 14.0, 13.0, 13.5),
    ]);
    assert!(Donchian::upper(3).channel(&h, &l)[2].is_none());
    assert!(Donchian::lower(3).channel(&h, &l)[2].is_none());
}

#[test]
fn aroon_up_highest_at_end() {
    let (h, l) = highs_lows(&[
        (9.0, 10.0, 8.0, 9.5),
        (9.5, 11.0, 9.0, 10.5),
        (10.5, 12.0, 10.0, 11.5),
        (11.5, 13.0, 11.0, 12.5),
    ]);
    let offs = Aroon::up(3).extreme_offsets(&h, &l);
    assert_eq!(aroon_value(offs[3], 3), 100.0);
}

#[test]
fn aroon_up_highest_at_start() {
    let (h, l) = highs_lows(&[
        (19.0, 20.0, 18.0, 19.5),
        (9.5, 11.0, 9.0, 10.5),
        (10.5, 12.0, 10.0, 11.5),
        (11.5, 13.0, 11.0, 12.5),
    ]);
    let offs = Aroon::up(3).extreme_offsets(&h, &l);
    assert_eq!(aroon_value(offs[3], 3), 0.0);
}

#[test]
fn aroon_down_lowest_at_end() {
    let (h, l) = highs_lows(&[
        (9.0, 10.0, 8.0, 9.5),
        (9.5, 11.0, 7.0, 10.5),
        (10.5, 12.0, 6.0, 11.5),
        (11.5, 13.0, 5.0, 12.5),
    ]);
    let offs = Aroon::down(3).extreme_offsets(&h, &l);
    assert_eq!(aroon_value(offs[3], 3), 100.0);
}

#[test]
fn aroon_bounds() {
    let (h, l) = highs_lows(&[
        (10.0, 15.0, 5.0, 12.0),
        (12.0, 14.0, 8.0, 10.0),
        (10.0, 16.0, 7.0, 13.0),
        (13.0, 13.5, 9.0, 11.0),
        (11.0, 17.0, 6.0, 14.0),
    ]);
    let up = Aroon::up(3).extreme_offsets(&h, &l);
    let down = Aroon::down(3).extreme_offsets(&h, &l);
    for i in 3..5 {
        assert!((0.0..=100.0).contains(&aroon_value(up[i], 3)));
        assert!((0.0..=100.0).contains(&aroon_value(down[i], 3)));
    }
}

#[test]
fn aroon_nan_propagation() {
    let (h, l) = highs_lows(&[
        (10.0, 15.0, 5.0, 12.0),
        (12.0, f64::NAN, 8.0, 10.0),
        (10.0, 16.0, 7.0, 13.0),
    ]);
    let offs = Aroon::up(2).extreme_offsets(&h, &l);
    assert!(aroon_value(offs[2], 2).is_nan());
}

#[test]
fn aroon_ties_take_the_latest_extreme() {
    let (h, l) = highs_lows(&[
        (9.0, 12.0, 8.0, 9.5),
        (9.5, 11.0, 9.0, 10.5),
        (10.5, 12.0, 10.0, 11.5),
    ]);
    assert_eq!(Aroon::up(2).extreme_offsets(&h, &l)[2], Some(2));
    assert_eq!(Aroon::up(2).extreme_offsets(&h, &l)[0], None);
}
