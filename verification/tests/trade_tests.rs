use trendlab_core::domain::OrderSide;
use trendlab_core::trades::pair_round_trips;

#[test]
fn pairing_of_no_fills_is_empty() {
    assert!(pair_round_trips(&[], 1).is_empty());
}

#[test]
fn long_and_short_round_trips_pair_by_symbol() {
    // symbol 0: buy then sell (long); symbol 1: sell then buy (short), interleaved
    let fills = [(0, OrderSide::Buy), (1, OrderSide::Sell), (0, OrderSide::Sell), (1, OrderSide::Buy)];
    assert_eq!(pair_round_trips(&fills, 2), vec![(0, 2), (1, 3)]);
}

#[test]
fn pairing_leaves_unmatched_entry_open() {
    let fills = [(0, OrderSide::Buy), (0, OrderSide::Sell), (0, OrderSide::Buy)];
    assert_eq!(pair_round_trips(&fills, 1), vec![(0, 1)]);
}

#[test]
fn same_side_fill_replaces_open_entry() {
    let fills = [(0, OrderSide::Buy), (0, OrderSide::Buy), (0, OrderSide::Sell)];
    assert_eq!(pair_round_trips(&fills, 1), vec![(1, 2)]);
}
