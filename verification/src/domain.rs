//! Small vocabulary types shared by the engine: market status, sides,
//! asset classes, trading modes and price levels.

use vstd::prelude::*;

verus! {

/// Whether the market is open or closed for a symbol on a given bar.
///
/// A bar whose prices are all missing (produced by multi-symbol alignment)
/// has `MarketStatus::Closed`.
#[derive(Debug, Clone, Copy, PartialEq, Eq, Structural)]
pub enum MarketStatus {
    Open,
    Closed,
}

/// Asset classification.
#[derive(Debug, Clone, Copy, PartialEq, Eq, Structural)]
pub enum AssetClass {
    Equity,
    Etf,
    Future,
    Option,
}

/// Side of an order. Buy orders round prices up to the next tick, sell
/// orders round down.
#[derive(Debug, Clone, Copy, PartialEq, Eq, Structural)]
pub enum OrderSide {
    Buy,
    Sell,
}

/// Direction of a position.
#[derive(Debug, Clone, Copy, PartialEq, Eq, Structural)]
pub enum PositionSide {
    Long,
    Short,
    Flat,
}

/// Which directions a strategy may trade.
#[derive(Debug, Clone, Copy, PartialEq, Eq, Structural)]
pub enum TradingMode {
    LongOnly,
    ShortOnly,
    LongShort,
}

/// Whether a trading mode lets a signal open a position with an entry on
/// `side` (a buy opens a long, a sell opens a short).
pub open spec fn mode_permits(mode: TradingMode, side: OrderSide) -> bool {
    match mode {
        TradingMode::LongOnly => side == OrderSide::Buy,
        TradingMode::ShortOnly => side == OrderSide::Sell,
        TradingMode::LongShort => true,
    }
}

impl TradingMode {
    /// The trading-mode filter on entry signals: long-only runs drop short
    /// entries, short-only runs drop long entries.
    pub fn permits_entry(&self, side: OrderSide) -> (b: bool)
        ensures
            b == mode_permits(*self, side),
    {
        match self {
            TradingMode::LongOnly => match side {
                OrderSide::Buy => true,
                OrderSide::Sell => false,
            },
            TradingMode::ShortOnly => match side {
                OrderSide::Buy => false,
                OrderSide::Sell => true,
            },
            TradingMode::LongShort => true,
        }
    }
}

/// A price level.
///
/// The rules of this library only ever compare prices and pick one of
/// several; they never add or scale them. A price is therefore carried as an
/// integer whose order is the order of the market prices it stands for: two
/// prices compare the way their integers compare.
#[derive(Debug, Clone, Copy, PartialEq, Eq, Hash, Structural)]
pub struct Price(pub i64);

/// The higher of two prices.
pub open spec fn price_max(a: Price, b: Price) -> Price {
    if a.0 >= b.0 { a } else { b }
}

/// The lower of two prices.
pub open spec fn price_min(a: Price, b: Price) -> Price {
    if a.0 <= b.0 { a } else { b }
}

/// The open, high, low and close levels of a bar on which the market traded.
#[derive(Debug, Clone, Copy, PartialEq, Eq, Structural)]
pub struct PriceBar {
    pub open: Price,
    pub high: Price,
    pub low: Price,
    pub close: Price,
}

} // verus!
