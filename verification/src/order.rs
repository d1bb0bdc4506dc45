//! Orders, their lifecycle states, brackets, OCO groups and audit entries.

use vstd::prelude::*;

use crate::domain::{OrderSide, Price};
use crate::ids::{OcoGroupId, OrderId};

verus! {

/// What kind of order and its price parameters.
#[derive(Debug, Clone, Copy, PartialEq, Eq, Structural)]
pub enum OrderType {
    /// Fill at next bar's open price.
    MarketOnOpen,
    /// Fill at bar's close price.
    MarketOnClose,
    /// Fill immediately at current price (intrabar).
    MarketImmediate,
    /// Triggers when price reaches the trigger level, then fills as market.
    StopMarket { trigger_price: Price },
    /// Fill at limit price or better.
    Limit { limit_price: Price },
    /// Triggers at trigger_price, then becomes a limit order at limit_price.
    StopLimit { trigger_price: Price, limit_price: Price },
}

/// Order lifecycle states.
#[derive(Debug, PartialEq, Eq)]
pub enum OrderStatus {
    /// Waiting to be triggered or filled.
    Pending,
    /// Stop/stop-limit has triggered, waiting for fill.
    Triggered,
    /// Completely filled.
    Filled,
    /// Cancelled with a reason (OCO sibling filled, user cancel, replace, etc).
    Cancelled { reason: String },
    /// Expired (e.g., day order at end of bar).
    Expired,
}

/// An order status with its reason text as characters.
pub enum StatusView {
    Pending,
    Triggered,
    Filled,
    Cancelled(Seq<char>),
    Expired,
}

impl View for OrderStatus {
    type V = StatusView;

    open spec fn view(&self) -> StatusView {
        match self {
            OrderStatus::Pending => StatusView::Pending,
            OrderStatus::Triggered => StatusView::Triggered,
            OrderStatus::Filled => StatusView::Filled,
            OrderStatus::Cancelled { reason } => StatusView::Cancelled(reason@),
            OrderStatus::Expired => StatusView::Expired,
        }
    }
}

impl StatusView {
    /// Pending and Triggered orders are active; the other states are terminal.
    pub open spec fn is_active(self) -> bool {
        self is Pending || self is Triggered
    }
}

impl Clone for OrderStatus {
    fn clone(&self) -> (c: Self)
        ensures
            c@ == self@,
    {
        match self {
            OrderStatus::Pending => OrderStatus::Pending,
            OrderStatus::Triggered => OrderStatus::Triggered,
            OrderStatus::Filled => OrderStatus::Filled,
            OrderStatus::Cancelled { reason } => OrderStatus::Cancelled { reason: reason.clone() },
            OrderStatus::Expired => OrderStatus::Expired,
        }
    }
}

impl OrderStatus {
    /// A cancelled status carrying the given reason.
    pub fn cancelled(reason: &str) -> (s: Self)
        ensures
            s@ == StatusView::Cancelled(reason@),
    {
        OrderStatus::Cancelled { reason: String::from_str(reason) }
    }
}

/// A single order in the order book.
///
/// Quantities are counts of units; `filled_quantity` accumulates the fills
/// recorded against the order.
#[derive(Debug)]
pub struct Order {
    pub id: OrderId,
    pub symbol: String,
    pub side: OrderSide,
    pub order_type: OrderType,
    pub quantity: i64,
    pub filled_quantity: i64,
    pub status: OrderStatus,
    pub created_bar: usize,
    /// Parent order ID for bracket children.
    pub parent_id: Option<OrderId>,
    /// OCO group this order belongs to.
    pub oco_group_id: Option<OcoGroupId>,
    /// Bar index when this order was activated (bracket children only).
    /// Children activated during bar T are not eligible for fill until bar T+1.
    pub activated_bar: Option<usize>,
}

/// An order with its texts as characters.
pub struct OrderView {
    pub id: OrderId,
    pub symbol: Seq<char>,
    pub side: OrderSide,
    pub order_type: OrderType,
    pub quantity: i64,
    pub filled_quantity: i64,
    pub status: StatusView,
    pub created_bar: usize,
    pub parent_id: Option<OrderId>,
    pub oco_group_id: Option<OcoGroupId>,
    pub activated_bar: Option<usize>,
}

impl View for Order {
    type V = OrderView;

    open spec fn view(&self) -> OrderView {
        OrderView {
            id: self.id,
            symbol: self.symbol@,
            side: self.side,
            order_type: self.order_type,
            quantity: self.quantity,
            filled_quantity: self.filled_quantity,
            status: self.status@,
            created_bar: self.created_bar,
            parent_id: self.parent_id,
            oco_group_id: self.oco_group_id,
            activated_bar: self.activated_bar,
        }
    }
}

impl OrderView {
    pub open spec fn is_active(self) -> bool {
        self.status.is_active()
    }

    /// The same order in another state.
    pub open spec fn with_status(self, status: StatusView) -> OrderView {
        OrderView { status, ..self }
    }
}

impl Clone for Order {
    fn clone(&self) -> (c: Self)
        ensures
            c@ == self@,
    {
        Order {
            id: self.id,
            symbol: self.symbol.clone(),
            side: self.side,
            order_type: self.order_type,
            quantity: self.quantity,
            filled_quantity: self.filled_quantity,
            status: self.status.clone(),
            created_bar: self.created_bar,
            parent_id: self.parent_id,
            oco_group_id: self.oco_group_id,
            activated_bar: self.activated_bar,
        }
    }
}

impl Order {
    pub fn remaining_quantity(&self) -> (r: i64)
        requires
            i64::MIN <= self.quantity - self.filled_quantity <= i64::MAX,
        ensures
            r == self.quantity - self.filled_quantity,
    {
        self.quantity - self.filled_quantity
    }

    pub fn is_active(&self) -> (b: bool)
        ensures
            b == self@.is_active(),
    {
        match self.status {
            OrderStatus::Pending | OrderStatus::Triggered => true,
            _ => false,
        }
    }
}

/// A bracket order: entry + stop-loss + optional take-profit.
///
/// Stop-loss and take-profit children activate only after the entry fills.
/// Children are linked as an OCO group (one-cancels-other).
#[derive(Debug, Clone, Copy, PartialEq, Eq, Structural)]
pub struct BracketOrder {
    pub entry_id: OrderId,
    pub stop_loss_id: OrderId,
    pub take_profit_id: Option<OrderId>,
    pub oco_group_id: OcoGroupId,
}

/// One-cancels-other group: when any member fills, all others are cancelled.
#[derive(Debug)]
pub struct OcoGroup {
    pub id: OcoGroupId,
    pub order_ids: Vec<OrderId>,
}

/// An OCO group with its members as a sequence.
pub struct OcoGroupView {
    pub id: OcoGroupId,
    pub order_ids: Seq<OrderId>,
}

impl View for OcoGroup {
    type V = OcoGroupView;

    open spec fn view(&self) -> OcoGroupView {
        OcoGroupView { id: self.id, order_ids: self.order_ids@ }
    }
}

impl Clone for OcoGroup {
    fn clone(&self) -> (c: Self)
        ensures
            c@ == self@,
    {
        OcoGroup { id: self.id, order_ids: self.order_ids.clone() }
    }
}

/// Audit trail entry for an order state transition.
#[derive(Debug)]
pub struct OrderAuditEntry {
    pub order_id: OrderId,
    pub bar_index: usize,
    pub from_status: OrderStatus,
    pub to_status: OrderStatus,
    pub reason: String,
}

/// An audit entry with its texts as characters.
pub struct AuditView {
    pub order_id: OrderId,
    pub bar_index: usize,
    pub from_status: StatusView,
    pub to_status: StatusView,
    pub reason: Seq<char>,
}

impl View for OrderAuditEntry {
    type V = AuditView;

    open spec fn view(&self) -> AuditView {
        AuditView {
            order_id: self.order_id,
            bar_index: self.bar_index,
            from_status: self.from_status@,
            to_status: self.to_status@,
            reason: self.reason@,
        }
    }
}

impl Clone for OrderAuditEntry {
    fn clone(&self) -> (c: Self)
        ensures
            c@ == self@,
    {
        OrderAuditEntry {
            order_id: self.order_id,
            bar_index: self.bar_index,
            from_status: self.from_status.clone(),
            to_status: self.to_status.clone(),
            reason: self.reason.clone(),
        }
    }
}

} // verus!
