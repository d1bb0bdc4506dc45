//! Order book state machine — manages order lifecycle, OCO groups and brackets.
//!
//! The order book is the central registry for all orders. It manages:
//! - Order storage and lookup (active + historical)
//! - State transitions (Pending → Triggered → Filled / Cancelled / Expired)
//! - OCO enforcement (one fill cancels all siblings)
//! - Bracket activation (children activate only after entry fills)
//! - Atomic cancel/replace (no "stopless window")
//! - Audit trail for every state transition
//!
//! The order book does not compute fill prices; it tracks order state only.

use std::collections::HashMap;

use vstd::prelude::*;
use vstd::std_specs::hash::group_hash_axioms;

use crate::ids::{OcoGroupId, OrderId};
use crate::order::{
    AuditView, BracketOrder, OcoGroup, OcoGroupView, Order, OrderAuditEntry, OrderStatus,
    OrderType, OrderView, StatusView,
};

verus! {

broadcast use group_hash_axioms;

/// Errors from order book operations.
#[derive(Debug)]
pub enum OrderBookError {
    /// No order with this id is in the book.
    OrderNotFound(OrderId),
    /// The order is in a terminal state (its status is carried).
    OrderNotActive(OrderId, OrderStatus),
    /// The transition is not allowed from the order's state (from, to).
    InvalidTransition(OrderId, OrderStatus, OrderStatus),
    /// The order is a bracket child whose entry has not filled yet.
    OrderIsDormant(OrderId),
}

/// The abstract state of an order book.
pub struct BookView {
    /// Active and historical orders by id.
    pub orders: Map<u64, OrderView>,
    /// Bracket children waiting for their entry to fill, by entry id.
    pub dormant: Map<u64, Seq<OrderView>>,
    /// Bracket relationships by entry id.
    pub brackets: Map<u64, BracketOrder>,
    /// OCO groups by group id.
    pub oco_groups: Map<u64, OcoGroupView>,
    /// Every recorded state transition, oldest first.
    pub audit: Seq<AuditView>,
}

/// Every order of the map is stored under its own id.
pub open spec fn keyed_by_id(orders: Map<u64, OrderView>) -> bool {
    forall|k: u64| #[trigger] orders.contains_key(k) ==> orders[k].id.0 == k
}

/// An audit record.
pub open spec fn audit_entry(
    id: OrderId,
    bar: usize,
    from: StatusView,
    to: StatusView,
    reason: Seq<char>,
) -> AuditView {
    AuditView { order_id: id, bar_index: bar, from_status: from, to_status: to, reason }
}

/// Cancels, in group order, each listed order other than `filled` that is in
/// the book and still active, recording one audit entry per cancellation.
pub open spec fn oco_cancellation(
    orders: Map<u64, OrderView>,
    trail: Seq<AuditView>,
    members: Seq<OrderId>,
    filled: OrderId,
    bar: usize,
) -> (Map<u64, OrderView>, Seq<AuditView>)
    decreases members.len(),
{
    if members.len() == 0 {
        (orders, trail)
    } else {
        let (m, t) = oco_cancellation(orders, trail, members.drop_last(), filled, bar);
        let sid = members.last();
        if sid != filled && m.contains_key(sid.0) && m[sid.0].is_active() {
            let c = StatusView::Cancelled("OCO sibling filled"@);
            (
                m.insert(sid.0, m[sid.0].with_status(c)),
                t.push(audit_entry(sid, bar, m[sid.0].status, c, "OCO sibling filled"@)),
            )
        } else {
            (m, t)
        }
    }
}

/// Moves bracket children into the book, in order, stamped with the
/// activation bar, recording one audit entry per child.
pub open spec fn child_activation(
    orders: Map<u64, OrderView>,
    trail: Seq<AuditView>,
    children: Seq<OrderView>,
    bar: usize,
) -> (Map<u64, OrderView>, Seq<AuditView>)
    decreases children.len(),
{
    if children.len() == 0 {
        (orders, trail)
    } else {
        let (m, t) = child_activation(orders, trail, children.drop_last(), bar);
        let c = children.last();
        (
            m.insert(c.id.0, OrderView { activated_bar: Some(bar), ..c }),
            t.push(
                audit_entry(
                    c.id,
                    bar,
                    StatusView::Pending,
                    StatusView::Pending,
                    "bracket entry filled — child activated"@,
                ),
            ),
        )
    }
}

/// Records dormant bracket children as cancelled, in order, with one audit
/// entry per child.
pub open spec fn child_cancellation(
    orders: Map<u64, OrderView>,
    trail: Seq<AuditView>,
    children: Seq<OrderView>,
    bar: usize,
) -> (Map<u64, OrderView>, Seq<AuditView>)
    decreases children.len(),
{
    if children.len() == 0 {
        (orders, trail)
    } else {
        let (m, t) = child_cancellation(orders, trail, children.drop_last(), bar);
        let c = children.last();
        let s = StatusView::Cancelled("bracket entry cancelled"@);
        (
            m.insert(c.id.0, c.with_status(s)),
            t.push(audit_entry(c.id, bar, StatusView::Pending, s, "bracket entry cancelled"@)),
        )
    }
}

/// The sequence with its first occurrence of `a` replaced by `b`.
pub open spec fn replace_first(s: Seq<OrderId>, a: OrderId, b: OrderId) -> Seq<OrderId>
    decreases s.len(),
{
    if s.len() == 0 {
        s
    } else if s[0] == a {
        s.update(0, b)
    } else {
        seq![s[0]] + replace_first(s.drop_first(), a, b)
    }
}

impl BookView {
    /// Every order is stored under its own id.
    pub open spec fn wf(self) -> bool {
        keyed_by_id(self.orders)
    }

    pub open spec fn has(self, id: OrderId) -> bool {
        self.orders.contains_key(id.0)
    }

    pub open spec fn order(self, id: OrderId) -> OrderView {
        self.orders[id.0]
    }

    pub open spec fn is_active(self, id: OrderId) -> bool {
        self.has(id) && self.order(id).is_active()
    }

    /// Whether recording `qty` more completes the order.
    pub open spec fn fill_completes(self, id: OrderId, qty: i64) -> bool {
        self.order(id).filled_quantity + qty >= self.order(id).quantity
    }

    /// The book after recording a fill of `qty` on an active order.
    pub open spec fn after_fill(self, id: OrderId, qty: i64, bar: usize) -> BookView {
        let o = self.order(id);
        let full = self.fill_completes(id, qty);
        let o1 = OrderView {
            filled_quantity: (o.filled_quantity + qty) as i64,
            status: if full { StatusView::Filled } else { o.status },
            ..o
        };
        let m1 = self.orders.insert(id.0, o1);
        if !full {
            BookView { orders: m1, ..self }
        } else {
            let t1 = self.audit.push(audit_entry(id, bar, o.status, StatusView::Filled, "filled"@));
            let (m2, t2) = match o.oco_group_id {
                Some(g) => if self.oco_groups.contains_key(g.0) {
                    oco_cancellation(m1, t1, self.oco_groups[g.0].order_ids, id, bar)
                } else {
                    (m1, t1)
                },
                None => (m1, t1),
            };
            let (m3, t3) = if self.dormant.contains_key(id.0) {
                child_activation(m2, t2, self.dormant[id.0], bar)
            } else {
                (m2, t2)
            };
            BookView { orders: m3, dormant: self.dormant.remove(id.0), audit: t3, ..self }
        }
    }

    /// The book after a pending stop order triggers.
    pub open spec fn after_trigger(self, id: OrderId, bar: usize) -> BookView {
        let o = self.order(id);
        BookView {
            orders: self.orders.insert(id.0, o.with_status(StatusView::Triggered)),
            audit: self.audit.push(
                audit_entry(id, bar, o.status, StatusView::Triggered, "triggered"@),
            ),
            ..self
        }
    }

    /// The book after an active order is cancelled with `reason`; a bracket
    /// entry takes its dormant children with it.
    pub open spec fn after_cancel(self, id: OrderId, bar: usize, reason: Seq<char>) -> BookView {
        let o = self.order(id);
        let s = StatusView::Cancelled(reason);
        let m1 = self.orders.insert(id.0, o.with_status(s));
        let t1 = self.audit.push(audit_entry(id, bar, o.status, s, reason));
        if self.dormant.contains_key(id.0) {
            let (m2, t2) = child_cancellation(m1, t1, self.dormant[id.0], bar);
            BookView { orders: m2, dormant: self.dormant.remove(id.0), audit: t2, ..self }
        } else {
            BookView { orders: m1, audit: t1, ..self }
        }
    }

    /// The replacement as it enters the book: it inherits the old order's OCO
    /// group, and the unfilled remainder when the old order was partly filled.
    pub open spec fn replacement(self, old_id: OrderId, new_order: OrderView) -> OrderView {
        let o = self.order(old_id);
        OrderView {
            oco_group_id: o.oco_group_id,
            quantity: if o.filled_quantity > 0 {
                (o.quantity - o.filled_quantity) as i64
            } else {
                new_order.quantity
            },
            ..new_order
        }
    }

    /// The book after an active order is atomically replaced by `new_order`.
    pub open spec fn after_cancel_replace(
        self,
        old_id: OrderId,
        new_order: OrderView,
        bar: usize,
    ) -> BookView {
        let o = self.order(old_id);
        let s = StatusView::Cancelled("replaced"@);
        let n = self.replacement(old_id, new_order);
        let groups = match o.oco_group_id {
            Some(g) => if self.oco_groups.contains_key(g.0) {
                self.oco_groups.insert(
                    g.0,
                    OcoGroupView {
                        order_ids: replace_first(self.oco_groups[g.0].order_ids, old_id, n.id),
                        ..self.oco_groups[g.0]
                    },
                )
            } else {
                self.oco_groups
            },
            None => self.oco_groups,
        };
        BookView {
            orders: self.orders.insert(old_id.0, o.with_status(s)).insert(n.id.0, n),
            oco_groups: groups,
            audit: self.audit.push(audit_entry(old_id, bar, o.status, s, "replaced"@)),
            ..self
        }
    }

    /// The book after an active order expires.
    pub open spec fn after_expire(self, id: OrderId, bar: usize) -> BookView {
        let o = self.order(id);
        BookView {
            orders: self.orders.insert(id.0, o.with_status(StatusView::Expired)),
            audit: self.audit.push(audit_entry(id, bar, o.status, StatusView::Expired, "expired"@)),
            ..self
        }
    }

    /// The book after a bracket is submitted: the entry is placed, the
    /// children wait dormant under the entry's id, and the bracket and its OCO
    /// group (stop-loss first) are recorded.
    pub open spec fn after_submit_bracket(
        self,
        entry: OrderView,
        stop_loss: OrderView,
        take_profit: Option<OrderView>,
        oco_group_id: OcoGroupId,
    ) -> BookView {
        let children = match take_profit {
            Some(tp) => seq![stop_loss, tp],
            None => seq![stop_loss],
        };
        let members = match take_profit {
            Some(tp) => seq![stop_loss.id, tp.id],
            None => seq![stop_loss.id],
        };
        let bracket = BracketOrder {
            entry_id: entry.id,
            stop_loss_id: stop_loss.id,
            take_profit_id: match take_profit {
                Some(tp) => Some(tp.id),
                None => None,
            },
            oco_group_id,
        };
        BookView {
            orders: self.orders.insert(entry.id.0, entry),
            dormant: self.dormant.insert(entry.id.0, children),
            brackets: self.brackets.insert(entry.id.0, bracket),
            oco_groups: self.oco_groups.insert(
                oco_group_id.0,
                OcoGroupView { id: oco_group_id, order_ids: members },
            ),
            audit: self.audit,
        }
    }

    /// The book after a standalone order is submitted.
    pub open spec fn after_submit(self, order: OrderView) -> BookView {
        BookView { orders: self.orders.insert(order.id.0, order), ..self }
    }

    /// Whether `id` names a dormant bracket child.
    pub open spec fn is_dormant(self, id: OrderId) -> bool {
        exists|k: u64, i: int|
            #![trigger self.dormant[k][i]]
            self.dormant.contains_key(k) && 0 <= i < self.dormant[k].len()
                && self.dormant[k][i].id == id
    }

    /// Keys of the active orders.
    pub open spec fn active_keys(self) -> Set<u64> {
        self.orders.dom().filter(|k: u64| self.orders[k].is_active())
    }
}

/// The abstract view of a stored order map.
pub open spec fn orders_view(m: Map<u64, Order>) -> Map<u64, OrderView> {
    m.map_values(|o: Order| o@)
}

/// The abstract view of stored dormant children.
pub open spec fn dormant_view(m: Map<u64, Vec<Order>>) -> Map<u64, Seq<OrderView>> {
    m.map_values(|v: Vec<Order>| v@.map_values(|o: Order| o@))
}

/// The abstract view of stored OCO groups.
pub open spec fn groups_view(m: Map<u64, OcoGroup>) -> Map<u64, OcoGroupView> {
    m.map_values(|g: OcoGroup| g@)
}

/// The abstract view of a stored audit trail.
pub open spec fn trail_view(s: Seq<OrderAuditEntry>) -> Seq<AuditView> {
    s.map_values(|e: OrderAuditEntry| e@)
}

proof fn lemma_orders_view_insert(m: Map<u64, Order>, k: u64, o: Order)
    ensures
        orders_view(m.insert(k, o)) == orders_view(m).insert(k, o@),
{
    assert(orders_view(m.insert(k, o)) =~= orders_view(m).insert(k, o@));
}

proof fn lemma_dormant_view_insert(m: Map<u64, Vec<Order>>, k: u64, v: Vec<Order>)
    ensures
        dormant_view(m.insert(k, v)) == dormant_view(m).insert(k, v@.map_values(|o: Order| o@)),
{
    assert(dormant_view(m.insert(k, v)) =~= dormant_view(m).insert(
        k,
        v@.map_values(|o: Order| o@),
    ));
}

proof fn lemma_dormant_view_remove(m: Map<u64, Vec<Order>>, k: u64)
    ensures
        dormant_view(m.remove(k)) == dormant_view(m).remove(k),
{
    assert(dormant_view(m.remove(k)) =~= dormant_view(m).remove(k));
}

proof fn lemma_groups_view_insert(m: Map<u64, OcoGroup>, k: u64, g: OcoGroup)
    ensures
        groups_view(m.insert(k, g)) == groups_view(m).insert(k, g@),
{
    assert(groups_view(m.insert(k, g)) =~= groups_view(m).insert(k, g@));
}

proof fn lemma_trail_view_push(s: Seq<OrderAuditEntry>, e: OrderAuditEntry)
    ensures
        trail_view(s.push(e)) == trail_view(s).push(e@),
{
    assert(trail_view(s.push(e)) =~= trail_view(s).push(e@));
}

/// An order-book error with statuses as views.
pub enum BookErrorView {
    OrderNotFound(OrderId),
    OrderNotActive(OrderId, StatusView),
    InvalidTransition(OrderId, StatusView, StatusView),
    OrderIsDormant(OrderId),
}

impl View for OrderBookError {
    type V = BookErrorView;

    open spec fn view(&self) -> BookErrorView {
        match self {
            OrderBookError::OrderNotFound(id) => BookErrorView::OrderNotFound(*id),
            OrderBookError::OrderNotActive(id, s) => BookErrorView::OrderNotActive(*id, s@),
            OrderBookError::InvalidTransition(id, a, b) => BookErrorView::InvalidTransition(
                *id,
                a@,
                b@,
            ),
            OrderBookError::OrderIsDormant(id) => BookErrorView::OrderIsDormant(*id),
        }
    }
}

/// A result with its error as a view.
pub open spec fn result_view<T>(r: Result<T, OrderBookError>) -> Result<T, BookErrorView> {
    match r {
        Ok(v) => Ok(v),
        Err(e) => Err(e@),
    }
}

impl BookView {
    /// What a fill request answers and leaves: unknown orders and orders in a
    /// terminal state are refused with the book unchanged.
    pub open spec fn fill_outcome(self, id: OrderId, qty: i64, bar: usize) -> (
        BookView,
        Result<bool, BookErrorView>,
    ) {
        if !self.has(id) {
            (self, Err(BookErrorView::OrderNotFound(id)))
        } else if !self.order(id).is_active() {
            (self, Err(BookErrorView::OrderNotActive(id, self.order(id).status)))
        } else {
            (self.after_fill(id, qty, bar), Ok(self.fill_completes(id, qty)))
        }
    }

    /// What a trigger request answers and leaves: only pending orders trigger.
    pub open spec fn trigger_outcome(self, id: OrderId, bar: usize) -> (
        BookView,
        Result<(), BookErrorView>,
    ) {
        if !self.has(id) {
            (self, Err(BookErrorView::OrderNotFound(id)))
        } else if !(self.order(id).status is Pending) {
            (
                self,
                Err(
                    BookErrorView::InvalidTransition(
                        id,
                        self.order(id).status,
                        StatusView::Triggered,
                    ),
                ),
            )
        } else {
            (self.after_trigger(id, bar), Ok(()))
        }
    }

    /// What a cancel request answers and leaves.
    pub open spec fn cancel_outcome(self, id: OrderId, bar: usize, reason: Seq<char>) -> (
        BookView,
        Result<(), BookErrorView>,
    ) {
        if !self.has(id) {
            (self, Err(BookErrorView::OrderNotFound(id)))
        } else if !self.order(id).is_active() {
            (self, Err(BookErrorView::OrderNotActive(id, self.order(id).status)))
        } else {
            (self.after_cancel(id, bar, reason), Ok(()))
        }
    }

    /// What a cancel/replace request answers and leaves.
    pub open spec fn cancel_replace_outcome(self, old_id: OrderId, new_order: OrderView, bar: usize) -> (
        BookView,
        Result<(), BookErrorView>,
    ) {
        if !self.has(old_id) {
            (self, Err(BookErrorView::OrderNotFound(old_id)))
        } else if !self.order(old_id).is_active() {
            (self, Err(BookErrorView::OrderNotActive(old_id, self.order(old_id).status)))
        } else {
            (self.after_cancel_replace(old_id, new_order, bar), Ok(()))
        }
    }

    /// What an expire request answers and leaves.
    pub open spec fn expire_outcome(self, id: OrderId, bar: usize) -> (
        BookView,
        Result<(), BookErrorView>,
    ) {
        if !self.has(id) {
            (self, Err(BookErrorView::OrderNotFound(id)))
        } else if !self.order(id).is_active() {
            (self, Err(BookErrorView::OrderNotActive(id, self.order(id).status)))
        } else {
            (self.after_expire(id, bar), Ok(()))
        }
    }
}

/// The keys list names each stored order exactly once.
pub open spec fn keys_match(keys: Seq<u64>, m: Map<u64, Order>) -> bool {
    &&& keys.no_duplicates()
    &&& forall|k: u64| #[trigger] keys.contains(k) <==> m.contains_key(k)
}

/// Position of the first occurrence of `a`, or the length when there is none.
pub open spec fn first_index(s: Seq<OrderId>, a: OrderId) -> int
    decreases s.len(),
{
    if s.len() == 0 {
        0
    } else if s[0] == a {
        0
    } else {
        1 + first_index(s.drop_first(), a)
    }
}

proof fn lemma_first_index(s: Seq<OrderId>, a: OrderId, i: int)
    requires
        0 <= i <= s.len(),
        forall|j: int| 0 <= j < i ==> s[j] != a,
    ensures
        i < s.len() && s[i] == a ==> first_index(s, a) == i,
        i == s.len() ==> first_index(s, a) == s.len(),
    decreases i,
{
    if i > 0 {
        let t = s.drop_first();
        assert forall|j: int| 0 <= j < i - 1 implies t[j] != a by {
            assert(t[j] == s[j + 1]);
        }
        lemma_first_index(t, a, i - 1);
        assert(s[0] != a);
        if i < s.len() {
            assert(t[i - 1] == s[i]);
        }
    }
}

proof fn lemma_replace_first(s: Seq<OrderId>, a: OrderId, b: OrderId)
    ensures
        0 <= first_index(s, a) <= s.len(),
        replace_first(s, a, b) == if first_index(s, a) < s.len() {
            s.update(first_index(s, a), b)
        } else {
            s
        },
    decreases s.len(),
{
    if s.len() > 0 && s[0] != a {
        lemma_replace_first(s.drop_first(), a, b);
        let t = s.drop_first();
        if first_index(t, a) < t.len() {
            assert(seq![s[0]] + t.update(first_index(t, a), b) =~= s.update(first_index(s, a), b));
        } else {
            assert(seq![s[0]] + t =~= s);
        }
    }
}

/// Replaces the first occurrence of `a` by `b`.
fn replace_first_id(ids: &mut Vec<OrderId>, a: OrderId, b: OrderId)
    ensures
        final(ids)@ == replace_first(old(ids)@, a, b),
{
    proof {
        lemma_replace_first(ids@, a, b);
    }
    let mut i: usize = 0;
    while i < ids.len()
        invariant
            ids@ == old(ids)@,
            i <= ids@.len(),
            forall|j: int| 0 <= j < i ==> ids@[j] != a,
        decreases ids@.len() - i,
    {
        if ids[i] == a {
            proof {
                lemma_first_index(ids@, a, i as int);
                lemma_replace_first(ids@, a, b);
            }
            ids.set(i, b);
            return;
        }
        i = i + 1;
    }
    proof {
        lemma_first_index(ids@, a, i as int);
        lemma_replace_first(ids@, a, b);
    }
}

/// The order book: stores all orders and manages their lifecycle.
///
/// Orders transition through states: Pending → Triggered → Filled / Cancelled / Expired.
/// The book enforces OCO semantics (one fill cancels siblings) and bracket semantics
/// (children activate only after entry fills).
pub struct OrderBook {
    /// All active/historical orders keyed by ID.
    orders: HashMap<u64, Order>,
    /// The keys of `orders`, in the order they were first stored.
    order_keys: Vec<u64>,
    /// Bracket children waiting for entry fill, keyed by entry order ID.
    dormant: HashMap<u64, Vec<Order>>,
    /// Bracket relationships: entry ID → BracketOrder.
    brackets: HashMap<u64, BracketOrder>,
    /// OCO groups: group ID → OcoGroup.
    oco_groups: HashMap<u64, OcoGroup>,
    /// Complete audit trail of every state transition.
    audit_trail: Vec<OrderAuditEntry>,
}

impl View for OrderBook {
    type V = BookView;

    closed spec fn view(&self) -> BookView {
        BookView {
            orders: orders_view(self.orders@),
            dormant: dormant_view(self.dormant@),
            brackets: self.brackets@,
            oco_groups: groups_view(self.oco_groups@),
            audit: trail_view(self.audit_trail@),
        }
    }
}

/// Appends an audit entry.
fn record_audit(
    trail: &mut Vec<OrderAuditEntry>,
    order_id: OrderId,
    from_status: OrderStatus,
    to_status: OrderStatus,
    bar_index: usize,
    reason: &str,
)
    ensures
        trail_view(final(trail)@) == trail_view(old(trail)@).push(
            audit_entry(order_id, bar_index, from_status@, to_status@, reason@),
        ),
{
    let e = OrderAuditEntry {
        order_id,
        bar_index,
        from_status,
        to_status,
        reason: String::from_str(reason),
    };
    proof {
        lemma_trail_view_push(trail@, e);
    }
    trail.push(e);
}

/// Stores an order under its id, listing the key if it is new.
fn put_order(orders: &mut HashMap<u64, Order>, keys: &mut Vec<u64>, o: Order)
    requires
        keys_match(old(keys)@, old(orders)@),
    ensures
        keys_match(final(keys)@, final(orders)@),
        orders_view(final(orders)@) == orders_view(old(orders)@).insert(o.id.0, o@),
        final(orders)@.dom() == old(orders)@.dom().insert(o.id.0),
{
    let k = o.id.0;
    if !orders.contains_key(&k) {
        keys.push(k);
        proof {
            assert(!old(keys)@.contains(k));
            assert forall|x: int, y: int| 0 <= x < keys@.len() && 0 <= y < keys@.len() && x != y implies keys@[x] != keys@[y] by {
                if x < old(keys)@.len() && y < old(keys)@.len() {
                    assert(keys@[x] == old(keys)@[x]);
                    assert(keys@[y] == old(keys)@[y]);
                } else if x < old(keys)@.len() {
                    assert(old(keys)@.contains(keys@[x]));
                } else {
                    assert(old(keys)@.contains(keys@[y]));
                }
            }
            assert forall|x: u64| #[trigger] keys@.contains(x) <==> old(orders)@.insert(k, o).contains_key(x) by {
                if x == k {
                    assert(keys@[keys@.len() - 1] == k);
                } else if old(keys)@.contains(x) {
                    let j = choose|j: int| 0 <= j < old(keys)@.len() && old(keys)@[j] == x;
                    assert(keys@[j] == x);
                }
            }
        }
    }
    proof {
        lemma_orders_view_insert(orders@, k, o);
    }
    orders.insert(k, o);
    proof {
        assert(orders@.dom() =~= old(orders)@.dom().insert(k));
    }
}

/// Sets the status of a stored order.
fn set_status(orders: &mut HashMap<u64, Order>, key: u64, status: OrderStatus)
    requires
        old(orders)@.contains_key(key),
    ensures
        orders_view(final(orders)@) == orders_view(old(orders)@).insert(
            key,
            orders_view(old(orders)@)[key].with_status(status@),
        ),
        final(orders)@.dom() == old(orders)@.dom(),
{
    let mut o = orders.remove(&key).unwrap();
    let ghost o0 = o@;
    o.status = status;
    proof {
        lemma_orders_view_insert(old(orders)@, key, o);
        assert(old(orders)@.remove(key).insert(key, o) =~= old(orders)@.insert(key, o));
        assert(o@ == o0.with_status(status@));
    }
    orders.insert(key, o);
    proof {
        assert(orders@.dom() =~= old(orders)@.dom());
    }
}

/// Cancels every active sibling of `filled` among `members`, in order.
fn cancel_oco_siblings(
    orders: &mut HashMap<u64, Order>,
    trail: &mut Vec<OrderAuditEntry>,
    members: &Vec<OrderId>,
    filled: OrderId,
    bar_index: usize,
)
    ensures
        (orders_view(final(orders)@), trail_view(final(trail)@)) == oco_cancellation(
            orders_view(old(orders)@),
            trail_view(old(trail)@),
            members@,
            filled,
            bar_index,
        ),
        final(orders)@.dom() == old(orders)@.dom(),
{
    let mut i: usize = 0;
    while i < members.len()
        invariant
            0 <= i <= members@.len(),
            (orders_view(orders@), trail_view(trail@)) == oco_cancellation(
                orders_view(old(orders)@),
                trail_view(old(trail)@),
                members@.subrange(0, i as int),
                filled,
                bar_index,
            ),
            orders@.dom() == old(orders)@.dom(),
        decreases members@.len() - i,
    {
        let sid = members[i];
        proof {
            assert(members@.subrange(0, i + 1).drop_last() =~= members@.subrange(0, i as int));
            assert(members@.subrange(0, i + 1).last() == sid);
        }
        if sid != filled {
            let key = sid.0;
            let active = match orders.get(&key) {
                Some(s) => s.is_active(),
                None => false,
            };
            if active {
                let from = orders.get(&key).unwrap().status.clone();
                set_status(orders, key, OrderStatus::cancelled("OCO sibling filled"));
                record_audit(
                    trail,
                    sid,
                    from,
                    OrderStatus::cancelled("OCO sibling filled"),
                    bar_index,
                    "OCO sibling filled",
                );
            }
        }
        i = i + 1;
    }
    proof {
        assert(members@.subrange(0, members@.len() as int) =~= members@);
    }
}

/// Moves bracket children into the book, stamped with the activation bar.
fn activate_children(
    orders: &mut HashMap<u64, Order>,
    keys: &mut Vec<u64>,
    trail: &mut Vec<OrderAuditEntry>,
    children: &Vec<Order>,
    bar_index: usize,
)
    requires
        keys_match(old(keys)@, old(orders)@),
    ensures
        keys_match(final(keys)@, final(orders)@),
        (orders_view(final(orders)@), trail_view(final(trail)@)) == child_activation(
            orders_view(old(orders)@),
            trail_view(old(trail)@),
            children@.map_values(|o: Order| o@),
            bar_index,
        ),
        old(orders)@.dom().subset_of(final(orders)@.dom()),
{
    let ghost cs = children@.map_values(|o: Order| o@);
    let ghost n = cs.len();
    let mut i: usize = 0;
    while i < children.len()
        invariant
            i <= n,
            n == cs.len(),
            cs == children@.map_values(|o: Order| o@),
            keys_match(keys@, orders@),
            (orders_view(orders@), trail_view(trail@)) == child_activation(
                orders_view(old(orders)@),
                trail_view(old(trail)@),
                cs.subrange(0, i as int),
                bar_index,
            ),
            old(orders)@.dom().subset_of(orders@.dom()),
        decreases n - i,
    {
        let mut child = children[i].clone();
        proof {
            assert(child@ == cs[i as int]);
            assert(cs.subrange(0, i + 1).drop_last() =~= cs.subrange(0, i as int));
            assert(cs.subrange(0, i + 1).last() == cs[i as int]);
        }
        let child_id = child.id;
        child.activated_bar = Some(bar_index);
        put_order(orders, keys, child);
        record_audit(
            trail,
            child_id,
            OrderStatus::Pending,
            OrderStatus::Pending,
            bar_index,
            "bracket entry filled — child activated",
        );
        i = i + 1;
    }
    proof {
        assert(cs.subrange(0, n as int) =~= cs);
    }
}

/// Records dormant bracket children as cancelled.
fn cancel_children(
    orders: &mut HashMap<u64, Order>,
    keys: &mut Vec<u64>,
    trail: &mut Vec<OrderAuditEntry>,
    children: &Vec<Order>,
    bar_index: usize,
)
    requires
        keys_match(old(keys)@, old(orders)@),
    ensures
        keys_match(final(keys)@, final(orders)@),
        (orders_view(final(orders)@), trail_view(final(trail)@)) == child_cancellation(
            orders_view(old(orders)@),
            trail_view(old(trail)@),
            children@.map_values(|o: Order| o@),
            bar_index,
        ),
        old(orders)@.dom().subset_of(final(orders)@.dom()),
{
    let ghost cs = children@.map_values(|o: Order| o@);
    let ghost n = cs.len();
    let mut i: usize = 0;
    while i < children.len()
        invariant
            i <= n,
            n == cs.len(),
            cs == children@.map_values(|o: Order| o@),
            keys_match(keys@, orders@),
            (orders_view(orders@), trail_view(trail@)) == child_cancellation(
                orders_view(old(orders)@),
                trail_view(old(trail)@),
                cs.subrange(0, i as int),
                bar_index,
            ),
            old(orders)@.dom().subset_of(orders@.dom()),
        decreases n - i,
    {
        let mut child = children[i].clone();
        proof {
            assert(child@ == cs[i as int]);
            assert(cs.subrange(0, i + 1).drop_last() =~= cs.subrange(0, i as int));
            assert(cs.subrange(0, i + 1).last() == cs[i as int]);
        }
        let child_id = child.id;
        child.status = OrderStatus::cancelled("bracket entry cancelled");
        put_order(orders, keys, child);
        record_audit(
            trail,
            child_id,
            OrderStatus::Pending,
            OrderStatus::cancelled("bracket entry cancelled"),
            bar_index,
            "bracket entry cancelled",
        );
        i = i + 1;
    }
    proof {
        assert(cs.subrange(0, n as int) =~= cs);
    }
}

/// The spec functions that update orders keep every order stored under its own id.
proof fn lemma_oco_cancellation_wf(
    orders: Map<u64, OrderView>,
    trail: Seq<AuditView>,
    members: Seq<OrderId>,
    filled: OrderId,
    bar: usize,
)
    requires
        keyed_by_id(orders),
    ensures
        keyed_by_id(oco_cancellation(orders, trail, members, filled, bar).0),
    decreases members.len(),
{
    if members.len() > 0 {
        lemma_oco_cancellation_wf(orders, trail, members.drop_last(), filled, bar);
    }
}

proof fn lemma_child_activation_wf(
    orders: Map<u64, OrderView>,
    trail: Seq<AuditView>,
    children: Seq<OrderView>,
    bar: usize,
)
    requires
        keyed_by_id(orders),
    ensures
        keyed_by_id(child_activation(orders, trail, children, bar).0),
    decreases children.len(),
{
    if children.len() > 0 {
        lemma_child_activation_wf(orders, trail, children.drop_last(), bar);
    }
}

proof fn lemma_child_cancellation_wf(
    orders: Map<u64, OrderView>,
    trail: Seq<AuditView>,
    children: Seq<OrderView>,
    bar: usize,
)
    requires
        keyed_by_id(orders),
    ensures
        keyed_by_id(child_cancellation(orders, trail, children, bar).0),
    decreases children.len(),
{
    if children.len() > 0 {
        lemma_child_cancellation_wf(orders, trail, children.drop_last(), bar);
    }
}

impl OrderBook {
    /// The book's internal consistency: orders stored under their ids, the
    /// key list naming each stored order once, and every dormant group keyed
    /// by an entry order that is in the book.
    pub closed spec fn inv(&self) -> bool {
        &&& self@.wf()
        &&& keys_match(self.order_keys@, self.orders@)
        &&& forall|k: u64| #[trigger] self.dormant@.contains_key(k) ==> self.orders@.contains_key(k)
    }

    pub fn new() -> (b: Self)
        ensures
            b@.orders == Map::<u64, OrderView>::empty(),
            b@.dormant == Map::<u64, Seq<OrderView>>::empty(),
            b@.brackets == Map::<u64, BracketOrder>::empty(),
            b@.oco_groups == Map::<u64, OcoGroupView>::empty(),
            b@.audit == Seq::<AuditView>::empty(),
            b.inv(),
    {
        let b = OrderBook {
            orders: HashMap::new(),
            order_keys: Vec::new(),
            dormant: HashMap::new(),
            brackets: HashMap::new(),
            oco_groups: HashMap::new(),
            audit_trail: Vec::new(),
        };
        proof {
            assert(b@.orders =~= Map::<u64, OrderView>::empty());
            assert(b@.dormant =~= Map::<u64, Seq<OrderView>>::empty());
            assert(b@.oco_groups =~= Map::<u64, OcoGroupView>::empty());
            assert(b@.audit =~= Seq::<AuditView>::empty());
        }
        b
    }

    /// Look up an order by ID.
    pub fn get_order(&self, id: OrderId) -> (r: Option<&Order>)
        ensures
            match r {
                Some(o) => self@.has(id) && o@ == self@.order(id),
                None => !self@.has(id),
            },
    {
        self.orders.get(&id.0)
    }

    /// Get an order by ID (from active or historical orders).
    pub fn get(&self, id: OrderId) -> (r: Option<&Order>)
        ensures
            match r {
                Some(o) => self@.has(id) && o@ == self@.order(id),
                None => !self@.has(id),
            },
    {
        self.orders.get(&id.0)
    }

    /// Submit a standalone order. It must have status Pending.
    pub fn submit(&mut self, order: Order)
        requires
            old(self).inv(),
            order.status is Pending,
        ensures
            final(self)@ == old(self)@.after_submit(order@),
            final(self).inv(),
    {
        put_order(&mut self.orders, &mut self.order_keys, order);
    }

    /// Submit a bracket order group: entry + stop_loss + optional take_profit.
    ///
    /// The entry order is placed immediately (Pending). Children are held dormant
    /// until the entry fills, at which point they activate and join the OCO group.
    pub fn submit_bracket(
        &mut self,
        entry: Order,
        stop_loss: Order,
        take_profit: Option<Order>,
        oco_group_id: OcoGroupId,
    )
        requires
            old(self).inv(),
            entry.status is Pending,
            stop_loss.status is Pending,
            take_profit matches Some(tp) ==> tp.status is Pending,
        ensures
            final(self)@ == old(self)@.after_submit_bracket(
                entry@,
                stop_loss@,
                match take_profit {
                    Some(tp) => Some(tp@),
                    None => None,
                },
                oco_group_id,
            ),
            final(self).inv(),
    {
        let ghost tp_view = take_profit;
        let bracket = BracketOrder {
            entry_id: entry.id,
            stop_loss_id: stop_loss.id,
            take_profit_id: match &take_profit {
                Some(tp) => Some(tp.id),
                None => None,
            },
            oco_group_id,
        };
        let mut oco_order_ids: Vec<OrderId> = Vec::new();
        oco_order_ids.push(stop_loss.id);
        match &take_profit {
            Some(tp) => {
                oco_order_ids.push(tp.id);
            },
            None => {},
        }
        let oco_group = OcoGroup { id: oco_group_id, order_ids: oco_order_ids };
        let mut children: Vec<Order> = Vec::new();
        children.push(stop_loss);
        match take_profit {
            Some(tp) => {
                children.push(tp);
            },
            None => {},
        }
        proof {
            lemma_dormant_view_insert(self.dormant@, entry.id.0, children);
            lemma_groups_view_insert(self.oco_groups@, oco_group_id.0, oco_group);
            match tp_view {
                Some(tp) => {
                    assert(children@.map_values(|o: Order| o@) =~= seq![stop_loss@, tp@]);
                    assert(oco_group@.order_ids =~= seq![stop_loss.id, tp.id]);
                },
                None => {
                    assert(children@.map_values(|o: Order| o@) =~= seq![stop_loss@]);
                    assert(oco_group@.order_ids =~= seq![stop_loss.id]);
                },
            }
        }
        self.dormant.insert(entry.id.0, children);
        self.brackets.insert(entry.id.0, bracket);
        self.oco_groups.insert(oco_group_id.0, oco_group);
        put_order(&mut self.orders, &mut self.order_keys, entry);
    }

    /// Record a fill on an order, updating filled_quantity and transitioning
    /// to Filled if fully filled. Handles OCO cancellation and bracket activation.
    ///
    /// Returns Ok(true) if the order is now fully filled, Ok(false) if partial.
    pub fn record_fill(&mut self, order_id: OrderId, fill_qty: i64, bar_index: usize) -> (r:
        Result<bool, OrderBookError>)
        requires
            old(self).inv(),
            old(self)@.is_active(order_id) ==> i64::MIN <= old(self)@.order(order_id).filled_quantity
                + fill_qty <= i64::MAX,
        ensures
            (final(self)@, result_view(r)) == old(self)@.fill_outcome(order_id, fill_qty, bar_index),
            final(self).inv(),
    {
        let key = order_id.0;
        match self.orders.get(&key) {
            None => {
                return Err(OrderBookError::OrderNotFound(order_id));
            },
            Some(o) => {
                if !o.is_active() {
                    return Err(OrderBookError::OrderNotActive(order_id, o.status.clone()));
                }
            },
        }
        let ghost b0 = self@;
        let mut o = self.orders.remove(&key).unwrap();
        let from = o.status.clone();
        o.filled_quantity = o.filled_quantity + fill_qty;
        let fully_filled = o.filled_quantity >= o.quantity;
        let group = o.oco_group_id;
        if fully_filled {
            o.status = OrderStatus::Filled;
        }
        proof {
            assert(old(self).orders@.remove(key).insert(key, o) =~= old(self).orders@.insert(key, o));
            lemma_orders_view_insert(old(self).orders@, key, o);
            assert(self.orders@.remove(key).insert(key, o).dom() =~= old(self).orders@.dom());
        }
        self.orders.insert(key, o);
        proof {
            assert(self.orders@.dom() =~= old(self).orders@.dom());
            assert(orders_view(self.orders@) == b0.orders.insert(key, o@));
        }
        if fully_filled {
            record_audit(
                &mut self.audit_trail,
                order_id,
                from,
                OrderStatus::Filled,
                bar_index,
                "filled",
            );
            match group {
                Some(g) => {
                    match self.oco_groups.get(&g.0) {
                        Some(grp) => {
                            cancel_oco_siblings(
                                &mut self.orders,
                                &mut self.audit_trail,
                                &grp.order_ids,
                                order_id,
                                bar_index,
                            );
                        },
                        None => {},
                    }
                },
                None => {},
            }
            proof {
                lemma_dormant_view_remove(self.dormant@, key);
            }
            match self.dormant.remove(&key) {
                Some(children) => {
                    activate_children(
                        &mut self.orders,
                        &mut self.order_keys,
                        &mut self.audit_trail,
                        &children,
                        bar_index,
                    );
                },
                None => {},
            }
            proof {
                let m1 = b0.orders.insert(key, o@);
                match group {
                    Some(g) => {
                        if b0.oco_groups.contains_key(g.0) {
                            lemma_oco_cancellation_wf(
                                m1,
                                b0.audit.push(
                                    audit_entry(order_id, bar_index, from@, StatusView::Filled, "filled"@),
                                ),
                                b0.oco_groups[g.0].order_ids,
                                order_id,
                                bar_index,
                            );
                        }
                    },
                    None => {},
                }
            }
        }
        proof {
            if fully_filled {
                let m1 = b0.orders.insert(key, o@);
                let t1 = b0.audit.push(
                    audit_entry(order_id, bar_index, from@, StatusView::Filled, "filled"@),
                );
                let (m2, t2) = match group {
                    Some(g) => if b0.oco_groups.contains_key(g.0) {
                        oco_cancellation(m1, t1, b0.oco_groups[g.0].order_ids, order_id, bar_index)
                    } else {
                        (m1, t1)
                    },
                    None => (m1, t1),
                };
                if b0.dormant.contains_key(key) {
                    lemma_child_activation_wf(m2, t2, b0.dormant[key], bar_index);
                }
            }
        }
        Ok(fully_filled)
    }
}


impl OrderBook {
    /// Trigger a stop or stop-limit order: transition from Pending to Triggered.
    pub fn trigger(&mut self, order_id: OrderId, bar_index: usize) -> (r: Result<(), OrderBookError>)
        requires
            old(self).inv(),
            old(self)@.has(order_id) && old(self)@.order(order_id).status is Pending
                ==> old(self)@.order(order_id).order_type is StopMarket
                || old(self)@.order(order_id).order_type is StopLimit,
        ensures
            (final(self)@, result_view(r)) == old(self)@.trigger_outcome(order_id, bar_index),
            final(self).inv(),
    {
        let key = order_id.0;
        match self.orders.get(&key) {
            None => {
                return Err(OrderBookError::OrderNotFound(order_id));
            },
            Some(o) => {
                match o.status {
                    OrderStatus::Pending => {},
                    _ => {
                        return Err(
                            OrderBookError::InvalidTransition(
                                order_id,
                                o.status.clone(),
                                OrderStatus::Triggered,
                            ),
                        );
                    },
                }
            },
        }
        let from = self.orders.get(&key).unwrap().status.clone();
        set_status(&mut self.orders, key, OrderStatus::Triggered);
        record_audit(
            &mut self.audit_trail,
            order_id,
            from,
            OrderStatus::Triggered,
            bar_index,
            "triggered",
        );
        Ok(())
    }

    /// Cancel an order with a reason.
    ///
    /// - Pending: cancelled cleanly (full quantity cancelled)
    /// - Triggered: cancelled cleanly (unfilled quantity cancelled)
    /// - Filled/Cancelled/Expired: error (terminal states)
    ///
    /// If this is a bracket entry being cancelled, also cleans up dormant children.
    pub fn cancel(&mut self, order_id: OrderId, bar_index: usize, reason: &str) -> (r: Result<
        (),
        OrderBookError,
    >)
        requires
            old(self).inv(),
        ensures
            (final(self)@, result_view(r)) == old(self)@.cancel_outcome(order_id, bar_index, reason@),
            final(self).inv(),
    {
        let key = order_id.0;
        match self.orders.get(&key) {
            None => {
                return Err(OrderBookError::OrderNotFound(order_id));
            },
            Some(o) => {
                if !o.is_active() {
                    return Err(OrderBookError::OrderNotActive(order_id, o.status.clone()));
                }
            },
        }
        let ghost b0 = self@;
        let from = self.orders.get(&key).unwrap().status.clone();
        set_status(&mut self.orders, key, OrderStatus::cancelled(reason));
        record_audit(
            &mut self.audit_trail,
            order_id,
            from,
            OrderStatus::cancelled(reason),
            bar_index,
            reason,
        );
        proof {
            lemma_dormant_view_remove(self.dormant@, key);
        }
        let ghost d0 = self.dormant@;
        match self.dormant.remove(&key) {
            Some(children) => {
                proof {
                    assert(d0.contains_key(key) && d0[key] == children);
                    assert(b0.dormant[key] == children@.map_values(|o: Order| o@));
                }
                cancel_children(
                    &mut self.orders,
                    &mut self.order_keys,
                    &mut self.audit_trail,
                    &children,
                    bar_index,
                );
            },
            None => {
                proof {
                    assert(!b0.dormant.contains_key(key));
                }
            },
        }
        proof {
            let s = StatusView::Cancelled(reason@);
            let m1 = b0.orders.insert(key, b0.orders[key].with_status(s));
            let t1 = b0.audit.push(audit_entry(order_id, bar_index, from@, s, reason@));
            if b0.dormant.contains_key(key) {
                lemma_child_cancellation_wf(m1, t1, b0.dormant[key], bar_index);
                let (m2, t2) = child_cancellation(m1, t1, b0.dormant[key], bar_index);
                assert(self@.orders == m2);
                assert(self@.audit == t2);
                assert(self@.dormant == b0.dormant.remove(key));
                assert(self@.brackets == b0.brackets);
                assert(self@.oco_groups == b0.oco_groups);
            } else {
                assert(self@.orders == m1);
                assert(self@.audit == t1);
                assert(self@.dormant =~= b0.dormant);
            }
        }
        Ok(())
    }

    /// Atomic cancel/replace: cancel the old order and submit the new one
    /// in a single operation. No intermediate state where the position is unprotected.
    ///
    /// If the old order was partially filled, only the unfilled remainder is cancelled.
    /// The new order inherits the old order's OCO group membership (if any).
    pub fn cancel_replace(&mut self, old_id: OrderId, new_order: Order, bar_index: usize) -> (r:
        Result<(), OrderBookError>)
        requires
            old(self).inv(),
            old(self)@.is_active(old_id) && old(self)@.order(old_id).filled_quantity > 0
                ==> i64::MIN <= old(self)@.order(old_id).quantity - old(self)@.order(
                old_id,
            ).filled_quantity <= i64::MAX,
        ensures
            (final(self)@, result_view(r)) == old(self)@.cancel_replace_outcome(
                old_id,
                new_order@,
                bar_index,
            ),
            final(self).inv(),
    {
        let mut new_order = new_order;
        let key = old_id.0;
        match self.orders.get(&key) {
            None => {
                return Err(OrderBookError::OrderNotFound(old_id));
            },
            Some(o) => {
                if !o.is_active() {
                    return Err(OrderBookError::OrderNotActive(old_id, o.status.clone()));
                }
            },
        }
        let ghost b0 = self@;
        let ghost n0 = new_order@;
        let old_order = self.orders.get(&key).unwrap();
        let oco_group_id = old_order.oco_group_id;
        new_order.oco_group_id = oco_group_id;
        if old_order.filled_quantity > 0 {
            new_order.quantity = old_order.quantity - old_order.filled_quantity;
        }
        let from = old_order.status.clone();
        proof {
            assert(new_order@ == b0.replacement(old_id, n0));
        }
        set_status(&mut self.orders, key, OrderStatus::cancelled("replaced"));
        record_audit(
            &mut self.audit_trail,
            old_id,
            from,
            OrderStatus::cancelled("replaced"),
            bar_index,
            "replaced",
        );
        match oco_group_id {
            Some(g) => {
                match self.oco_groups.remove(&g.0) {
                    Some(mut group) => {
                        let ghost g0 = group@;
                        replace_first_id(&mut group.order_ids, old_id, new_order.id);
                        proof {
                            assert(self.oco_groups@.insert(g.0, group) =~= old(self).oco_groups@.insert(g.0, group));
                            lemma_groups_view_insert(old(self).oco_groups@, g.0, group);
                            assert(group@ == (OcoGroupView { order_ids: replace_first(g0.order_ids, old_id, new_order.id), ..g0 }));
                        }
                        self.oco_groups.insert(g.0, group);
                    },
                    None => {},
                }
            },
            None => {},
        }
        let ghost nid = new_order.id;
        put_order(&mut self.orders, &mut self.order_keys, new_order);
        proof {
            let e = b0.after_cancel_replace(old_id, n0, bar_index);
            assert(self@.orders == e.orders);
            assert(self@.audit == e.audit);
            assert(self@.dormant =~= e.dormant);
            assert(self@.brackets == e.brackets);
            match oco_group_id {
                Some(g) => {
                    if b0.oco_groups.contains_key(g.0) {
                        assert(self@.oco_groups == e.oco_groups);
                    } else {
                        assert(self@.oco_groups =~= e.oco_groups);
                    }
                },
                None => {
                    assert(self@.oco_groups =~= e.oco_groups);
                },
            }
            assert(keyed_by_id(self@.orders));
        }
        Ok(())
    }

    /// Expire an order (e.g., day order at end of bar).
    pub fn expire(&mut self, order_id: OrderId, bar_index: usize) -> (r: Result<(), OrderBookError>)
        requires
            old(self).inv(),
        ensures
            (final(self)@, result_view(r)) == old(self)@.expire_outcome(order_id, bar_index),
            final(self).inv(),
    {
        let key = order_id.0;
        match self.orders.get(&key) {
            None => {
                return Err(OrderBookError::OrderNotFound(order_id));
            },
            Some(o) => {
                if !o.is_active() {
                    return Err(OrderBookError::OrderNotActive(order_id, o.status.clone()));
                }
            },
        }
        let from = self.orders.get(&key).unwrap().status.clone();
        set_status(&mut self.orders, key, OrderStatus::Expired);
        record_audit(&mut self.audit_trail, order_id, from, OrderStatus::Expired, bar_index, "expired");
        Ok(())
    }
}


impl OrderBook {
    /// Get the bracket info for an entry order (if it's a bracket entry).
    pub fn get_bracket(&self, entry_id: OrderId) -> (r: Option<&BracketOrder>)
        ensures
            match r {
                Some(b) => self@.brackets.contains_key(entry_id.0) && *b == self@.brackets[entry_id.0],
                None => !self@.brackets.contains_key(entry_id.0),
            },
    {
        self.brackets.get(&entry_id.0)
    }

    /// Get the OCO group by ID.
    pub fn get_oco_group(&self, group_id: OcoGroupId) -> (r: Option<&OcoGroup>)
        ensures
            match r {
                Some(g) => self@.oco_groups.contains_key(group_id.0) && g@ == self@.oco_groups[group_id.0],
                None => !self@.oco_groups.contains_key(group_id.0),
            },
    {
        self.oco_groups.get(&group_id.0)
    }

    /// Register a standalone OCO group (not part of a bracket).
    ///
    /// Use this when two orders are OCO-linked but not created via `submit_bracket`.
    /// The orders must already be submitted and have their `oco_group_id` set.
    pub fn register_oco_group(&mut self, group: OcoGroup)
        requires
            old(self).inv(),
        ensures
            final(self)@ == (BookView {
                oco_groups: old(self)@.oco_groups.insert(group.id.0, group@),
                ..old(self)@
            }),
            final(self).inv(),
    {
        proof {
            lemma_groups_view_insert(self.oco_groups@, group.id.0, group);
        }
        self.oco_groups.insert(group.id.0, group);
    }

    /// Get the full audit trail.
    pub fn audit_trail(&self) -> (r: &[OrderAuditEntry])
        ensures
            trail_view(r@) == self@.audit,
    {
        self.audit_trail.as_slice()
    }

    /// Get all active orders (Pending or Triggered), each once.
    pub fn active_orders(&self) -> (r: Vec<&Order>)
        requires
            self.inv(),
        ensures
            forall|j: int|
                #![trigger r@[j]]
                0 <= j < r@.len() ==> self@.is_active(r@[j].id) && r@[j]@ == self@.order(r@[j].id),
            forall|k: u64|
                #[trigger] self@.active_keys().contains(k) ==> exists|j: int|
                    0 <= j < r@.len() && r@[j].id.0 == k,
            forall|a: int, b: int| 0 <= a < b < r@.len() ==> r@[a].id != r@[b].id,
    {
        let mut res: Vec<&Order> = Vec::new();
        let ghost mut pos: Seq<int> = Seq::empty();
        let mut i: usize = 0;
        while i < self.order_keys.len()
            invariant
                self.inv(),
                i <= self.order_keys@.len(),
                pos.len() == res@.len(),
                forall|j: int|
                    #![trigger res@[j]]
                    0 <= j < res@.len() ==> 0 <= pos[j] < i && self.order_keys@[pos[j]] == res@[j].id.0
                        && self@.is_active(res@[j].id) && res@[j]@ == self@.order(res@[j].id),
                forall|a: int, b: int| 0 <= a < b < res@.len() ==> pos[a] < pos[b],
                forall|m: int|
                    0 <= m < i && #[trigger] self.orders@[self.order_keys@[m]]@.is_active()
                        ==> exists|j: int| 0 <= j < res@.len() && pos[j] == m,
            decreases self.order_keys@.len() - i,
        {
            let k = self.order_keys[i];
            proof {
                assert(self.order_keys@.contains(k));
            }
            let ghost pos0 = pos;
            let ghost res0 = res@;
            let ghost len0 = res@.len();
            let o = self.orders.get(&k).unwrap();
            if o.is_active() {
                res.push(o);
                proof {
                    pos = pos.push(i as int);
                    assert(res@[res@.len() - 1] == o);
                    assert(self.orders@[k] == *o);
                    assert(self@.orders.contains_key(k));
                    assert(self@.orders[k] == self.orders@[k]@);
                    assert(o.id.0 == k);
                    assert forall|j: int|
                        #![trigger res@[j]]
                        0 <= j < res@.len() implies 0 <= pos[j] < i + 1 && self.order_keys@[pos[j]] == res@[j].id.0
                            && self@.is_active(res@[j].id) && res@[j]@ == self@.order(res@[j].id) by {
                        if j < len0 {
                            assert(res0[j] == res@[j]);
                        }
                    }
                    assert forall|a: int, b: int| 0 <= a < b < res@.len() implies pos[a] < pos[b] by {
                        assert(res0[a] == res@[a]);
                        if b < len0 {
                            assert(res0[b] == res@[b]);
                            assert(pos[a] == pos0[a] && pos[b] == pos0[b]);
                        } else {
                            assert(pos[a] == pos0[a]);
                        }
                    }
                }
            }
            proof {
                assert forall|m: int|
                    0 <= m < i + 1 && #[trigger] self.orders@[self.order_keys@[m]]@.is_active()
                        implies exists|j: int| 0 <= j < res@.len() && pos[j] == m by {
                    if m == i {
                        assert(pos[res@.len() - 1] == m);
                    } else {
                        let j = choose|j: int| 0 <= j < len0 && pos0[j] == m;
                        assert(pos[j] == m);
                    }
                }
            }
            i = i + 1;
        }
        proof {
            assert forall|k: u64| #[trigger] self@.active_keys().contains(k) implies exists|j: int|
                0 <= j < res@.len() && res@[j].id.0 == k by {
                assert(self.orders@.contains_key(k));
                assert(self.order_keys@.contains(k));
                let m = choose|m: int| 0 <= m < self.order_keys@.len() && self.order_keys@[m] == k;
                assert(self.orders@[self.order_keys@[m]]@.is_active());
                let j = choose|j: int| 0 <= j < res@.len() && pos[j] == m;
                assert(res@[j].id.0 == k);
            }
            assert forall|a: int, b: int| 0 <= a < b < res@.len() implies res@[a].id != res@[b].id by {
                assert(self.order_keys@[pos[a]] == res@[a].id.0);
                assert(self.order_keys@[pos[b]] == res@[b].id.0);
            }
        }
        res
    }
}


/// The ids listed by an order sequence.
pub open spec fn listed_keys(r: Seq<&Order>) -> Seq<u64> {
    r.map_values(|o: &Order| o.id.0)
}

impl OrderBook {
    /// Get active orders for a specific symbol, each once.
    pub fn active_orders_for_symbol(&self, symbol: &str) -> (r: Vec<&Order>)
        requires
            self.inv(),
        ensures
            forall|j: int|
                #![trigger r@[j]]
                0 <= j < r@.len() ==> self@.is_active(r@[j].id) && r@[j]@ == self@.order(r@[j].id)
                    && r@[j].symbol@ == symbol@,
            forall|k: u64|
                #[trigger] self@.active_keys().contains(k) && self@.orders[k].symbol == symbol@
                    ==> exists|j: int| 0 <= j < r@.len() && r@[j].id.0 == k,
            forall|a: int, b: int| 0 <= a < b < r@.len() ==> r@[a].id != r@[b].id,
    {
        let all = self.active_orders();
        let target = symbol.to_owned();
        let mut res: Vec<&Order> = Vec::new();
        let ghost mut pos: Seq<int> = Seq::empty();
        let mut i: usize = 0;
        while i < all.len()
            invariant
                i <= all@.len(),
                target@ == symbol@,
                pos.len() == res@.len(),
                forall|j: int|
                    #![trigger all@[j]]
                    0 <= j < all@.len() ==> self@.is_active(all@[j].id) && all@[j]@ == self@.order(all@[j].id),
                forall|a: int, b: int| 0 <= a < b < all@.len() ==> all@[a].id != all@[b].id,
                forall|j: int|
                    #![trigger res@[j]]
                    0 <= j < res@.len() ==> 0 <= pos[j] < i && res@[j] == all@[pos[j]] && res@[j].symbol@ == symbol@,
                forall|a: int, b: int| 0 <= a < b < res@.len() ==> pos[a] < pos[b],
                forall|m: int|
                    0 <= m < i && (#[trigger] all@[m]).symbol@ == symbol@
                        ==> exists|j: int| 0 <= j < res@.len() && pos[j] == m,
            decreases all@.len() - i,
        {
            let o = all[i];
            let ghost pos0 = pos;
            let ghost res0 = res@;
            let ghost len0 = res@.len();
            if o.symbol == target {
                res.push(o);
                proof {
                    pos = pos.push(i as int);
                    assert forall|j: int|
                        #![trigger res@[j]]
                        0 <= j < res@.len() implies 0 <= pos[j] < i + 1 && res@[j] == all@[pos[j]] && res@[j].symbol@ == symbol@ by {
                        if j < len0 {
                            assert(res0[j] == res@[j]);
                        }
                    }
                    assert forall|a: int, b: int| 0 <= a < b < res@.len() implies pos[a] < pos[b] by {
                        assert(res0[a] == res@[a]);
                        if b < len0 {
                            assert(res0[b] == res@[b]);
                        }
                    }
                }
            }
            proof {
                assert forall|m: int|
                    0 <= m < i + 1 && (#[trigger] all@[m]).symbol@ == symbol@
                        implies exists|j: int| 0 <= j < res@.len() && pos[j] == m by {
                    if m == i {
                        assert(pos[res@.len() - 1] == m);
                    } else {
                        let j = choose|j: int| 0 <= j < len0 && pos0[j] == m;
                        assert(pos[j] == m);
                    }
                }
            }
            i = i + 1;
        }
        proof {
            assert forall|j: int|
                #![trigger res@[j]]
                0 <= j < res@.len() implies self@.is_active(res@[j].id) && res@[j]@ == self@.order(res@[j].id)
                    && res@[j].symbol@ == symbol@ by {
                assert(all@[pos[j]] == res@[j]);
            }
            assert forall|k: u64|
                #[trigger] self@.active_keys().contains(k) && self@.orders[k].symbol == symbol@
                    implies exists|j: int| 0 <= j < res@.len() && res@[j].id.0 == k by {
                let m = choose|m: int| 0 <= m < all@.len() && all@[m].id.0 == k;
                assert(all@[m]@ == self@.order(all@[m].id));
                let j = choose|j: int| 0 <= j < res@.len() && pos[j] == m;
                assert(res@[j] == all@[m]);
            }
            assert forall|a: int, b: int| 0 <= a < b < res@.len() implies res@[a].id != res@[b].id by {
                assert(res@[a] == all@[pos[a]]);
                assert(res@[b] == all@[pos[b]]);
            }
        }
        res
    }

    /// Whether there are any active orders.
    pub fn has_active_orders(&self) -> (b: bool)
        requires
            self.inv(),
        ensures
            b == (self@.active_keys() != Set::<u64>::empty()),
    {
        let all = self.active_orders();
        proof {
            if all@.len() > 0 {
                let _ = all@[0];
                assert(self@.active_keys().contains(all@[0].id.0));
            } else {
                assert(self@.active_keys() =~= Set::<u64>::empty());
            }
        }
        all.len() > 0
    }

    /// Count of active orders.
    pub fn active_count(&self) -> (n: usize)
        requires
            self.inv(),
        ensures
            n == self@.active_keys().len(),
    {
        let all = self.active_orders();
        proof {
            let ids = listed_keys(all@);
            assert forall|a: int, b: int| 0 <= a < ids.len() && 0 <= b < ids.len() && a != b implies ids[a] != ids[b] by {
                if a < b {
                    assert(all@[a].id != all@[b].id);
                } else {
                    assert(all@[b].id != all@[a].id);
                }
            }
            assert(ids.no_duplicates());
            assert forall|k: u64| ids.to_set().contains(k) <==> self@.active_keys().contains(k) by {
                if ids.to_set().contains(k) {
                    let j = choose|j: int| 0 <= j < ids.len() && ids[j] == k;
                    let _ = all@[j];
                }
                if self@.active_keys().contains(k) {
                    let j = choose|j: int| 0 <= j < all@.len() && all@[j].id.0 == k;
                    assert(ids[j] == k);
                }
            }
            assert(ids.to_set() =~= self@.active_keys());
            ids.unique_seq_to_set();
        }
        all.len()
    }

    /// Whether a given order is dormant (bracket child waiting for entry fill).
    pub fn is_dormant(&self, order_id: OrderId) -> (b: bool)
        requires
            self.inv(),
        ensures
            b == self@.is_dormant(order_id),
    {
        let mut i: usize = 0;
        while i < self.order_keys.len()
            invariant
                self.inv(),
                i <= self.order_keys@.len(),
                forall|m: int, c: int|
                    #![trigger self.dormant@[self.order_keys@[m]]@[c]]
                    0 <= m < i && self.dormant@.contains_key(self.order_keys@[m])
                        && 0 <= c < self.dormant@[self.order_keys@[m]]@.len()
                        ==> self.dormant@[self.order_keys@[m]]@[c].id != order_id,
            decreases self.order_keys@.len() - i,
        {
            let k = self.order_keys[i];
            match self.dormant.get(&k) {
                Some(children) => {
                    let mut c: usize = 0;
                    while c < children.len()
                        invariant
                            self.inv(),
                            i < self.order_keys@.len(),
                            k == self.order_keys@[i as int],
                            self.dormant@.contains_key(k),
                            self.dormant@[k] == *children,
                            c <= children@.len(),
                            forall|x: int| 0 <= x < c ==> children@[x].id != order_id,
                            forall|m: int, c: int|
                                #![trigger self.dormant@[self.order_keys@[m]]@[c]]
                                0 <= m < i && self.dormant@.contains_key(self.order_keys@[m])
                                    && 0 <= c < self.dormant@[self.order_keys@[m]]@.len()
                                    ==> self.dormant@[self.order_keys@[m]]@[c].id != order_id,
                        decreases children@.len() - c,
                    {
                        if children[c].id == order_id {
                            proof {
                                assert(self@.dormant.contains_key(k));
                                assert(self@.dormant[k][c as int] == children@[c as int]@);
                            }
                            return true;
                        }
                        c = c + 1;
                    }
                },
                None => {},
            }
            i = i + 1;
        }
        proof {
            if self@.is_dormant(order_id) {
                let (k, c) = choose|k: u64, c: int|
                    self@.dormant.contains_key(k) && 0 <= c < self@.dormant[k].len()
                        && self@.dormant[k][c].id == order_id;
                assert(self.orders@.contains_key(k));
                assert(self.order_keys@.contains(k));
                let m = choose|m: int| 0 <= m < self.order_keys@.len() && self.order_keys@[m] == k;
                assert(self@.dormant[k][c] == self.dormant@[k]@[c]@);
                assert(self.dormant@[self.order_keys@[m]]@[c].id != order_id);
            }
        }
        false
    }
}

impl Default for OrderBook {
    fn default() -> (b: Self)
        ensures
            b@.orders == Map::<u64, OrderView>::empty(),
            b@.dormant == Map::<u64, Seq<OrderView>>::empty(),
            b@.brackets == Map::<u64, BracketOrder>::empty(),
            b@.oco_groups == Map::<u64, OcoGroupView>::empty(),
            b@.audit == Seq::<AuditView>::empty(),
            b.inv(),
    {
        Self::new()
    }
}

} // verus!
