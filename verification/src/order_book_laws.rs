//! Laws of the order book: what every transition keeps and what a fill does
//! to OCO siblings and bracket children.

use vstd::prelude::*;

use crate::ids::OrderId;
use crate::order::{AuditView, OrderView, StatusView};
use crate::order_book::{
    child_activation, child_cancellation, oco_cancellation, BookErrorView, BookView,
};
use crate::ids::OcoGroupId;

verus! {

/// The key of the OCO group an order names (0 when it names none).
pub open spec fn group_key(b: BookView, id: OrderId) -> u64 {
    match b.order(id).oco_group_id {
        Some(g) => g.0,
        None => 0,
    }
}

/// `a` is a prefix of `b`.
pub open spec fn is_prefix(a: Seq<AuditView>, b: Seq<AuditView>) -> bool {
    a.len() <= b.len() && b.subrange(0, a.len() as int) == a
}

proof fn lemma_prefix_push(a: Seq<AuditView>, b: Seq<AuditView>, e: AuditView)
    requires
        is_prefix(a, b),
    ensures
        is_prefix(a, b.push(e)),
{
    assert(b.push(e).subrange(0, a.len() as int) =~= b.subrange(0, a.len() as int));
}

proof fn lemma_oco_cancellation_facts(
    orders: Map<u64, OrderView>,
    trail: Seq<AuditView>,
    members: Seq<OrderId>,
    filled: OrderId,
    bar: usize,
)
    ensures
        ({
            let r = oco_cancellation(orders, trail, members, filled, bar);
            &&& is_prefix(trail, r.1)
            &&& r.0.dom() == orders.dom()
            &&& forall|k: u64|
                #![trigger r.0[k]]
                orders.contains_key(k) && !members.contains(OrderId(k)) ==> r.0[k] == orders[k]
            &&& orders.contains_key(filled.0) ==> r.0[filled.0] == orders[filled.0]
            &&& forall|j: int|
                #![trigger members[j]]
                0 <= j < members.len() && members[j] != filled && r.0.contains_key(members[j].0)
                    ==> !r.0[members[j].0].is_active()
        }),
    decreases members.len(),
{
    if members.len() == 0 {
        assert(trail.subrange(0, trail.len() as int) =~= trail);
    } else {
        let p = members.drop_last();
        lemma_oco_cancellation_facts(orders, trail, p, filled, bar);
        let (m, t) = oco_cancellation(orders, trail, p, filled, bar);
        let sid = members.last();
        let r = oco_cancellation(orders, trail, members, filled, bar);
        if sid != filled && m.contains_key(sid.0) && m[sid.0].is_active() {
            let c = StatusView::Cancelled("OCO sibling filled"@);
            lemma_prefix_push(trail, t, crate::order_book::audit_entry(sid, bar, m[sid.0].status, c, "OCO sibling filled"@));
            assert(r.0.dom() =~= m.dom());
        }
        assert forall|k: u64|
            #![trigger r.0[k]]
            orders.contains_key(k) && !members.contains(OrderId(k)) implies r.0[k] == orders[k] by {
            assert(!p.contains(OrderId(k))) by {
                if p.contains(OrderId(k)) {
                    let j = choose|j: int| 0 <= j < p.len() && p[j] == OrderId(k);
                    assert(members[j] == OrderId(k));
                }
            }
            assert(members[members.len() - 1] == sid);
        }
        assert forall|j: int|
            #![trigger members[j]]
            0 <= j < members.len() && members[j] != filled && r.0.contains_key(members[j].0)
                implies !r.0[members[j].0].is_active() by {
            if j < members.len() - 1 {
                assert(members[j] == p[j]);
            }
        }
    }
}

proof fn lemma_child_activation_prefix(
    orders: Map<u64, OrderView>,
    trail: Seq<AuditView>,
    children: Seq<OrderView>,
    bar: usize,
)
    ensures
        is_prefix(trail, child_activation(orders, trail, children, bar).1),
    decreases children.len(),
{
    if children.len() == 0 {
        assert(trail.subrange(0, trail.len() as int) =~= trail);
    } else {
        let p = children.drop_last();
        lemma_child_activation_prefix(orders, trail, p, bar);
        let (m, t) = child_activation(orders, trail, p, bar);
        let last = children.last();
        lemma_prefix_push(
            trail,
            t,
            crate::order_book::audit_entry(
                last.id,
                bar,
                StatusView::Pending,
                StatusView::Pending,
                "bracket entry filled — child activated"@,
            ),
        );
    }
}

/// Keys that no child uses are untouched by activation.
proof fn lemma_child_activation_other(
    orders: Map<u64, OrderView>,
    trail: Seq<AuditView>,
    children: Seq<OrderView>,
    bar: usize,
    k: u64,
)
    requires
        forall|c: int| 0 <= c < children.len() ==> (#[trigger] children[c]).id.0 != k,
    ensures
        child_activation(orders, trail, children, bar).0.contains_key(k) == orders.contains_key(k),
        child_activation(orders, trail, children, bar).0[k] == orders[k],
    decreases children.len(),
{
    if children.len() > 0 {
        let p = children.drop_last();
        assert(children[children.len() - 1] == children.last());
        assert forall|c: int| 0 <= c < p.len() implies (#[trigger] p[c]).id.0 != k by {
            assert(p[c] == children[c]);
        }
        lemma_child_activation_other(orders, trail, p, bar, k);
    }
}

/// A child whose id no other child shares is stored stamped with the bar.
proof fn lemma_child_activation_unique(
    orders: Map<u64, OrderView>,
    trail: Seq<AuditView>,
    children: Seq<OrderView>,
    bar: usize,
    c: int,
)
    requires
        0 <= c < children.len(),
        forall|d: int| 0 <= d < children.len() && d != c ==> (#[trigger] children[d]).id != children[c].id,
    ensures
        child_activation(orders, trail, children, bar).0.contains_key(children[c].id.0),
        child_activation(orders, trail, children, bar).0[children[c].id.0] == (OrderView {
            activated_bar: Some(bar),
            ..children[c]
        }),
    decreases children.len(),
{
    let p = children.drop_last();
    if c < children.len() - 1 {
        assert(children[c] == p[c]);
        assert(children[children.len() - 1] == children.last());
        assert forall|d: int| 0 <= d < p.len() && d != c implies (#[trigger] p[d]).id != p[c].id by {
            assert(p[d] == children[d]);
        }
        lemma_child_activation_unique(orders, trail, p, bar, c);
    }
}

proof fn lemma_child_cancellation_prefix(
    orders: Map<u64, OrderView>,
    trail: Seq<AuditView>,
    children: Seq<OrderView>,
    bar: usize,
)
    ensures
        is_prefix(trail, child_cancellation(orders, trail, children, bar).1),
    decreases children.len(),
{
    if children.len() == 0 {
        assert(trail.subrange(0, trail.len() as int) =~= trail);
    } else {
        let p = children.drop_last();
        lemma_child_cancellation_prefix(orders, trail, p, bar);
        let (m, t) = child_cancellation(orders, trail, p, bar);
        let c = children.last();
        let s = StatusView::Cancelled("bracket entry cancelled"@);
        lemma_prefix_push(
            trail,
            t,
            crate::order_book::audit_entry(c.id, bar, StatusView::Pending, s, "bracket entry cancelled"@),
        );
    }
}

/// The audit trail is append-only: no request ever rewrites or drops an
/// entry already recorded.
pub proof fn audit_trail_only_grows(
    b: BookView,
    id: OrderId,
    qty: i64,
    bar: usize,
    reason: Seq<char>,
    replacement: OrderView,
    order: OrderView,
    stop_loss: OrderView,
    take_profit: Option<OrderView>,
    group: OcoGroupId,
)
    ensures
        is_prefix(b.audit, b.fill_outcome(id, qty, bar).0.audit),
        is_prefix(b.audit, b.trigger_outcome(id, bar).0.audit),
        is_prefix(b.audit, b.cancel_outcome(id, bar, reason).0.audit),
        is_prefix(b.audit, b.cancel_replace_outcome(id, replacement, bar).0.audit),
        is_prefix(b.audit, b.expire_outcome(id, bar).0.audit),
        b.after_submit(order).audit == b.audit,
        b.after_submit_bracket(order, stop_loss, take_profit, group).audit == b.audit,
{
    let t = b.audit;
    assert(t.subrange(0, t.len() as int) =~= t);
    let o = b.order(id);
    if b.has(id) && o.is_active() {
        // fill
        if b.fill_completes(id, qty) {
            let o1 = OrderView {
                filled_quantity: (o.filled_quantity + qty) as i64,
                status: StatusView::Filled,
                ..o
            };
            let m1 = b.orders.insert(id.0, o1);
            let t1 = t.push(crate::order_book::audit_entry(id, bar, o.status, StatusView::Filled, "filled"@));
            lemma_prefix_push(t, t, crate::order_book::audit_entry(id, bar, o.status, StatusView::Filled, "filled"@));
            let (m2, t2) = match o.oco_group_id {
                Some(g) => if b.oco_groups.contains_key(g.0) {
                    oco_cancellation(m1, t1, b.oco_groups[g.0].order_ids, id, bar)
                } else {
                    (m1, t1)
                },
                None => (m1, t1),
            };
            match o.oco_group_id {
                Some(g) => if b.oco_groups.contains_key(g.0) {
                    lemma_oco_cancellation_facts(m1, t1, b.oco_groups[g.0].order_ids, id, bar);
                },
                None => {},
            }
            assert(is_prefix(t, t2)) by {
                assert(t2.subrange(0, t1.len() as int) == t1);
                assert(t2.subrange(0, t.len() as int) =~= t1.subrange(0, t.len() as int));
            }
            if b.dormant.contains_key(id.0) {
                lemma_child_activation_prefix(m2, t2, b.dormant[id.0], bar);
                let t3 = child_activation(m2, t2, b.dormant[id.0], bar).1;
                assert(t3.subrange(0, t.len() as int) =~= t2.subrange(0, t.len() as int));
            }
        }
        // trigger
        if o.status is Pending {
            lemma_prefix_push(t, t, crate::order_book::audit_entry(id, bar, o.status, StatusView::Triggered, "triggered"@));
        }
        // cancel
        let s = StatusView::Cancelled(reason);
        let t1 = t.push(crate::order_book::audit_entry(id, bar, o.status, s, reason));
        lemma_prefix_push(t, t, crate::order_book::audit_entry(id, bar, o.status, s, reason));
        if b.dormant.contains_key(id.0) {
            let m1 = b.orders.insert(id.0, o.with_status(s));
            lemma_child_cancellation_prefix(m1, t1, b.dormant[id.0], bar);
            let t2 = child_cancellation(m1, t1, b.dormant[id.0], bar).1;
            assert(t2.subrange(0, t.len() as int) =~= t1.subrange(0, t.len() as int));
        }
        // cancel/replace and expire
        let rs = StatusView::Cancelled("replaced"@);
        lemma_prefix_push(t, t, crate::order_book::audit_entry(id, bar, o.status, rs, "replaced"@));
        lemma_prefix_push(t, t, crate::order_book::audit_entry(id, bar, o.status, StatusView::Expired, "expired"@));
    }
}

/// An order in a terminal state (filled, cancelled or expired) never changes
/// again: every request on it is refused with the order's status and leaves
/// the book exactly as it was.
pub proof fn terminal_orders_are_final(
    b: BookView,
    id: OrderId,
    qty: i64,
    bar: usize,
    reason: Seq<char>,
    replacement: OrderView,
)
    requires
        b.has(id),
        !b.order(id).is_active(),
    ensures
        b.fill_outcome(id, qty, bar) == (b, Err::<bool, BookErrorView>(BookErrorView::OrderNotActive(id, b.order(id).status))),
        b.cancel_outcome(id, bar, reason) == (b, Err::<(), BookErrorView>(BookErrorView::OrderNotActive(id, b.order(id).status))),
        b.cancel_replace_outcome(id, replacement, bar) == (b, Err::<(), BookErrorView>(BookErrorView::OrderNotActive(id, b.order(id).status))),
        b.expire_outcome(id, bar) == (b, Err::<(), BookErrorView>(BookErrorView::OrderNotActive(id, b.order(id).status))),
        b.trigger_outcome(id, bar).0 == b,
        b.trigger_outcome(id, bar).1 is Err,
{
}

/// One-cancels-other: when a fill completes an order of a registered OCO
/// group, no other member of the group is left active, and the filled order
/// itself ends Filled. (The filled order's own bracket children, if any, are
/// assumed not to reuse a member's id or its own id.)
pub proof fn oco_fill_cancels_siblings(b: BookView, id: OrderId, qty: i64, bar: usize)
    requires
        b.wf(),
        b.is_active(id),
        b.fill_completes(id, qty),
        b.order(id).oco_group_id is Some,
        b.oco_groups.contains_key(group_key(b, id)),
        b.dormant.contains_key(id.0) ==> forall|c: int|
            0 <= c < b.dormant[id.0].len() ==> !b.oco_groups[group_key(b, id)].order_ids.contains(
                (#[trigger] b.dormant[id.0][c]).id,
            ) && b.dormant[id.0][c].id != id,
    ensures
        ({
            let after = b.fill_outcome(id, qty, bar);
            let members = b.oco_groups[group_key(b, id)].order_ids;
            &&& after.1 == Ok::<bool, BookErrorView>(true)
            &&& after.0.order(id).status is Filled
            &&& forall|j: int|
                #![trigger members[j]]
                0 <= j < members.len() && members[j] != id && after.0.has(members[j]) ==> !after.0.is_active(members[j])
        }),
{
    let o = b.order(id);
    let g = o.oco_group_id->0;
    let members = b.oco_groups[g.0].order_ids;
    let o1 = OrderView { filled_quantity: (o.filled_quantity + qty) as i64, status: StatusView::Filled, ..o };
    let m1 = b.orders.insert(id.0, o1);
    let t1 = b.audit.push(crate::order_book::audit_entry(id, bar, o.status, StatusView::Filled, "filled"@));
    lemma_oco_cancellation_facts(m1, t1, members, id, bar);
    let (m2, t2) = oco_cancellation(m1, t1, members, id, bar);
    if b.dormant.contains_key(id.0) {
        let cs = b.dormant[id.0];
        let m3 = child_activation(m2, t2, cs, bar).0;
        assert forall|c: int| 0 <= c < cs.len() implies (#[trigger] cs[c]).id.0 != id.0 by {
            assert(cs[c].id != id);
        }
        lemma_child_activation_other(m2, t2, cs, bar, id.0);
        assert forall|j: int|
            #![trigger members[j]]
            0 <= j < members.len() && members[j] != id && m3.contains_key(members[j].0) implies !m3[members[j].0].is_active() by {
            assert forall|c: int| 0 <= c < cs.len() implies (#[trigger] cs[c]).id.0 != members[j].0 by {
                if cs[c].id.0 == members[j].0 {
                    assert(cs[c].id == members[j]);
                    assert(members.contains(cs[c].id));
                }
            }
            lemma_child_activation_other(m2, t2, cs, bar, members[j].0);
        }
    }
}

/// The order that OCO cancellation leaves in place of a sibling: cancelled
/// as "OCO sibling filled" if it was active, else as it was.
pub open spec fn after_oco(o: OrderView) -> OrderView {
    if o.is_active() {
        o.with_status(StatusView::Cancelled("OCO sibling filled"@))
    } else {
        o
    }
}

proof fn lemma_oco_cancellation_exact(
    orders: Map<u64, OrderView>,
    trail: Seq<AuditView>,
    members: Seq<OrderId>,
    filled: OrderId,
    bar: usize,
)
    ensures
        forall|j: int|
            #![trigger members[j]]
            0 <= j < members.len() && members[j] != filled && orders.contains_key(members[j].0)
                ==> oco_cancellation(orders, trail, members, filled, bar).0[members[j].0] == after_oco(orders[members[j].0]),
    decreases members.len(),
{
    if members.len() > 0 {
        let p = members.drop_last();
        lemma_oco_cancellation_exact(orders, trail, p, filled, bar);
        lemma_oco_cancellation_facts(orders, trail, p, filled, bar);
        let (m, t) = oco_cancellation(orders, trail, p, filled, bar);
        let sid = members.last();
        let r = oco_cancellation(orders, trail, members, filled, bar).0;
        assert forall|j: int|
            #![trigger members[j]]
            0 <= j < members.len() && members[j] != filled && orders.contains_key(members[j].0)
                implies r[members[j].0] == after_oco(orders[members[j].0]) by {
            let mj = members[j];
            if p.contains(mj) {
                let i = choose|i: int| 0 <= i < p.len() && p[i] == mj;
                assert(p[i] == members[i]);
                assert(m[mj.0] == after_oco(orders[mj.0]));
                if mj == sid {
                    assert(!m[sid.0].is_active() || !orders[mj.0].is_active());
                }
            } else {
                assert(m[mj.0] == orders[mj.0]);
                assert(mj == sid) by {
                    if j < members.len() - 1 {
                        assert(p[j] == mj);
                    }
                }
            }
        }
    }
}

/// One-cancels-other, fill by fill. A fill on an active member of a
/// registered OCO group that completes it leaves it Filled and every other
/// member that was active cancelled as "OCO sibling filled" (members already
/// done stay as they were); a partial fill leaves every other order as it
/// was. (The filled order's own dormant bracket children, if any, are assumed
/// not to reuse a member's id or its own id.)
pub proof fn oco_fill_outcome(b: BookView, id: OrderId, qty: i64, bar: usize)
    requires
        b.wf(),
        b.is_active(id),
        b.order(id).oco_group_id is Some,
        b.oco_groups.contains_key(group_key(b, id)),
        b.dormant.contains_key(id.0) ==> forall|c: int|
            0 <= c < b.dormant[id.0].len() ==> !b.oco_groups[group_key(b, id)].order_ids.contains(
                (#[trigger] b.dormant[id.0][c]).id,
            ) && b.dormant[id.0][c].id != id,
    ensures
        ({
            let (after, answer) = b.fill_outcome(id, qty, bar);
            let members = b.oco_groups[group_key(b, id)].order_ids;
            &&& answer == Ok::<bool, BookErrorView>(b.fill_completes(id, qty))
            &&& b.fill_completes(id, qty) ==> {
                &&& after.order(id).status is Filled
                &&& forall|j: int|
                    #![trigger members[j]]
                    0 <= j < members.len() && members[j] != id && b.has(members[j])
                        ==> after.order(members[j]) == after_oco(b.order(members[j]))
            }
            &&& !b.fill_completes(id, qty) ==> {
                &&& after.order(id).status == b.order(id).status
                &&& forall|k: u64| k != id.0 ==> after.orders.contains_key(k) == b.orders.contains_key(k)
                    && after.orders[k] == b.orders[k]
            }
        }),
{
    if b.fill_completes(id, qty) {
        oco_fill_cancels_siblings(b, id, qty, bar);
        let o = b.order(id);
        let g = o.oco_group_id->0;
        let members = b.oco_groups[g.0].order_ids;
        let o1 = OrderView { filled_quantity: (o.filled_quantity + qty) as i64, status: StatusView::Filled, ..o };
        let m1 = b.orders.insert(id.0, o1);
        let t1 = b.audit.push(crate::order_book::audit_entry(id, bar, o.status, StatusView::Filled, "filled"@));
        lemma_oco_cancellation_exact(m1, t1, members, id, bar);
        lemma_oco_cancellation_facts(m1, t1, members, id, bar);
        let (m2, t2) = oco_cancellation(m1, t1, members, id, bar);
        assert forall|j: int|
            #![trigger members[j]]
            0 <= j < members.len() && members[j] != id && b.has(members[j])
                implies m2[members[j].0] == after_oco(b.order(members[j])) by {
            assert(m1[members[j].0] == b.orders[members[j].0]);
        }
        if b.dormant.contains_key(id.0) {
            let cs = b.dormant[id.0];
            assert forall|j: int|
                #![trigger members[j]]
                0 <= j < members.len() && members[j] != id && b.has(members[j])
                    implies child_activation(m2, t2, cs, bar).0[members[j].0] == m2[members[j].0] by {
                assert forall|c: int| 0 <= c < cs.len() implies (#[trigger] cs[c]).id.0 != members[j].0 by {
                    if cs[c].id.0 == members[j].0 {
                        assert(cs[c].id == members[j]);
                        assert(members.contains(cs[c].id));
                    }
                }
                lemma_child_activation_other(m2, t2, cs, bar, members[j].0);
            }
        }
    }
}

/// Bracket children stay out of the book while their entry is unfilled; the
/// fill that completes the entry brings every child into the book, active,
/// stamped with the bar of that fill, and the entry ends Filled.
pub proof fn bracket_children_activate_on_entry_fill(
    b: BookView,
    entry: OrderView,
    stop_loss: OrderView,
    take_profit: Option<OrderView>,
    group: OcoGroupId,
    qty: i64,
    bar: usize,
)
    requires
        b.wf(),
        entry.status is Pending,
        stop_loss.status is Pending,
        take_profit matches Some(tp) ==> tp.status is Pending,
        !b.has(stop_loss.id),
        stop_loss.id != entry.id,
        take_profit matches Some(tp) ==> !b.has(tp.id) && tp.id != entry.id && tp.id != stop_loss.id,
        entry.filled_quantity + qty >= entry.quantity,
        i64::MIN <= entry.filled_quantity + qty <= i64::MAX,
        entry.oco_group_id is None,
    ensures
        ({
            let placed = b.after_submit_bracket(entry, stop_loss, take_profit, group);
            let (filled, answer) = placed.fill_outcome(entry.id, qty, bar);
            &&& !placed.has(stop_loss.id)
            &&& placed.is_dormant(stop_loss.id)
            &&& placed.is_active(entry.id)
            &&& answer == Ok::<bool, BookErrorView>(true)
            &&& filled.order(entry.id).status is Filled
            &&& filled.is_active(stop_loss.id)
            &&& filled.order(stop_loss.id) == (OrderView { activated_bar: Some(bar), ..stop_loss })
            &&& !filled.dormant.contains_key(entry.id.0)
            &&& take_profit matches Some(tp) ==> {
                &&& !placed.has(tp.id)
                &&& placed.is_dormant(tp.id)
                &&& filled.is_active(tp.id)
                &&& filled.order(tp.id) == (OrderView { activated_bar: Some(bar), ..tp })
            }
        }),
{
    let placed = b.after_submit_bracket(entry, stop_loss, take_profit, group);
    let cs = match take_profit {
        Some(tp) => seq![stop_loss, tp],
        None => seq![stop_loss],
    };
    assert(placed.dormant[entry.id.0] == cs);
    assert(cs[0] == stop_loss);
    assert(placed.is_dormant(stop_loss.id)) by {
        assert(placed.dormant[entry.id.0][0].id == stop_loss.id);
    }
    match take_profit {
        Some(tp) => {
            assert(placed.dormant[entry.id.0][1].id == tp.id);
        },
        None => {},
    }
    let o1 = OrderView { filled_quantity: (entry.filled_quantity + qty) as i64, status: StatusView::Filled, ..entry };
    let m1 = placed.orders.insert(entry.id.0, o1);
    let t1 = placed.audit.push(crate::order_book::audit_entry(entry.id, bar, entry.status, StatusView::Filled, "filled"@));
    let m3 = child_activation(m1, t1, cs, bar).0;
    assert forall|c: int| 0 <= c < cs.len() implies (#[trigger] cs[c]).id.0 != entry.id.0 by {
        if c == 1 {
            let tp = take_profit->0;
            assert(cs[1] == tp);
        }
    }
    lemma_child_activation_other(m1, t1, cs, bar, entry.id.0);
    assert(m3[entry.id.0] == m1[entry.id.0]);
    assert(cs[0] == stop_loss);
    assert forall|d: int| 0 <= d < cs.len() && d != 0 implies (#[trigger] cs[d]).id != cs[0].id by {
        let tp = take_profit->0;
        assert(cs[1] == tp);
    }
    lemma_child_activation_unique(m1, t1, cs, bar, 0);
    assert(m3[stop_loss.id.0] == (OrderView { activated_bar: Some(bar), ..stop_loss }));
    match take_profit {
        Some(tp) => {
            assert(cs[1] == tp);
            assert forall|d: int| 0 <= d < cs.len() && d != 1 implies (#[trigger] cs[d]).id != cs[1].id by {
                assert(cs[0] == stop_loss);
            }
            lemma_child_activation_unique(m1, t1, cs, bar, 1);
            assert(m3[tp.id.0] == (OrderView { activated_bar: Some(bar), ..tp }));
        },
        None => {},
    }
}

/// The children `cs` of entry `e` wait dormant under it and none of them is
/// in the book.
pub open spec fn children_waiting(b: BookView, e: OrderId, cs: Seq<OrderView>) -> bool {
    &&& b.dormant.contains_key(e.0)
    &&& b.dormant[e.0] == cs
    &&& forall|c: int| 0 <= c < cs.len() ==> !b.has(#[trigger] cs[c].id)
}

/// No order of `os` carries the id of an order of `cs`.
pub open spec fn ids_apart(os: Seq<OrderView>, cs: Seq<OrderView>) -> bool {
    forall|i: int, c: int| 0 <= i < os.len() && 0 <= c < cs.len() ==> (#[trigger] os[i]).id != (#[trigger] cs[c]).id
}

/// The dormant children of `x` (none if it has none).
pub open spec fn dormant_of(b: BookView, x: OrderId) -> Seq<OrderView> {
    if b.dormant.contains_key(x.0) {
        b.dormant[x.0]
    } else {
        Seq::empty()
    }
}

proof fn lemma_child_cancellation_other(
    orders: Map<u64, OrderView>,
    trail: Seq<AuditView>,
    children: Seq<OrderView>,
    bar: usize,
    k: u64,
)
    requires
        forall|c: int| 0 <= c < children.len() ==> (#[trigger] children[c]).id.0 != k,
    ensures
        child_cancellation(orders, trail, children, bar).0.contains_key(k) == orders.contains_key(k),
        orders.contains_key(k) ==> child_cancellation(orders, trail, children, bar).0[k] == orders[k],
    decreases children.len(),
{
    if children.len() > 0 {
        lemma_child_cancellation_other(orders, trail, children.drop_last(), bar, k);
        assert(children.last() == children[children.len() - 1]);
    }
}

/// Bracket children wait, dormant and out of the book, for as long as their
/// entry is not completely filled: partial fills of the entry, and any
/// request on other orders, leave them waiting. (Orders brought into the
/// book meanwhile, and other entries' children, are assumed not to reuse
/// their ids; a bracket keeps its own entry id.)
pub proof fn bracket_children_wait_for_entry_fill(
    b: BookView,
    e: OrderId,
    cs: Seq<OrderView>,
    x: OrderId,
    qty: i64,
    bar: usize,
    reason: Seq<char>,
    o: OrderView,
)
    requires
        children_waiting(b, e, cs),
    ensures
        !(x == e && b.is_active(e) && b.fill_completes(e, qty)) && (x != e ==> ids_apart(dormant_of(b, x), cs))
            ==> children_waiting(b.fill_outcome(x, qty, bar).0, e, cs),
        children_waiting(b.trigger_outcome(x, bar).0, e, cs),
        children_waiting(b.expire_outcome(x, bar).0, e, cs),
        x != e && ids_apart(dormant_of(b, x), cs) ==> children_waiting(b.cancel_outcome(x, bar, reason).0, e, cs),
        ids_apart(seq![o], cs) ==> children_waiting(b.after_submit(o), e, cs),
{
    // fills
    if !(x == e && b.is_active(e) && b.fill_completes(e, qty)) && (x != e ==> ids_apart(dormant_of(b, x), cs)) {
        if b.is_active(x) && b.fill_completes(x, qty) {
            assert(x != e);
            let ox = b.order(x);
            let o1 = OrderView { filled_quantity: (ox.filled_quantity + qty) as i64, status: StatusView::Filled, ..ox };
            let m1 = b.orders.insert(x.0, o1);
            let t1 = b.audit.push(crate::order_book::audit_entry(x, bar, ox.status, StatusView::Filled, "filled"@));
            let (m2, t2) = match ox.oco_group_id {
                Some(g) => if b.oco_groups.contains_key(g.0) {
                    lemma_oco_cancellation_facts(m1, t1, b.oco_groups[g.0].order_ids, x, bar);
                    oco_cancellation(m1, t1, b.oco_groups[g.0].order_ids, x, bar)
                } else {
                    (m1, t1)
                },
                None => (m1, t1),
            };
            assert forall|c: int| 0 <= c < cs.len() implies !m2.contains_key(#[trigger] cs[c].id.0) by {
                assert(!b.has(cs[c].id));
                if cs[c].id.0 == x.0 {
                    assert(b.has(x));
                    assert(cs[c].id == x);
                }
            }
            if b.dormant.contains_key(x.0) {
                let xs = b.dormant[x.0];
                assert forall|c: int| 0 <= c < cs.len() implies !child_activation(m2, t2, xs, bar).0.contains_key(
                    #[trigger] cs[c].id.0,
                ) by {
                    assert forall|d: int| 0 <= d < xs.len() implies (#[trigger] xs[d]).id.0 != cs[c].id.0 by {
                        assert(xs[d].id != cs[c].id);
                    }
                    lemma_child_activation_other(m2, t2, xs, bar, cs[c].id.0);
                }
            }
            let after = b.fill_outcome(x, qty, bar).0;
            assert(after.dormant == b.dormant.remove(x.0));
        } else if b.is_active(x) {
            assert forall|c: int| 0 <= c < cs.len() implies !b.fill_outcome(x, qty, bar).0.has(#[trigger] cs[c].id) by {
                if cs[c].id == x {
                    assert(b.has(x));
                }
            }
        }
    }
    // triggers and expiries touch one order already in the book
    assert forall|c: int| 0 <= c < cs.len() implies !b.trigger_outcome(x, bar).0.has(#[trigger] cs[c].id) by {
        if cs[c].id == x {
            assert(!b.has(x));
        }
    }
    assert forall|c: int| 0 <= c < cs.len() implies !b.expire_outcome(x, bar).0.has(#[trigger] cs[c].id) by {
        if cs[c].id == x {
            assert(!b.has(x));
        }
    }
    // cancels of other orders
    if x != e && ids_apart(dormant_of(b, x), cs) && b.is_active(x) {
        let ox = b.order(x);
        let st = StatusView::Cancelled(reason);
        let m1 = b.orders.insert(x.0, ox.with_status(st));
        let t1 = b.audit.push(crate::order_book::audit_entry(x, bar, ox.status, st, reason));
        assert forall|c: int| 0 <= c < cs.len() implies !b.cancel_outcome(x, bar, reason).0.has(#[trigger] cs[c].id) by {
            if cs[c].id == x {
                assert(b.has(x));
            }
            assert(!m1.contains_key(cs[c].id.0));
            if b.dormant.contains_key(x.0) {
                let xs = b.dormant[x.0];
                assert forall|d: int| 0 <= d < xs.len() implies (#[trigger] xs[d]).id.0 != cs[c].id.0 by {
                    assert(xs[d].id != cs[c].id);
                }
                lemma_child_cancellation_other(m1, t1, xs, bar, cs[c].id.0);
            }
        }
    }
    // submissions of orders with other ids
    if ids_apart(seq![o], cs) {
        assert forall|c: int| 0 <= c < cs.len() implies !b.after_submit(o).has(#[trigger] cs[c].id) by {
            assert(seq![o][0] == o);
            assert(o.id != cs[c].id);
        }
    }
}

/// Cancel/replace leaves no window without the replacement: once the request
/// succeeds the old order is cancelled as replaced and the new one is in the
/// book, active, with its own type and side.
pub proof fn cancel_replace_leaves_live_replacement(b: BookView, old_id: OrderId, new_order: OrderView, bar: usize)
    requires
        b.is_active(old_id),
        new_order.status is Pending,
        new_order.id != old_id,
    ensures
        ({
            let (after, r) = b.cancel_replace_outcome(old_id, new_order, bar);
            &&& r is Ok
            &&& after.is_active(new_order.id)
            &&& after.order(new_order.id).order_type == new_order.order_type
            &&& after.order(new_order.id).side == new_order.side
            &&& after.order(old_id).status == StatusView::Cancelled("replaced"@)
        }),
{
}

/// A request to the order book, as a value: what `record_fill`, `trigger`,
/// `cancel`, `expire`, `cancel_replace` and `submit` are asked to do.
pub enum BookRequest {
    Fill(OrderId, i64, usize),
    Trigger(OrderId, usize),
    Cancel(OrderId, usize, Seq<char>),
    Expire(OrderId, usize),
    CancelReplace(OrderId, OrderView, usize),
    Submit(OrderView),
}

/// The book after one request, whatever it answered.
pub open spec fn after_request(b: BookView, r: BookRequest) -> BookView {
    match r {
        BookRequest::Fill(id, qty, bar) => b.fill_outcome(id, qty, bar).0,
        BookRequest::Trigger(id, bar) => b.trigger_outcome(id, bar).0,
        BookRequest::Cancel(id, bar, reason) => b.cancel_outcome(id, bar, reason).0,
        BookRequest::Expire(id, bar) => b.expire_outcome(id, bar).0,
        BookRequest::CancelReplace(old_id, new_order, bar) => b.cancel_replace_outcome(
            old_id,
            new_order,
            bar,
        ).0,
        BookRequest::Submit(o) => b.after_submit(o),
    }
}

/// The book after a run of requests, in order.
pub open spec fn after_requests(b: BookView, rs: Seq<BookRequest>) -> BookView
    decreases rs.len(),
{
    if rs.len() == 0 {
        b
    } else {
        after_request(after_requests(b, rs.drop_last()), rs.last())
    }
}

/// OCO group `g` is registered, each member is in the book under `g` and
/// none is a waiting bracket child, and once a member is Filled every other
/// member is done without a fill.
pub open spec fn oco_exclusive(b: BookView, g: u64) -> bool {
    &&& b.oco_groups.contains_key(g)
    &&& forall|x: OrderId|
        #[trigger] b.oco_groups[g].order_ids.contains(x) ==> b.has(x) && b.order(x).oco_group_id
            == Some(OcoGroupId(g)) && !b.is_dormant(x)
    &&& forall|x: OrderId, y: OrderId|
        #![trigger b.oco_groups[g].order_ids.contains(x), b.oco_groups[g].order_ids.contains(y)]
        b.oco_groups[g].order_ids.contains(x) && b.oco_groups[g].order_ids.contains(y) && x != y
            && b.order(x).status is Filled ==> !b.order(y).is_active() && !(b.order(y).status is Filled)
}

/// At most one member of OCO group `g` is Filled.
pub open spec fn at_most_one_filled(b: BookView, g: u64) -> bool {
    forall|x: OrderId, y: OrderId|
        #![trigger b.oco_groups[g].order_ids.contains(x), b.oco_groups[g].order_ids.contains(y)]
        b.oco_groups[g].order_ids.contains(x) && b.oco_groups[g].order_ids.contains(y)
            && b.order(x).status is Filled && b.order(y).status is Filled ==> x == y
}

/// The request brings no order into the book under the id of a member of
/// OCO group `g`; a member's replacement is not already Filled and is not
/// named like a waiting bracket child.
pub open spec fn keeps_oco_ids(b: BookView, g: u64, r: BookRequest) -> bool {
    let ms = b.oco_groups[g].order_ids;
    match r {
        BookRequest::CancelReplace(old_id, new_order, _) => !ms.contains(new_order.id) && (
        ms.contains(old_id) ==> !(new_order.status is Filled) && !b.is_dormant(new_order.id)),
        BookRequest::Submit(o) => !ms.contains(o.id),
        _ => true,
    }
}

proof fn lemma_oco_cancellation_each(
    orders: Map<u64, OrderView>,
    trail: Seq<AuditView>,
    members: Seq<OrderId>,
    filled: OrderId,
    bar: usize,
    k: u64,
)
    requires
        orders.contains_key(k),
        k != filled.0,
    ensures
        oco_cancellation(orders, trail, members, filled, bar).0[k] == orders[k]
            || oco_cancellation(orders, trail, members, filled, bar).0[k] == after_oco(orders[k]),
{
    lemma_oco_cancellation_facts(orders, trail, members, filled, bar);
    lemma_oco_cancellation_exact(orders, trail, members, filled, bar);
    if members.contains(OrderId(k)) {
        let j = choose|j: int| 0 <= j < members.len() && members[j] == OrderId(k);
        assert(members[j] != filled);
    }
}

/// What a fill leaves of an order that is neither the filled one nor one of
/// its children: the order as it was or, when it was active, cancelled as an
/// OCO sibling; a sibling in the filled order's group is left inactive.
proof fn lemma_fill_other(b: BookView, id: OrderId, qty: i64, bar: usize, k: u64, g: u64)
    requires
        b.is_active(id),
        k != id.0,
        forall|c: int| 0 <= c < dormant_of(b, id).len() ==> (#[trigger] dormant_of(b, id)[c]).id.0 != k,
    ensures
        b.after_fill(id, qty, bar).orders.contains_key(k) == b.orders.contains_key(k),
        b.orders.contains_key(k) ==> b.after_fill(id, qty, bar).orders[k] == b.orders[k]
            || b.after_fill(id, qty, bar).orders[k] == after_oco(b.orders[k]),
        b.orders.contains_key(k) && b.fill_completes(id, qty) && b.order(id).oco_group_id == Some(
            OcoGroupId(g),
        ) && b.oco_groups.contains_key(g) && b.oco_groups[g].order_ids.contains(OrderId(k))
            ==> !b.after_fill(id, qty, bar).orders[k].is_active(),
{
    let o = b.order(id);
    if b.fill_completes(id, qty) {
        let o1 = OrderView { filled_quantity: (o.filled_quantity + qty) as i64, status: StatusView::Filled, ..o };
        let m1 = b.orders.insert(id.0, o1);
        let t1 = b.audit.push(crate::order_book::audit_entry(id, bar, o.status, StatusView::Filled, "filled"@));
        let (m2, t2) = match o.oco_group_id {
            Some(g2) => if b.oco_groups.contains_key(g2.0) {
                let ms = b.oco_groups[g2.0].order_ids;
                lemma_oco_cancellation_facts(m1, t1, ms, id, bar);
                if b.orders.contains_key(k) {
                    lemma_oco_cancellation_each(m1, t1, ms, id, bar, k);
                }
                if ms.contains(OrderId(k)) && b.orders.contains_key(k) {
                    let j = choose|j: int| 0 <= j < ms.len() && ms[j] == OrderId(k);
                    assert(ms[j] != id);
                }
                oco_cancellation(m1, t1, ms, id, bar)
            } else {
                (m1, t1)
            },
            None => (m1, t1),
        };
        if b.dormant.contains_key(id.0) {
            assert(dormant_of(b, id) == b.dormant[id.0]);
            lemma_child_activation_other(m2, t2, b.dormant[id.0], bar, k);
        }
    }
}

/// What a fill leaves of the filled order itself, when none of its children
/// carries its id: its filled quantity grows, and it is Filled when the fill
/// completes it.
proof fn lemma_fill_self(b: BookView, id: OrderId, qty: i64, bar: usize)
    requires
        b.is_active(id),
        forall|c: int| 0 <= c < dormant_of(b, id).len() ==> (#[trigger] dormant_of(b, id)[c]).id.0 != id.0,
    ensures
        b.after_fill(id, qty, bar).orders.contains_key(id.0),
        b.after_fill(id, qty, bar).order(id) == (OrderView {
            filled_quantity: (b.order(id).filled_quantity + qty) as i64,
            status: if b.fill_completes(id, qty) { StatusView::Filled } else { b.order(id).status },
            ..b.order(id)
        }),
{
    let o = b.order(id);
    if b.fill_completes(id, qty) {
        let o1 = OrderView { filled_quantity: (o.filled_quantity + qty) as i64, status: StatusView::Filled, ..o };
        let m1 = b.orders.insert(id.0, o1);
        let t1 = b.audit.push(crate::order_book::audit_entry(id, bar, o.status, StatusView::Filled, "filled"@));
        let (m2, t2) = match o.oco_group_id {
            Some(g2) => if b.oco_groups.contains_key(g2.0) {
                lemma_oco_cancellation_facts(m1, t1, b.oco_groups[g2.0].order_ids, id, bar);
                oco_cancellation(m1, t1, b.oco_groups[g2.0].order_ids, id, bar)
            } else {
                (m1, t1)
            },
            None => (m1, t1),
        };
        if b.dormant.contains_key(id.0) {
            assert(dormant_of(b, id) == b.dormant[id.0]);
            lemma_child_activation_other(m2, t2, b.dormant[id.0], bar, id.0);
        }
    }
}

proof fn lemma_member_not_child(b: BookView, g: u64, e: OrderId, x: OrderId)
    requires
        oco_exclusive(b, g),
        b.oco_groups[g].order_ids.contains(x),
    ensures
        forall|c: int| 0 <= c < dormant_of(b, e).len() ==> (#[trigger] dormant_of(b, e)[c]).id.0 != x.0,
{
    assert forall|c: int| 0 <= c < dormant_of(b, e).len() implies (#[trigger] dormant_of(b, e)[c]).id.0 != x.0 by {
        assert(b.dormant.contains_key(e.0));
        if b.dormant[e.0][c].id.0 == x.0 {
            assert(b.dormant[e.0][c].id == x);
            assert(b.is_dormant(x));
        }
    }
}

/// With an active member, no member of the group is Filled.
proof fn lemma_active_member_none_filled(b: BookView, g: u64, id: OrderId)
    requires
        oco_exclusive(b, g),
        b.oco_groups[g].order_ids.contains(id),
        b.is_active(id),
    ensures
        forall|x: OrderId| #[trigger] b.oco_groups[g].order_ids.contains(x) ==> !(b.order(x).status is Filled),
{
    assert forall|x: OrderId| #[trigger] b.oco_groups[g].order_ids.contains(x) implies !(b.order(x).status is Filled) by {
        if x == id {
        } else if b.order(x).status is Filled {
            assert(!b.order(id).is_active());
        }
    }
}

proof fn lemma_oco_exclusive_fill(b: BookView, g: u64, id: OrderId, qty: i64, bar: usize)
    requires
        oco_exclusive(b, g),
    ensures
        oco_exclusive(b.fill_outcome(id, qty, bar).0, g),
{
    if b.is_active(id) {
        let a = b.after_fill(id, qty, bar);
        let ms = b.oco_groups[g].order_ids;
        assert(a.oco_groups == b.oco_groups);
        assert forall|x: OrderId| #[trigger] ms.contains(x) && x != id implies a.orders.contains_key(x.0)
            && (a.orders[x.0] == b.orders[x.0] || a.orders[x.0] == after_oco(b.orders[x.0])) && (b.fill_completes(id, qty)
            && b.order(id).oco_group_id == Some(OcoGroupId(g)) ==> !a.orders[x.0].is_active()) by {
            lemma_member_not_child(b, g, id, x);
            lemma_fill_other(b, id, qty, bar, x.0, g);
        }
        if ms.contains(id) {
            lemma_member_not_child(b, g, id, id);
            lemma_active_member_none_filled(b, g, id);
            lemma_fill_self(b, id, qty, bar);
        }
        // each member stays in the book under g
        assert forall|x: OrderId| #[trigger] a.oco_groups[g].order_ids.contains(x) implies a.has(x)
            && a.order(x).oco_group_id == Some(OcoGroupId(g)) && !a.is_dormant(x) by {
            assert(ms.contains(x));
            if a.is_dormant(x) {
                let (k, i) = choose|k: u64, i: int|
                    #![trigger a.dormant[k][i]]
                    a.dormant.contains_key(k) && 0 <= i < a.dormant[k].len() && a.dormant[k][i].id == x;
                assert(b.dormant.contains_key(k) && b.dormant[k] == a.dormant[k]);
                assert(b.is_dormant(x));
            }
        }
        // exclusivity
        assert forall|x: OrderId, y: OrderId|
            #![trigger a.oco_groups[g].order_ids.contains(x), a.oco_groups[g].order_ids.contains(y)]
            a.oco_groups[g].order_ids.contains(x) && a.oco_groups[g].order_ids.contains(y) && x != y
                && a.order(x).status is Filled implies !a.order(y).is_active() && !(a.order(y).status is Filled) by {
            assert(ms.contains(x) && ms.contains(y));
            if x == id {
                assert(b.fill_completes(id, qty));
                assert(!(b.order(y).status is Filled));
            } else {
                assert(b.order(x).status is Filled);
                assert(!b.order(y).is_active() && !(b.order(y).status is Filled));
                if y == id {
                    assert(false);
                }
            }
        }
    }
}

/// A step that changes at most one order `id` of the book: an active member
/// may move to any state but Filled under its own group, every other member
/// stays as it was, and no bracket child starts waiting.
proof fn lemma_oco_exclusive_one_change(b: BookView, a: BookView, g: u64, id: OrderId)
    requires
        oco_exclusive(b, g),
        a.oco_groups == b.oco_groups,
        forall|k: u64| #[trigger] a.dormant.contains_key(k) ==> b.dormant.contains_key(k) && a.dormant[k] == b.dormant[k],
        b.oco_groups[g].order_ids.contains(id) ==> b.is_active(id) && a.has(id) && a.order(id).oco_group_id
            == b.order(id).oco_group_id && !(a.order(id).status is Filled),
        forall|x: OrderId| #[trigger] b.oco_groups[g].order_ids.contains(x) && x != id ==> a.has(x) && a.order(x)
            == b.order(x),
    ensures
        oco_exclusive(a, g),
{
    let ms = b.oco_groups[g].order_ids;
    if ms.contains(id) {
        lemma_active_member_none_filled(b, g, id);
    }
    assert forall|x: OrderId| #[trigger] a.oco_groups[g].order_ids.contains(x) implies a.has(x)
        && a.order(x).oco_group_id == Some(OcoGroupId(g)) && !a.is_dormant(x) by {
        if a.is_dormant(x) {
            let (k, i) = choose|k: u64, i: int|
                #![trigger a.dormant[k][i]]
                a.dormant.contains_key(k) && 0 <= i < a.dormant[k].len() && a.dormant[k][i].id == x;
            assert(b.dormant[k][i].id == x);
            assert(b.is_dormant(x));
        }
    }
    assert forall|x: OrderId, y: OrderId|
        #![trigger a.oco_groups[g].order_ids.contains(x), a.oco_groups[g].order_ids.contains(y)]
        a.oco_groups[g].order_ids.contains(x) && a.oco_groups[g].order_ids.contains(y) && x != y
            && a.order(x).status is Filled implies !a.order(y).is_active() && !(a.order(y).status is Filled) by {
        if x != id {
            assert(b.order(x).status is Filled);
            if ms.contains(id) {
                assert(false);
            }
            assert(!b.order(y).is_active() && !(b.order(y).status is Filled));
        }
    }
}

proof fn lemma_oco_exclusive_cancel(b: BookView, g: u64, id: OrderId, bar: usize, reason: Seq<char>)
    requires
        oco_exclusive(b, g),
    ensures
        oco_exclusive(b.cancel_outcome(id, bar, reason).0, g),
{
    if b.is_active(id) {
        let a = b.after_cancel(id, bar, reason);
        let ms = b.oco_groups[g].order_ids;
        let o = b.order(id);
        let st = StatusView::Cancelled(reason);
        let m1 = b.orders.insert(id.0, o.with_status(st));
        let t1 = b.audit.push(crate::order_book::audit_entry(id, bar, o.status, st, reason));
        assert forall|x: OrderId| #[trigger] ms.contains(x) implies (x != id ==> a.has(x) && a.order(x) == b.order(x))
            && (x == id ==> a.has(x) && a.order(x) == o.with_status(st)) by {
            if b.dormant.contains_key(id.0) {
                lemma_member_not_child(b, g, id, x);
                assert(dormant_of(b, id) == b.dormant[id.0]);
                lemma_child_cancellation_other(m1, t1, b.dormant[id.0], bar, x.0);
            }
        }
        lemma_oco_exclusive_one_change(b, a, g, id);
    }
}

proof fn lemma_oco_exclusive_cancel_replace(b: BookView, g: u64, old_id: OrderId, new_order: OrderView, bar: usize)
    requires
        oco_exclusive(b, g),
        keeps_oco_ids(b, g, BookRequest::CancelReplace(old_id, new_order, bar)),
    ensures
        oco_exclusive(b.cancel_replace_outcome(old_id, new_order, bar).0, g),
{
    if b.is_active(old_id) {
        let a = b.after_cancel_replace(old_id, new_order, bar);
        let ms = b.oco_groups[g].order_ids;
        let n = b.replacement(old_id, new_order);
        if ms.contains(old_id) {
            lemma_active_member_none_filled(b, g, old_id);
            let ms2 = crate::order_book::replace_first(ms, old_id, n.id);
            assert(a.oco_groups[g].order_ids == ms2);
            lemma_replace_first_members(ms, old_id, n.id);
            assert forall|x: OrderId| #[trigger] a.oco_groups[g].order_ids.contains(x) implies a.has(x)
                && a.order(x).oco_group_id == Some(OcoGroupId(g)) && !a.is_dormant(x) && !(a.order(x).status is Filled) by {
                assert(ms2.contains(x));
                if x != n.id {
                    assert(ms.contains(x));
                }
            }
        } else {
            match b.order(old_id).oco_group_id {
                Some(g2) => if g2.0 == g {
                    lemma_replace_first_absent(ms, old_id, n.id);
                },
                None => {},
            }
            assert(a.oco_groups[g] == b.oco_groups[g]);
            assert forall|x: OrderId| #[trigger] ms.contains(x) implies a.has(x) && a.order(x) == b.order(x) by {
                assert(x != old_id);
            }
            lemma_oco_exclusive_one_change(
                b,
                BookView { oco_groups: b.oco_groups, ..a },
                g,
                old_id,
            );
        }
    }
}

proof fn lemma_replace_first_members(s: Seq<OrderId>, a: OrderId, b: OrderId)
    ensures
        forall|x: OrderId| #[trigger] crate::order_book::replace_first(s, a, b).contains(x) ==> s.contains(x) || x == b,
    decreases s.len(),
{
    let r = crate::order_book::replace_first(s, a, b);
    if s.len() > 0 {
        let t = s.drop_first();
        lemma_replace_first_members(t, a, b);
        assert forall|x: OrderId| #[trigger] r.contains(x) implies s.contains(x) || x == b by {
            let i = choose|i: int| 0 <= i < r.len() && r[i] == x;
            if s[0] == a {
                if i != 0 {
                    assert(s[i] == x);
                }
            } else {
                let rt = crate::order_book::replace_first(t, a, b);
                assert(r == seq![s[0]] + rt);
                if i == 0 {
                    assert(s[0] == x);
                } else {
                    assert(rt[i - 1] == x);
                    assert(rt.contains(x));
                    if t.contains(x) {
                        let j = choose|j: int| 0 <= j < t.len() && t[j] == x;
                        assert(s[j + 1] == x);
                    }
                }
            }
        }
    }
}

proof fn lemma_replace_first_absent(s: Seq<OrderId>, a: OrderId, b: OrderId)
    requires
        !s.contains(a),
    ensures
        crate::order_book::replace_first(s, a, b) == s,
    decreases s.len(),
{
    if s.len() > 0 {
        let t = s.drop_first();
        assert(s[0] != a);
        assert(!t.contains(a)) by {
            if t.contains(a) {
                let j = choose|j: int| 0 <= j < t.len() && t[j] == a;
                assert(s[j + 1] == a);
            }
        }
        lemma_replace_first_absent(t, a, b);
        assert(seq![s[0]] + t =~= s);
    }
}

/// Every request that brings no order in under a member's id keeps OCO
/// group `g` exclusive.
proof fn lemma_oco_exclusive_step(b: BookView, g: u64, r: BookRequest)
    requires
        oco_exclusive(b, g),
        keeps_oco_ids(b, g, r),
    ensures
        oco_exclusive(after_request(b, r), g),
{
    match r {
        BookRequest::Fill(id, qty, bar) => lemma_oco_exclusive_fill(b, g, id, qty, bar),
        BookRequest::Trigger(id, bar) => {
            if b.has(id) && b.order(id).status is Pending {
                lemma_oco_exclusive_one_change(b, b.after_trigger(id, bar), g, id);
            }
        },
        BookRequest::Cancel(id, bar, reason) => lemma_oco_exclusive_cancel(b, g, id, bar, reason),
        BookRequest::Expire(id, bar) => {
            if b.is_active(id) {
                lemma_oco_exclusive_one_change(b, b.after_expire(id, bar), g, id);
            }
        },
        BookRequest::CancelReplace(old_id, new_order, bar) => lemma_oco_exclusive_cancel_replace(
            b,
            g,
            old_id,
            new_order,
            bar,
        ),
        BookRequest::Submit(o) => lemma_oco_exclusive_one_change(b, b.after_submit(o), g, o.id),
    }
}

/// One-cancels-other over any run of requests. Start from a registered OCO
/// group whose members are all in the book under that group, none of them a
/// waiting bracket child, with no member Filled unless every other member is
/// done. Then, through any sequence of fills, triggers, cancels, expiries,
/// cancel/replaces and submissions in which no order is brought in under a
/// member's id (and a member's replacement is neither already Filled nor
/// named like a waiting child), the group keeps that shape, and at no point
/// are two of its members Filled.
pub proof fn oco_members_fill_at_most_once(b: BookView, g: u64, rs: Seq<BookRequest>)
    requires
        oco_exclusive(b, g),
        forall|i: int| 0 <= i < rs.len() ==> keeps_oco_ids(after_requests(b, rs.take(i)), g, #[trigger] rs[i]),
    ensures
        oco_exclusive(after_requests(b, rs), g),
        at_most_one_filled(after_requests(b, rs), g),
    decreases rs.len(),
{
    if rs.len() > 0 {
        let p = rs.drop_last();
        assert forall|i: int| 0 <= i < p.len() implies keeps_oco_ids(after_requests(b, p.take(i)), g, #[trigger] p[i]) by {
            assert(p.take(i) =~= rs.take(i));
            assert(p[i] == rs[i]);
        }
        oco_members_fill_at_most_once(b, g, p);
        let last = rs.len() - 1;
        assert(rs.take(last) =~= p);
        assert(keeps_oco_ids(after_requests(b, rs.take(last)), g, rs[last]));
        lemma_oco_exclusive_step(after_requests(b, p), g, rs.last());
    }
}

/// The request neither completes a fill of entry `e` nor cancels it, and
/// brings no order into the book under the id of one of the children `cs`.
pub open spec fn keeps_children_waiting(b: BookView, e: OrderId, cs: Seq<OrderView>, r: BookRequest) -> bool {
    match r {
        BookRequest::Fill(x, qty, _) => !(x == e && b.is_active(e) && b.fill_completes(e, qty)) && (x != e
            ==> ids_apart(dormant_of(b, x), cs)),
        BookRequest::Cancel(x, _, _) => x != e && ids_apart(dormant_of(b, x), cs),
        BookRequest::CancelReplace(_, new_order, _) => ids_apart(seq![new_order], cs),
        BookRequest::Submit(o) => ids_apart(seq![o], cs),
        _ => true,
    }
}

proof fn lemma_children_wait_step(b: BookView, e: OrderId, cs: Seq<OrderView>, r: BookRequest)
    requires
        children_waiting(b, e, cs),
        keeps_children_waiting(b, e, cs, r),
    ensures
        children_waiting(after_request(b, r), e, cs),
{
    match r {
        BookRequest::Fill(x, qty, bar) => bracket_children_wait_for_entry_fill(b, e, cs, x, qty, bar, Seq::empty(), cs[0]),
        BookRequest::Trigger(x, bar) => bracket_children_wait_for_entry_fill(b, e, cs, x, 0, bar, Seq::empty(), cs[0]),
        BookRequest::Cancel(x, bar, reason) => bracket_children_wait_for_entry_fill(b, e, cs, x, 0, bar, reason, cs[0]),
        BookRequest::Expire(x, bar) => bracket_children_wait_for_entry_fill(b, e, cs, x, 0, bar, Seq::empty(), cs[0]),
        BookRequest::CancelReplace(old_id, new_order, bar) => {
            if b.is_active(old_id) {
                let a = b.after_cancel_replace(old_id, new_order, bar);
                assert forall|c: int| 0 <= c < cs.len() implies !a.has(#[trigger] cs[c].id) by {
                    assert(seq![new_order][0] == new_order);
                    assert(new_order.id != cs[c].id);
                    if cs[c].id == old_id {
                        assert(b.has(old_id));
                    }
                }
            }
        },
        BookRequest::Submit(o) => bracket_children_wait_for_entry_fill(b, e, cs, e, 0, 0, Seq::empty(), o),
    }
}

/// Bracket children are never in the book, let alone active, before their
/// entry fills: through any sequence of requests that neither completes a
/// fill of the entry nor cancels it, and that brings no order in under a
/// child's id (directly or as another entry's child), the children keep
/// waiting, dormant under the entry and absent from the book.
pub proof fn bracket_children_wait_through_requests(
    b: BookView,
    e: OrderId,
    cs: Seq<OrderView>,
    rs: Seq<BookRequest>,
)
    requires
        children_waiting(b, e, cs),
        forall|i: int| 0 <= i < rs.len() ==> keeps_children_waiting(after_requests(b, rs.take(i)), e, cs, #[trigger] rs[i]),
    ensures
        children_waiting(after_requests(b, rs), e, cs),
    decreases rs.len(),
{
    if rs.len() > 0 {
        let p = rs.drop_last();
        assert forall|i: int| 0 <= i < p.len() implies keeps_children_waiting(after_requests(b, p.take(i)), e, cs, #[trigger] p[i]) by {
            assert(p.take(i) =~= rs.take(i));
            assert(p[i] == rs[i]);
        }
        bracket_children_wait_through_requests(b, e, cs, p);
        let last = rs.len() - 1;
        assert(rs.take(last) =~= p);
        assert(keeps_children_waiting(after_requests(b, rs.take(last)), e, cs, rs[last]));
        lemma_children_wait_step(after_requests(b, p), e, cs, rs.last());
    }
}

} // verus!
