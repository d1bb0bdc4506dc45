//! Path policy — resolve ambiguous bars where multiple orders could trigger.
//!
//! When a bar's high-low range encompasses both a stop-loss and a take-profit,
//! the path policy determines which order is evaluated first.

use vstd::prelude::*;

use crate::domain::{OrderSide, PositionSide, Price};
use crate::ids::OrderId;
use crate::order::{Order, OrderType, OrderView};
use crate::ratchet::exit_side;

verus! {

/// How to order the orders of one symbol within an ambiguous bar.
#[derive(Debug, Clone, Copy, PartialEq, Eq, Structural)]
pub enum PathPolicy {
    /// Adverse orders first.
    WorstCase,
    /// Favourable orders first.
    BestCase,
    /// Follow the price path inferred from the bar's shape.
    Deterministic,
}

/// Classify an order as adverse (loss-producing) for the current position:
/// sell stops against a long, buy stops against a short, and with no
/// position any stop or stop-limit (a worse entry on a gap).
pub open spec fn is_adverse_spec(o: OrderView, position_side: Option<PositionSide>) -> bool {
    match position_side {
        Some(PositionSide::Long) => o.side == OrderSide::Sell && o.order_type is StopMarket,
        Some(PositionSide::Short) => o.side == OrderSide::Buy && o.order_type is StopMarket,
        _ => o.order_type is StopMarket || o.order_type is StopLimit,
    }
}

/// The trigger or limit level of an order, if it has one.
pub open spec fn trigger_level(o: OrderView) -> Option<Price> {
    match o.order_type {
        OrderType::StopMarket { trigger_price } => Some(trigger_price),
        OrderType::Limit { limit_price } => Some(limit_price),
        OrderType::StopLimit { trigger_price, .. } => Some(trigger_price),
        _ => None,
    }
}

/// The level at which the path reaches an order (its trigger level, or the
/// open for orders without one).
pub open spec fn path_level(o: OrderView, open: Price) -> Price {
    match trigger_level(o) {
        Some(p) => p,
        None => open,
    }
}

/// Whether the inferred path reaches level `a` strictly before level `b`.
///
/// High first (open → high → low → close): levels at or above the open come
/// first, lowest first; then levels below the open, highest first. Low first
/// (open → low → high → close): levels at or below the open first, highest
/// first; then levels above the open, lowest first.
pub open spec fn reached_before(a: Price, b: Price, open: Price, high_first: bool) -> bool {
    if high_first {
        let a_up = a.0 >= open.0;
        let b_up = b.0 >= open.0;
        if a_up != b_up {
            a_up
        } else if a_up {
            a.0 < b.0
        } else {
            a.0 > b.0
        }
    } else {
        let a_down = a.0 <= open.0;
        let b_down = b.0 <= open.0;
        if a_down != b_down {
            a_down
        } else if a_down {
            a.0 > b.0
        } else {
            a.0 < b.0
        }
    }
}

/// The ids of the orders that satisfy (or fail) the adverse test, in order.
pub open spec fn ids_by_adversity(orders: Seq<OrderView>, position_side: Option<PositionSide>, adverse: bool) -> Seq<OrderId>
    decreases orders.len(),
{
    if orders.len() == 0 {
        Seq::empty()
    } else {
        let rest = ids_by_adversity(orders.drop_last(), position_side, adverse);
        if is_adverse_spec(orders.last(), position_side) == adverse {
            rest.push(orders.last().id)
        } else {
            rest
        }
    }
}

/// Position `i` comes before position `j` in the deterministic sequence:
/// its level is reached first, or both are reached together and `i` was
/// listed earlier.
pub open spec fn sequenced_before(orders: Seq<OrderView>, i: int, j: int, open: Price, high_first: bool) -> bool {
    let a = path_level(orders[i], open);
    let b = path_level(orders[j], open);
    reached_before(a, b, open, high_first) || (!reached_before(b, a, open, high_first) && i < j)
}

/// `perm` lists every position of the input exactly once, ordered by the path.
pub open spec fn is_path_order(orders: Seq<OrderView>, perm: Seq<int>, open: Price, high_first: bool) -> bool {
    &&& perm.len() == orders.len()
    &&& forall|x: int| 0 <= x < perm.len() ==> 0 <= #[trigger] perm[x] < orders.len()
    &&& forall|x: int, y: int| 0 <= x < y < perm.len() ==> sequenced_before(orders, perm[x], perm[y], open, high_first)
}

/// The ids of a listing of orders.
pub open spec fn ids_of(orders: Seq<&Order>) -> Seq<OrderView> {
    orders.map_values(|o: &Order| o@)
}

fn is_adverse(order: &Order, position_side: Option<PositionSide>) -> (b: bool)
    ensures
        b == is_adverse_spec(order@, position_side),
{
    match position_side {
        Some(PositionSide::Long) => match (order.side, order.order_type) {
            (OrderSide::Sell, OrderType::StopMarket { .. }) => true,
            _ => false,
        },
        Some(PositionSide::Short) => match (order.side, order.order_type) {
            (OrderSide::Buy, OrderType::StopMarket { .. }) => true,
            _ => false,
        },
        _ => match order.order_type {
            OrderType::StopMarket { .. } | OrderType::StopLimit { .. } => true,
            _ => false,
        },
    }
}

fn level_of(order: &Order, open: Price) -> (p: Price)
    ensures
        p == path_level(order@, open),
{
    match order.order_type {
        OrderType::StopMarket { trigger_price } => trigger_price,
        OrderType::Limit { limit_price } => limit_price,
        OrderType::StopLimit { trigger_price, .. } => trigger_price,
        _ => open,
    }
}

fn reached_before_exec(a: Price, b: Price, open: Price, high_first: bool) -> (r: bool)
    ensures
        r == reached_before(a, b, open, high_first),
{
    if high_first {
        let a_up = a.0 >= open.0;
        let b_up = b.0 >= open.0;
        if a_up != b_up {
            a_up
        } else if a_up {
            a.0 < b.0
        } else {
            a.0 > b.0
        }
    } else {
        let a_down = a.0 <= open.0;
        let b_down = b.0 <= open.0;
        if a_down != b_down {
            a_down
        } else if a_down {
            a.0 > b.0
        } else {
            a.0 < b.0
        }
    }
}

/// Ids of the orders on one side of the adverse test, in input order.
fn partition_ids(orders: &[&Order], position_side: Option<PositionSide>, adverse: bool) -> (r: Vec<OrderId>)
    ensures
        r@ == ids_by_adversity(ids_of(orders@), position_side, adverse),
{
    let ghost vs = ids_of(orders@);
    let mut out: Vec<OrderId> = Vec::new();
    let mut i: usize = 0;
    while i < orders.len()
        invariant
            i <= orders@.len(),
            vs == ids_of(orders@),
            out@ == ids_by_adversity(vs.subrange(0, i as int), position_side, adverse),
        decreases orders@.len() - i,
    {
        proof {
            assert(vs.subrange(0, i + 1).drop_last() =~= vs.subrange(0, i as int));
            assert(vs.subrange(0, i + 1).last() == orders@[i as int]@);
        }
        if is_adverse(orders[i], position_side) == adverse {
            out.push(orders[i].id);
        }
        i = i + 1;
    }
    proof {
        assert(vs.subrange(0, orders@.len() as int) =~= vs);
    }
    out
}

proof fn lemma_reached_before_total(a: Price, b: Price, open: Price, high_first: bool)
    ensures
        !(reached_before(a, b, open, high_first) && reached_before(b, a, open, high_first)),
{
}

proof fn lemma_reached_before_transitive(a: Price, b: Price, c: Price, open: Price, high_first: bool)
    ensures
        reached_before(a, b, open, high_first) && reached_before(b, c, open, high_first) ==> reached_before(a, c, open, high_first),
        !reached_before(b, a, open, high_first) && !reached_before(c, b, open, high_first) ==> !reached_before(c, a, open, high_first),
{
}

/// Positions of the input in path order (a stable insertion sort).
fn path_order(orders: &[&Order], open: Price, high_first: bool) -> (perm: Vec<usize>)
    ensures
        is_path_order(ids_of(orders@), perm@.map_values(|x: usize| x as int), open, high_first),
{
    let ghost vs = ids_of(orders@);
    let mut perm: Vec<usize> = Vec::new();
    let mut i: usize = 0;
    while i < orders.len()
        invariant
            i <= orders@.len(),
            vs == ids_of(orders@),
            perm@.len() == i,
            forall|x: int| 0 <= x < perm@.len() ==> #[trigger] perm@[x] < i,
            forall|x: int, y: int|
                0 <= x < y < perm@.len() ==> sequenced_before(vs, perm@[x] as int, perm@[y] as int, open, high_first),
        decreases orders@.len() - i,
    {
        let level_i = level_of(orders[i], open);
        // first position whose level is reached strictly after the new one
        let mut pos: usize = 0;
        while pos < perm.len() && !reached_before_exec(level_i, level_of(orders[perm[pos]], open), open, high_first)
            invariant
                i < orders@.len(),
                vs == ids_of(orders@),
                level_i == path_level(vs[i as int], open),
                pos <= perm@.len(),
                perm@.len() == i,
                forall|x: int| 0 <= x < perm@.len() ==> #[trigger] perm@[x] < i,
                forall|x: int| 0 <= x < pos ==> !reached_before(level_i, path_level(vs[#[trigger] perm@[x] as int], open), open, high_first),
            decreases perm@.len() - pos,
        {
            proof {
                assert(orders@[perm@[pos as int] as int]@ == vs[perm@[pos as int] as int]);
            }
            pos = pos + 1;
        }
        proof {
            if pos < perm@.len() {
                assert(orders@[perm@[pos as int] as int]@ == vs[perm@[pos as int] as int]);
            }
        }
        let ghost old_perm = perm@;
        perm.insert(pos, i);
        proof {
            assert forall|x: int| 0 <= x < perm@.len() implies #[trigger] perm@[x] < i + 1 by {
                if x < pos {
                    assert(perm@[x] == old_perm[x]);
                } else if x > pos {
                    assert(perm@[x] == old_perm[x - 1]);
                }
            }
            assert forall|x: int, y: int|
                0 <= x < y < perm@.len() implies sequenced_before(vs, perm@[x] as int, perm@[y] as int, open, high_first) by {
                let px = perm@[x] as int;
                let py = perm@[y] as int;
                if y < pos {
                    assert(perm@[x] == old_perm[x] && perm@[y] == old_perm[y]);
                } else if x > pos {
                    assert(perm@[x] == old_perm[x - 1] && perm@[y] == old_perm[y - 1]);
                } else if x < pos && y > pos {
                    assert(perm@[x] == old_perm[x] && perm@[y] == old_perm[y - 1]);
                } else if x == pos {
                    // new element before old_perm[y - 1] (y - 1 >= pos)
                    assert(perm@[y] == old_perm[y - 1]);
                    let lp = path_level(vs[old_perm[pos as int] as int], open);
                    let ly = path_level(vs[py], open);
                    assert(reached_before(level_i, lp, open, high_first));
                    if y - 1 > pos {
                        assert(sequenced_before(vs, old_perm[pos as int] as int, old_perm[y - 1] as int, open, high_first));
                        lemma_reached_before_transitive(level_i, lp, ly, open, high_first);
                        lemma_reached_before_total(lp, ly, open, high_first);
                        if !reached_before(lp, ly, open, high_first) {
                            assert(!reached_before(ly, lp, open, high_first));
                        }
                    }
                    lemma_reached_before_total(level_i, ly, open, high_first);
                } else {
                    // y == pos: old element at x < pos before the new one
                    assert(perm@[x] == old_perm[x]);
                    assert(px < i);
                    assert(!reached_before(level_i, path_level(vs[px], open), open, high_first));
                }
            }
        }
        i = i + 1;
    }
    proof {
        let p = perm@.map_values(|x: usize| x as int);
        assert forall|x: int, y: int| 0 <= x < y < p.len() implies sequenced_before(vs, p[x], p[y], open, high_first) by {
            assert(p[x] == perm@[x] as int && p[y] == perm@[y] as int);
        }
        assert forall|x: int| 0 <= x < p.len() implies 0 <= #[trigger] p[x] < vs.len() by {
            assert(p[x] == perm@[x] as int);
        }
    }
    perm
}

/// Determine the evaluation order for the active orders of a symbol.
///
/// Returns ordered `OrderId`s; the first is evaluated first, and if it fills,
/// OCO siblings are cancelled before later orders are evaluated.
/// `open` is the bar's open and `high_first` tells whether the bar is taken
/// to have reached its high before its low (its open is no farther from the
/// high than from the low).
pub fn order_evaluation_sequence(
    orders: &[&Order],
    position_side: Option<PositionSide>,
    policy: PathPolicy,
    open: Price,
    high_first: bool,
) -> (r: Vec<OrderId>)
    ensures
        orders@.len() <= 1 ==> r@ == ids_of(orders@).map_values(|o: OrderView| o.id),
        orders@.len() > 1 && policy == PathPolicy::WorstCase ==> r@ == ids_by_adversity(ids_of(orders@), position_side, true)
            + ids_by_adversity(ids_of(orders@), position_side, false),
        orders@.len() > 1 && policy == PathPolicy::BestCase ==> r@ == ids_by_adversity(ids_of(orders@), position_side, false)
            + ids_by_adversity(ids_of(orders@), position_side, true),
        orders@.len() > 1 && policy == PathPolicy::Deterministic ==> exists|perm: Seq<int>|
            is_path_order(ids_of(orders@), perm, open, high_first) && r@ == perm.map_values(|x: int| ids_of(orders@)[x].id),
{
    if orders.len() <= 1 {
        let mut out: Vec<OrderId> = Vec::new();
        if orders.len() == 1 {
            out.push(orders[0].id);
        }
        proof {
            assert(out@ =~= ids_of(orders@).map_values(|o: OrderView| o.id));
        }
        return out;
    }
    match policy {
        PathPolicy::WorstCase => {
            let mut adverse = partition_ids(orders, position_side, true);
            let mut favorable = partition_ids(orders, position_side, false);
            adverse.append(&mut favorable);
            adverse
        },
        PathPolicy::BestCase => {
            let mut favorable = partition_ids(orders, position_side, false);
            let mut adverse = partition_ids(orders, position_side, true);
            favorable.append(&mut adverse);
            favorable
        },
        PathPolicy::Deterministic => {
            let perm = path_order(orders, open, high_first);
            let ghost p = perm@.map_values(|x: usize| x as int);
            let mut out: Vec<OrderId> = Vec::new();
            let mut j: usize = 0;
            while j < perm.len()
                invariant
                    j <= perm@.len(),
                    p == perm@.map_values(|x: usize| x as int),
                    is_path_order(ids_of(orders@), p, open, high_first),
                    out@ == p.subrange(0, j as int).map_values(|x: int| ids_of(orders@)[x].id),
                decreases perm@.len() - j,
            {
                proof {
                    assert(0 <= p[j as int] < orders@.len());
                }
                out.push(orders[perm[j]].id);
                proof {
                    assert(p.subrange(0, j + 1).map_values(|x: int| ids_of(orders@)[x].id) =~= out@);
                }
                j = j + 1;
            }
            proof {
                assert(p.subrange(0, perm@.len() as int) =~= p);
            }
            out
        },
    }
}

/// The deterministic sequence is a permutation of the input: no order is
/// dropped or repeated.
pub proof fn path_order_is_permutation(orders: Seq<OrderView>, perm: Seq<int>, open: Price, high_first: bool)
    requires
        is_path_order(orders, perm, open, high_first),
    ensures
        forall|x: int, y: int| 0 <= x < y < perm.len() ==> perm[x] != perm[y],
        forall|i: int| 0 <= i < orders.len() ==> perm.contains(i),
{
    assert forall|x: int, y: int| 0 <= x < y < perm.len() implies perm[x] != perm[y] by {
        if perm[x] == perm[y] {
            let l = path_level(orders[perm[x]], open);
            assert(sequenced_before(orders, perm[x], perm[y], open, high_first));
            lemma_reached_before_total(l, l, open, high_first);
        }
    }
    // distinct positions below n, n of them: every position occurs
    let s = perm.to_set();
    perm.unique_seq_to_set();
    assert forall|i: int| 0 <= i < orders.len() implies perm.contains(i) by {
        let full = Set::new(|k: int| 0 <= k < orders.len());
        assert(s.subset_of(full)) by {
            assert forall|k: int| s.contains(k) implies full.contains(k) by {
                let x = choose|x: int| 0 <= x < perm.len() && perm[x] == k;
                assert(0 <= perm[x] < orders.len());
            }
        }
        vstd::set_lib::lemma_int_range(0, orders.len() as int);
        assert(full =~= vstd::set_lib::set_int_range(0, orders.len() as int));
        vstd::set_lib::lemma_subset_equality(s, full);
        assert(s.contains(i));
    }
}

/// Against an open position, the adverse orders are exactly the stop-market
/// orders on the side that closes it (sell stops against a long, buy stops
/// against a short); with no open position, exactly the stop and stop-limit
/// orders.
pub proof fn adverse_means_a_stop_against_the_position(o: OrderView, position_side: Option<PositionSide>)
    ensures
        match position_side {
            Some(side) => side != PositionSide::Flat ==> (is_adverse_spec(o, position_side) <==> (
            o.order_type is StopMarket && exit_side(side) == Some(o.side))),
            None => true,
        },
        position_side is None || position_side == Some(PositionSide::Flat) ==> (is_adverse_spec(o, position_side) <==> (
        o.order_type is StopMarket || o.order_type is StopLimit)),
        position_side == Some(PositionSide::Long) ==> (is_adverse_spec(o, position_side) <==> is_adverse_spec(
            OrderView { side: if o.side == OrderSide::Buy { OrderSide::Sell } else { OrderSide::Buy }, ..o },
            Some(PositionSide::Short),
        )),
{
}

proof fn lemma_ids_by_adversity_contains(os: Seq<OrderView>, ps: Option<PositionSide>, adverse: bool, i: int)
    requires
        0 <= i < os.len(),
        is_adverse_spec(os[i], ps) == adverse,
    ensures
        ids_by_adversity(os, ps, adverse).contains(os[i].id),
    decreases os.len(),
{
    let rest = os.drop_last();
    if i < os.len() - 1 {
        assert(rest[i] == os[i]);
        lemma_ids_by_adversity_contains(rest, ps, adverse, i);
        let r = ids_by_adversity(rest, ps, adverse);
        let k = choose|k: int| 0 <= k < r.len() && r[k] == os[i].id;
        if is_adverse_spec(os.last(), ps) == adverse {
            assert(r.push(os.last().id)[k] == os[i].id);
        }
    } else {
        let r = ids_by_adversity(rest, ps, adverse);
        assert(r.push(os.last().id)[r.len() as int] == os[i].id);
    }
}

/// Under `WorstCase` a stop that would close the open position is evaluated
/// before any other order of the symbol; under `BestCase` after every other
/// order. (The sequences are those `order_evaluation_sequence` returns for
/// more than one order.)
pub proof fn worst_case_evaluates_closing_stops_first(os: Seq<OrderView>, side: PositionSide, i: int, j: int)
    requires
        side != PositionSide::Flat,
        0 <= i < os.len(),
        0 <= j < os.len(),
        os[i].order_type is StopMarket && exit_side(side) == Some(os[i].side),
        !(os[j].order_type is StopMarket && exit_side(side) == Some(os[j].side)),
    ensures
        ({
            let adv = ids_by_adversity(os, Some(side), true);
            let fav = ids_by_adversity(os, Some(side), false);
            &&& exists|a: int, b: int| 0 <= a < b < (adv + fav).len() && (adv + fav)[a] == os[i].id && (adv + fav)[b] == os[j].id
            &&& exists|a: int, b: int| 0 <= a < b < (fav + adv).len() && (fav + adv)[a] == os[j].id && (fav + adv)[b] == os[i].id
        }),
{
    adverse_means_a_stop_against_the_position(os[i], Some(side));
    adverse_means_a_stop_against_the_position(os[j], Some(side));
    lemma_ids_by_adversity_contains(os, Some(side), true, i);
    lemma_ids_by_adversity_contains(os, Some(side), false, j);
    let adv = ids_by_adversity(os, Some(side), true);
    let fav = ids_by_adversity(os, Some(side), false);
    let a = choose|a: int| 0 <= a < adv.len() && adv[a] == os[i].id;
    let b = choose|b: int| 0 <= b < fav.len() && fav[b] == os[j].id;
    assert((adv + fav)[a] == os[i].id && (adv + fav)[adv.len() + b] == os[j].id);
    assert((fav + adv)[b] == os[j].id && (fav + adv)[fav.len() + a] == os[i].id);
}

/// The inferred path through a bar. High first, the price rises from the
/// open to the high and then falls to the low: of two levels at or above the
/// open the lower is reached first, every level at or above the open comes
/// before every level below it, and of two levels below the open the higher
/// is reached first. Low first is the mirror image. No level is reached
/// before itself.
pub proof fn path_rises_then_falls_or_the_reverse(a: Price, b: Price, open: Price)
    ensures
        a.0 >= open.0 && b.0 >= open.0 ==> (reached_before(a, b, open, true) <==> a.0 < b.0),
        a.0 >= open.0 && b.0 < open.0 ==> reached_before(a, b, open, true) && !reached_before(b, a, open, true),
        a.0 < open.0 && b.0 < open.0 ==> (reached_before(a, b, open, true) <==> a.0 > b.0),
        a.0 <= open.0 && b.0 <= open.0 ==> (reached_before(a, b, open, false) <==> a.0 > b.0),
        a.0 <= open.0 && b.0 > open.0 ==> reached_before(a, b, open, false) && !reached_before(b, a, open, false),
        a.0 > open.0 && b.0 > open.0 ==> (reached_before(a, b, open, false) <==> a.0 < b.0),
        !reached_before(a, a, open, true) && !reached_before(a, a, open, false),
{
}

} // verus!
