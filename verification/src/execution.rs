//! Fill-simulation policies: intrabar sequencing, conflict priority, gap
//! detection, FIFO volume allocation and execution presets.
//!
//! Policies sequence queued orders: each is seen through the fields the
//! policies read (its trigger level, stop direction, bracket parent and OCO
//! sibling).

use vstd::prelude::*;

use crate::domain::{Price, PriceBar};
use crate::ids::OrderId;
use crate::stable_sort::{is_stable_order, stable_order, stable_order_is_permutation, stable_before};

verus! {

/// Direction of a stop order.
#[derive(Debug, Clone, Copy, PartialEq, Eq, Structural)]
pub enum StopDirection {
    /// Triggers when price rises to the trigger.
    Buy,
    /// Triggers when price falls to the trigger.
    Sell,
}

/// An order waiting to be sequenced within a bar.
#[derive(Debug, Clone, Copy, PartialEq, Eq, Structural)]
pub struct QueuedOrder {
    pub id: OrderId,
    /// Trigger level reported by the order's type (`None` for market orders).
    pub trigger_price: Option<Price>,
    /// Set for stop and stop-limit orders.
    pub stop_direction: Option<StopDirection>,
    /// Bracket parent, if the order is a bracket child.
    pub parent_id: Option<OrderId>,
    /// OCO sibling, if any.
    pub oco_sibling_id: Option<OrderId>,
}

/// Policy for handling the unfilled remainder of an order.
#[derive(Debug, Clone, Copy, PartialEq, Eq, Structural)]
pub enum RemainderPolicy {
    /// Carry unfilled quantity to the next bar (order stays active).
    Carry,
    /// Cancel the entire order if it cannot fill completely.
    Cancel,
    /// Accept a partial fill.
    PartialFill,
}

/// A take-profit: a bracket child with an OCO sibling.
pub open spec fn is_take_profit(o: QueuedOrder) -> bool {
    o.parent_id is Some && o.oco_sibling_id is Some
}

/// A stop-loss: a bracket child that is not a take-profit.
pub open spec fn is_stop_loss(o: QueuedOrder) -> bool {
    o.parent_id is Some && !is_take_profit(o)
}

/// Adversarial rank: stop-losses first, take-profits last.
pub open spec fn worst_case_rank(o: QueuedOrder) -> u64 {
    if is_take_profit(o) {
        2
    } else if is_stop_loss(o) {
        0
    } else {
        1
    }
}

/// Optimistic rank: take-profits first, stop-losses last.
pub open spec fn best_case_rank(o: QueuedOrder) -> u64 {
    if is_take_profit(o) {
        0
    } else if is_stop_loss(o) {
        2
    } else {
        1
    }
}

/// Phase of the open → low → high → close path at which a trigger is hit,
/// with the trigger level (market orders: phase 0 at the open; triggers the
/// bar never reaches: phase 99).
pub open spec fn ohlc_key(o: QueuedOrder, bar: PriceBar) -> (u64, i64) {
    match o.trigger_price {
        Some(t) => {
            if bar.low.0 <= t.0 && t.0 <= bar.open.0 {
                (1, t.0)
            } else if bar.low.0 <= t.0 && t.0 <= bar.high.0 {
                (2, t.0)
            } else if bar.close.0 <= t.0 && t.0 <= bar.high.0 {
                (3, t.0)
            } else {
                (99, t.0)
            }
        },
        None => (0, bar.open.0),
    }
}

/// Natural price key: the trigger level, or the open for market orders.
pub open spec fn price_key(o: QueuedOrder, bar: PriceBar) -> (u64, i64) {
    match o.trigger_price {
        Some(t) => (0, t.0),
        None => (0, bar.open.0),
    }
}

/// The sequencing rules of the policies.
#[derive(Clone, Copy, PartialEq, Eq, Structural)]
enum SequenceRule {
    Ohlc,
    Price,
    WorstCase,
    BestCase,
}

spec fn rule_key(rule: SequenceRule, o: QueuedOrder, bar: PriceBar) -> (u64, i64) {
    match rule {
        SequenceRule::Ohlc => ohlc_key(o, bar),
        SequenceRule::Price => price_key(o, bar),
        SequenceRule::WorstCase => (worst_case_rank(o), 0),
        SequenceRule::BestCase => (best_case_rank(o), 0),
    }
}

/// `r` is `orders` stably sorted by `keys` (one key per order).
pub open spec fn stably_sorted(orders: Seq<QueuedOrder>, keys: Seq<(u64, i64)>, r: Seq<QueuedOrder>) -> bool {
    exists|perm: Seq<int>| is_stable_order(keys, perm) && r == perm.map_values(|x: int| orders[x])
}

/// Keys of the deterministic (OHLC path) sequence.
pub open spec fn ohlc_keys(orders: Seq<QueuedOrder>, bar: PriceBar) -> Seq<(u64, i64)> {
    orders.map_values(|o: QueuedOrder| ohlc_key(o, bar))
}

/// Keys of the natural price sequence.
pub open spec fn price_keys(orders: Seq<QueuedOrder>, bar: PriceBar) -> Seq<(u64, i64)> {
    orders.map_values(|o: QueuedOrder| price_key(o, bar))
}

/// Keys of the adversarial sequence.
pub open spec fn worst_case_keys(orders: Seq<QueuedOrder>) -> Seq<(u64, i64)> {
    orders.map_values(|o: QueuedOrder| (worst_case_rank(o), 0i64))
}

/// Keys of the optimistic sequence.
pub open spec fn best_case_keys(orders: Seq<QueuedOrder>) -> Seq<(u64, i64)> {
    orders.map_values(|o: QueuedOrder| (best_case_rank(o), 0i64))
}

spec fn rule_keys(rule: SequenceRule, orders: Seq<QueuedOrder>, bar: PriceBar) -> Seq<(u64, i64)> {
    orders.map_values(|o: QueuedOrder| rule_key(rule, o, bar))
}

fn key_of(rule: SequenceRule, o: &QueuedOrder, bar: &PriceBar) -> (k: (u64, i64))
    ensures
        k == rule_key(rule, *o, *bar),
{
    match rule {
        SequenceRule::Ohlc => match o.trigger_price {
            Some(t) => {
                if bar.low.0 <= t.0 && t.0 <= bar.open.0 {
                    (1, t.0)
                } else if bar.low.0 <= t.0 && t.0 <= bar.high.0 {
                    (2, t.0)
                } else if bar.close.0 <= t.0 && t.0 <= bar.high.0 {
                    (3, t.0)
                } else {
                    (99, t.0)
                }
            },
            None => (0, bar.open.0),
        },
        SequenceRule::Price => match o.trigger_price {
            Some(t) => (0, t.0),
            None => (0, bar.open.0),
        },
        SequenceRule::WorstCase => {
            let tp = o.parent_id.is_some() && o.oco_sibling_id.is_some();
            if tp {
                (2, 0)
            } else if o.parent_id.is_some() {
                (0, 0)
            } else {
                (1, 0)
            }
        },
        SequenceRule::BestCase => {
            let tp = o.parent_id.is_some() && o.oco_sibling_id.is_some();
            if tp {
                (0, 0)
            } else if o.parent_id.is_some() {
                (2, 0)
            } else {
                (1, 0)
            }
        },
    }
}

/// Sort `orders` stably by the keys of `rule`.
fn sequence_by(rule: SequenceRule, orders: &[QueuedOrder], bar: &PriceBar) -> (r: Vec<QueuedOrder>)
    ensures
        stably_sorted(orders@, rule_keys(rule, orders@, *bar), r@),
{
    let mut keys: Vec<(u64, i64)> = Vec::new();
    let mut i: usize = 0;
    while i < orders.len()
        invariant
            i <= orders@.len(),
            keys@ == rule_keys(rule, orders@.subrange(0, i as int), *bar),
        decreases orders@.len() - i,
    {
        let k = key_of(rule, &orders[i], bar);
        keys.push(k);
        i = i + 1;
        proof {
            assert(keys@ =~= rule_keys(rule, orders@.subrange(0, i as int), *bar));
        }
    }
    proof {
        assert(orders@.subrange(0, orders@.len() as int) =~= orders@);
    }
    let perm = stable_order(&keys);
    let ghost p = perm@.map_values(|x: usize| x as int);
    let mut out: Vec<QueuedOrder> = Vec::new();
    let mut j: usize = 0;
    while j < perm.len()
        invariant
            j <= perm@.len(),
            p == perm@.map_values(|x: usize| x as int),
            is_stable_order(keys@, p),
            keys@.len() == orders@.len(),
            out@ == p.subrange(0, j as int).map_values(|x: int| orders@[x]),
        decreases perm@.len() - j,
    {
        proof {
            assert(0 <= p[j as int] < orders@.len());
        }
        out.push(orders[perm[j]]);
        proof {
            assert(p.subrange(0, j + 1).map_values(|x: int| orders@[x]) =~= out@);
        }
        j = j + 1;
    }
    proof {
        assert(p.subrange(0, perm@.len() as int) =~= p);
        assert(out@ == p.map_values(|x: int| orders@[x]));
    }
    out
}

/// Sequencing neither drops nor invents orders: the output has the input's
/// length, every input order occurs in it and every output order is an input.
pub proof fn sequencing_keeps_every_order(orders: Seq<QueuedOrder>, keys: Seq<(u64, i64)>, r: Seq<QueuedOrder>)
    requires
        keys.len() == orders.len(),
        stably_sorted(orders, keys, r),
    ensures
        r.len() == orders.len(),
        forall|i: int| 0 <= i < orders.len() ==> r.contains(#[trigger] orders[i]),
        forall|x: int| 0 <= x < r.len() ==> orders.contains(#[trigger] r[x]),
{
    let perm = choose|perm: Seq<int>| is_stable_order(keys, perm) && r == perm.map_values(|x: int| orders[x]);
    stable_order_is_permutation(keys, perm);
    assert forall|i: int| 0 <= i < orders.len() implies r.contains(#[trigger] orders[i]) by {
        assert(perm.contains(i));
        let x = choose|x: int| 0 <= x < perm.len() && perm[x] == i;
        assert(r[x] == orders[i]);
    }
    assert forall|x: int| 0 <= x < r.len() implies orders.contains(#[trigger] r[x]) by {
        assert(0 <= perm[x] < orders.len());
        assert(r[x] == orders[perm[x]]);
    }
}

/// Under the adversarial sequence no take-profit comes before a stop-loss.
pub proof fn worst_case_puts_stops_first(orders: Seq<QueuedOrder>, r: Seq<QueuedOrder>)
    requires
        stably_sorted(orders, worst_case_keys(orders), r),
    ensures
        forall|x: int, y: int| 0 <= x < y < r.len() ==> !(is_take_profit(#[trigger] r[x]) && is_stop_loss(#[trigger] r[y])),
{
    let keys = worst_case_keys(orders);
    let perm = choose|perm: Seq<int>| is_stable_order(keys, perm) && r == perm.map_values(|x: int| orders[x]);
    assert forall|x: int, y: int| 0 <= x < y < r.len() implies !(is_take_profit(#[trigger] r[x]) && is_stop_loss(#[trigger] r[y])) by {
        assert(stable_before(keys, perm[x], perm[y]));
        assert(r[x] == orders[perm[x]] && r[y] == orders[perm[y]]);
    }
}

/// Under the optimistic sequence no stop-loss comes before a take-profit.
pub proof fn best_case_puts_targets_first(orders: Seq<QueuedOrder>, r: Seq<QueuedOrder>)
    requires
        stably_sorted(orders, best_case_keys(orders), r),
    ensures
        forall|x: int, y: int| 0 <= x < y < r.len() ==> !(is_stop_loss(#[trigger] r[x]) && is_take_profit(#[trigger] r[y])),
{
    let keys = best_case_keys(orders);
    let perm = choose|perm: Seq<int>| is_stable_order(keys, perm) && r == perm.map_values(|x: int| orders[x]);
    assert forall|x: int, y: int| 0 <= x < y < r.len() implies !(is_stop_loss(#[trigger] r[x]) && is_take_profit(#[trigger] r[y])) by {
        assert(stable_before(keys, perm[x], perm[y]));
        assert(r[x] == orders[perm[x]] && r[y] == orders[perm[y]]);
    }
}

/// The order's trigger is hit as the bar moves down from the open to the low.
pub open spec fn hit_going_down(o: QueuedOrder, bar: PriceBar) -> bool {
    o.trigger_price matches Some(t) && bar.low.0 <= t.0 && t.0 <= bar.open.0
}

/// The order's trigger is hit as the bar moves up from the low past the open
/// to the high.
pub open spec fn hit_going_up(o: QueuedOrder, bar: PriceBar) -> bool {
    o.trigger_price matches Some(t) && bar.open.0 < t.0 && t.0 <= bar.high.0
}

/// The order's trigger lies outside the bar's range.
pub open spec fn never_hit(o: QueuedOrder, bar: PriceBar) -> bool {
    o.trigger_price matches Some(t) && (t.0 < bar.low.0 || t.0 > bar.high.0)
}

/// The deterministic sequence follows the bar's path open → low → high →
/// close on a consistent bar: market orders come first; then the triggers
/// hit on the way down from the open, then those hit on the way up above
/// the open, each group by rising trigger level; the triggers the bar never
/// reached come last.
pub proof fn deterministic_sequence_follows_the_bar(orders: Seq<QueuedOrder>, bar: PriceBar, r: Seq<QueuedOrder>)
    requires
        bar_ordered(bar),
        stably_sorted(orders, ohlc_keys(orders, bar), r),
    ensures
        forall|x: int, y: int| 0 <= x < y < r.len() ==> {
            &&& (#[trigger] r[y]).trigger_price is None ==> (#[trigger] r[x]).trigger_price is None
            &&& hit_going_down(r[y], bar) ==> r[x].trigger_price is None || (hit_going_down(r[x], bar)
                && (r[x].trigger_price->0).0 <= (r[y].trigger_price->0).0)
            &&& hit_going_up(r[y], bar) ==> !never_hit(r[x], bar) && (hit_going_up(r[x], bar)
                ==> (r[x].trigger_price->0).0 <= (r[y].trigger_price->0).0)
            &&& never_hit(r[x], bar) ==> never_hit(r[y], bar)
        },
{
    let keys = ohlc_keys(orders, bar);
    let perm = choose|perm: Seq<int>| is_stable_order(keys, perm) && r == perm.map_values(|x: int| orders[x]);
    assert forall|x: int, y: int| 0 <= x < y < r.len() implies {
        &&& (#[trigger] r[y]).trigger_price is None ==> (#[trigger] r[x]).trigger_price is None
        &&& hit_going_down(r[y], bar) ==> r[x].trigger_price is None || (hit_going_down(r[x], bar)
            && (r[x].trigger_price->0).0 <= (r[y].trigger_price->0).0)
        &&& hit_going_up(r[y], bar) ==> !never_hit(r[x], bar) && (hit_going_up(r[x], bar)
            ==> (r[x].trigger_price->0).0 <= (r[y].trigger_price->0).0)
        &&& never_hit(r[x], bar) ==> never_hit(r[y], bar)
    } by {
        assert(stable_before(keys, perm[x], perm[y]));
        assert(r[x] == orders[perm[x]] && r[y] == orders[perm[y]]);
        assert(keys[perm[x]] == ohlc_key(r[x], bar) && keys[perm[y]] == ohlc_key(r[y], bar));
    }
}

/// Deterministic path policy: orders follow the open → low → high → close
/// path, by phase and then by price.
#[derive(Debug, Clone, Copy, PartialEq, Eq, Structural)]
pub struct Deterministic;

/// Adversarial path policy: stop-losses before take-profits.
#[derive(Debug, Clone, Copy, PartialEq, Eq, Structural)]
pub struct WorstCase;

/// Optimistic path policy: take-profits before stop-losses.
#[derive(Debug, Clone, Copy, PartialEq, Eq, Structural)]
pub struct BestCase;

/// Natural price sequence: by trigger level.
#[derive(Debug, Clone, Copy, PartialEq, Eq, Structural)]
pub struct PriceOrder;

impl Deterministic {
    /// Orders in trigger sequence for this bar.
    pub fn order_sequence(&self, orders: &[QueuedOrder], bar: &PriceBar) -> (r: Vec<QueuedOrder>)
        ensures
            stably_sorted(orders@, ohlc_keys(orders@, *bar), r@),
    {
        let r = sequence_by(SequenceRule::Ohlc, orders, bar);
        proof {
            assert(rule_keys(SequenceRule::Ohlc, orders@, *bar) =~= ohlc_keys(orders@, *bar));
        }
        r
    }

    pub fn name(&self) -> (n: &'static str)
        ensures
            n@ == "Deterministic"@,
    {
        "Deterministic"
    }
}

impl WorstCase {
    /// Orders in trigger sequence for this bar.
    pub fn order_sequence(&self, orders: &[QueuedOrder], bar: &PriceBar) -> (r: Vec<QueuedOrder>)
        ensures
            stably_sorted(orders@, worst_case_keys(orders@), r@),
    {
        let r = sequence_by(SequenceRule::WorstCase, orders, bar);
        proof {
            assert(rule_keys(SequenceRule::WorstCase, orders@, *bar) =~= worst_case_keys(orders@));
        }
        r
    }

    pub fn name(&self) -> (n: &'static str)
        ensures
            n@ == "WorstCase"@,
    {
        "WorstCase"
    }
}

impl BestCase {
    /// Orders in trigger sequence for this bar.
    pub fn order_sequence(&self, orders: &[QueuedOrder], bar: &PriceBar) -> (r: Vec<QueuedOrder>)
        ensures
            stably_sorted(orders@, best_case_keys(orders@), r@),
    {
        let r = sequence_by(SequenceRule::BestCase, orders, bar);
        proof {
            assert(rule_keys(SequenceRule::BestCase, orders@, *bar) =~= best_case_keys(orders@));
        }
        r
    }

    pub fn name(&self) -> (n: &'static str)
        ensures
            n@ == "BestCase"@,
    {
        "BestCase"
    }
}

impl PriceOrder {
    /// Orders in trigger sequence for this bar.
    pub fn order_sequence(&self, orders: &[QueuedOrder], bar: &PriceBar) -> (r: Vec<QueuedOrder>)
        ensures
            stably_sorted(orders@, price_keys(orders@, *bar), r@),
    {
        let r = sequence_by(SequenceRule::Price, orders, bar);
        proof {
            assert(rule_keys(SequenceRule::Price, orders@, *bar) =~= price_keys(orders@, *bar));
        }
        r
    }

    pub fn name(&self) -> (n: &'static str)
        ensures
            n@ == "PriceOrder"@,
    {
        "PriceOrder"
    }
}

/// Conservative conflict priority: stop-losses before take-profits.
#[derive(Debug, Clone, Copy, PartialEq, Eq, Structural)]
pub struct WorstCasePriority;

/// Optimistic conflict priority: take-profits before stop-losses.
#[derive(Debug, Clone, Copy, PartialEq, Eq, Structural)]
pub struct BestCasePriority;

/// Price-time priority: keeps the sequence it is given.
#[derive(Debug, Clone, Copy, PartialEq, Eq, Structural)]
pub struct PriceOrderPriority;

impl WorstCasePriority {
    /// Reorder conflicting orders.
    pub fn prioritize(&self, orders: Vec<QueuedOrder>, bar: &PriceBar) -> (r: Vec<QueuedOrder>)
        ensures
            stably_sorted(orders@, worst_case_keys(orders@), r@),
    {
        let r = sequence_by(SequenceRule::WorstCase, orders.as_slice(), bar);
        proof {
            assert(rule_keys(SequenceRule::WorstCase, orders@, *bar) =~= worst_case_keys(orders@));
        }
        r
    }

    pub fn name(&self) -> (n: &'static str)
        ensures
            n@ == "WorstCasePriority"@,
    {
        "WorstCasePriority"
    }
}

impl BestCasePriority {
    /// Reorder conflicting orders.
    pub fn prioritize(&self, orders: Vec<QueuedOrder>, bar: &PriceBar) -> (r: Vec<QueuedOrder>)
        ensures
            stably_sorted(orders@, best_case_keys(orders@), r@),
    {
        let r = sequence_by(SequenceRule::BestCase, orders.as_slice(), bar);
        proof {
            assert(rule_keys(SequenceRule::BestCase, orders@, *bar) =~= best_case_keys(orders@));
        }
        r
    }

    pub fn name(&self) -> (n: &'static str)
        ensures
            n@ == "BestCasePriority"@,
    {
        "BestCasePriority"
    }
}

impl PriceOrderPriority {
    /// The sequence unchanged.
    pub fn prioritize(&self, orders: Vec<QueuedOrder>, bar: &PriceBar) -> (r: Vec<QueuedOrder>)
        ensures
            r@ == orders@,
    {
        orders
    }

    pub fn name(&self) -> (n: &'static str)
        ensures
            n@ == "PriceOrderPriority"@,
    {
        "PriceOrderPriority"
    }
}

/// Whether a stop order gapped through its trigger: a buy stop whose bar
/// opened and stayed above the trigger, or a sell stop whose bar opened and
/// stayed below it. Orders that are not stops cannot gap.
pub open spec fn gapped_through(o: QueuedOrder, bar: PriceBar) -> bool {
    match (o.stop_direction, o.trigger_price) {
        (Some(StopDirection::Buy), Some(t)) => bar.open.0 > t.0 && bar.low.0 > t.0,
        (Some(StopDirection::Sell), Some(t)) => bar.open.0 < t.0 && bar.high.0 < t.0,
        _ => false,
    }
}

/// Detects stop orders that gap through their triggers.
#[derive(Debug, Clone, Copy, PartialEq, Eq, Structural)]
pub struct GapHandler;

impl GapHandler {
    pub fn new() -> (h: Self) {
        GapHandler
    }

    /// Whether `order` was gapped through in `bar`.
    pub fn did_gap_through(&self, order: &QueuedOrder, bar: &PriceBar) -> (b: bool)
        ensures
            b == gapped_through(*order, *bar),
    {
        match (order.stop_direction, order.trigger_price) {
            (Some(StopDirection::Buy), Some(t)) => bar.open.0 > t.0 && bar.low.0 > t.0,
            (Some(StopDirection::Sell), Some(t)) => bar.open.0 < t.0 && bar.high.0 < t.0,
            _ => false,
        }
    }

    /// The fill level of a gapped order: the open, which is worse than the
    /// trigger.
    pub fn gap_fill_price(&self, bar: &PriceBar) -> (p: Price)
        ensures
            p == bar.open,
    {
        bar.open
    }
}

/// A gapped stop fills at the open, which is worse than its trigger: above
/// it for a buy stop, below it for a sell stop. Only stops can gap.
pub proof fn gap_fill_is_worse_than_trigger(o: QueuedOrder, bar: PriceBar)
    requires
        gapped_through(o, bar),
    ensures
        match (o.stop_direction, o.trigger_price) {
            (Some(StopDirection::Buy), Some(t)) => bar.open.0 > t.0,
            (Some(StopDirection::Sell), Some(t)) => bar.open.0 < t.0,
            _ => false,
        },
{
}

/// The bar's levels are consistent: the open and the close lie between the
/// low and the high.
pub open spec fn bar_ordered(bar: PriceBar) -> bool {
    bar.low.0 <= bar.open.0 <= bar.high.0 && bar.low.0 <= bar.close.0 <= bar.high.0
}

/// A stop is reported gapped through only when the bar never traded at its
/// trigger: for a sell stop every level of the bar, the high included, is
/// below the trigger; for a buy stop every level, the low included, is above
/// it. On a consistent bar this is also enough: a sell stop gapped exactly
/// when the high is below the trigger, a buy stop exactly when the low is
/// above it. Orders that are not stops never gap.
pub proof fn gap_means_the_bar_never_reached_the_trigger(o: QueuedOrder, bar: PriceBar)
    ensures
        o.stop_direction is None || o.trigger_price is None ==> !gapped_through(o, bar),
        match (o.stop_direction, o.trigger_price) {
            (Some(StopDirection::Sell), Some(t)) => {
                &&& gapped_through(o, bar) ==> bar.high.0 < t.0 && bar.open.0 < t.0
                &&& gapped_through(o, bar) && bar_ordered(bar) ==> bar.low.0 < t.0 && bar.close.0 < t.0
                &&& bar_ordered(bar) ==> (gapped_through(o, bar) <==> bar.high.0 < t.0)
            },
            (Some(StopDirection::Buy), Some(t)) => {
                &&& gapped_through(o, bar) ==> bar.low.0 > t.0 && bar.open.0 > t.0
                &&& gapped_through(o, bar) && bar_ordered(bar) ==> bar.high.0 > t.0 && bar.close.0 > t.0
                &&& bar_ordered(bar) ==> (gapped_through(o, bar) <==> bar.low.0 > t.0)
            },
            _ => true,
        },
{
}

impl Default for GapHandler {
    fn default() -> (h: Self) {
        GapHandler::new()
    }
}

/// Volume left in a pool of `pool` shares after FIFO allocation to the
/// requests in `reqs`, each taking as much as it asks for or as is left.
pub open spec fn fifo_remaining(reqs: Seq<u32>, pool: int) -> int
    decreases reqs.len(),
{
    if reqs.len() == 0 {
        pool
    } else {
        let left = fifo_remaining(reqs.drop_last(), pool);
        left - min_int(reqs.last() as int, left)
    }
}

pub open spec fn min_int(a: int, b: int) -> int {
    if a <= b {
        a
    } else {
        b
    }
}

/// Quantity the `i`-th request receives under FIFO allocation.
pub open spec fn fifo_fill(reqs: Seq<u32>, pool: int, i: int) -> int {
    min_int(reqs[i] as int, fifo_remaining(reqs.take(i), pool))
}

/// The requested quantities of a list of (order, quantity) pairs.
pub open spec fn requested<T>(order_qtys: Seq<(T, u32)>) -> Seq<u32> {
    order_qtys.map_values(|p: (T, u32)| p.1)
}

/// Total quantity handed to the first `k` requests.
pub open spec fn fifo_total(reqs: Seq<u32>, pool: int, k: int) -> int
    decreases k,
{
    if k <= 0 {
        0
    } else {
        fifo_total(reqs, pool, k - 1) + fifo_fill(reqs, pool, k - 1)
    }
}

/// Allocate `max_volume` among competing orders in time priority (FIFO):
/// each order, in the given order, receives what it asks for or what is
/// left, whichever is less.
pub fn allocate_fifo<T: Copy>(order_qtys: Vec<(T, u32)>, max_volume: u32) -> (r: Vec<(T, u32)>)
    ensures
        r@.len() == order_qtys@.len(),
        forall|i: int| 0 <= i < r@.len() ==> (#[trigger] r@[i]).0 == order_qtys@[i].0,
        forall|i: int| 0 <= i < r@.len() ==> (#[trigger] r@[i]).1 == fifo_fill(requested(order_qtys@), max_volume as int, i),
{
    let ghost reqs = requested(order_qtys@);
    let mut remaining: u32 = max_volume;
    let mut allocations: Vec<(T, u32)> = Vec::new();
    let mut i: usize = 0;
    while i < order_qtys.len()
        invariant
            i <= order_qtys@.len(),
            reqs == requested(order_qtys@),
            remaining as int == fifo_remaining(reqs.take(i as int), max_volume as int),
            allocations@.len() == i,
            forall|k: int| 0 <= k < i ==> (#[trigger] allocations@[k]).0 == order_qtys@[k].0,
            forall|k: int| 0 <= k < i ==> (#[trigger] allocations@[k]).1 == fifo_fill(reqs, max_volume as int, k),
        decreases order_qtys@.len() - i,
    {
        let (order_id, requested_qty) = order_qtys[i];
        let fill_qty: u32 = if requested_qty < remaining { requested_qty } else { remaining };
        allocations.push((order_id, fill_qty));
        proof {
            assert(reqs.take(i + 1).drop_last() =~= reqs.take(i as int));
            assert(reqs.take(i + 1).last() == reqs[i as int]);
        }
        remaining = remaining - fill_qty;
        i = i + 1;
    }
    allocations
}

proof fn lemma_fifo_prefix(reqs: Seq<u32>, pool: int, k: int)
    requires
        pool >= 0,
        0 <= k <= reqs.len(),
    ensures
        0 <= fifo_remaining(reqs.take(k), pool) <= pool,
        fifo_total(reqs, pool, k) == pool - fifo_remaining(reqs.take(k), pool),
    decreases k,
{
    if k > 0 {
        lemma_fifo_prefix(reqs, pool, k - 1);
        assert(reqs.take(k).drop_last() =~= reqs.take(k - 1));
    }
}

proof fn lemma_fifo_exhausted(reqs: Seq<u32>, pool: int, i: int, j: int)
    requires
        pool >= 0,
        0 <= i < j <= reqs.len(),
        fifo_remaining(reqs.take(i + 1), pool) == 0,
    ensures
        fifo_remaining(reqs.take(j), pool) == 0,
    decreases j - i,
{
    if j > i + 1 {
        lemma_fifo_exhausted(reqs, pool, i, j - 1);
        lemma_fifo_prefix(reqs, pool, j);
        assert(reqs.take(j).drop_last() =~= reqs.take(j - 1));
    }
}

/// FIFO allocation never hands out more than the pool or more than an order
/// asked for, and an order is cut short only when the pool runs dry: every
/// later order then receives nothing.
pub proof fn fifo_allocation_respects_pool(reqs: Seq<u32>, pool: u32)
    ensures
        forall|i: int| 0 <= i < reqs.len() ==> 0 <= #[trigger] fifo_fill(reqs, pool as int, i) <= reqs[i],
        0 <= fifo_total(reqs, pool as int, reqs.len() as int) <= pool,
        forall|i: int, j: int| 0 <= i < j < reqs.len() && #[trigger] fifo_fill(reqs, pool as int, i) < reqs[i]
            ==> #[trigger] fifo_fill(reqs, pool as int, j) == 0,
{
    let p = pool as int;
    assert forall|i: int| 0 <= i < reqs.len() implies 0 <= #[trigger] fifo_fill(reqs, p, i) <= reqs[i] by {
        lemma_fifo_prefix(reqs, p, i);
    }
    lemma_fifo_prefix(reqs, p, reqs.len() as int);
    assert forall|i: int, j: int| 0 <= i < j < reqs.len() && #[trigger] fifo_fill(reqs, p, i) < reqs[i]
        implies #[trigger] fifo_fill(reqs, p, j) == 0 by {
        lemma_fifo_prefix(reqs, p, i);
        assert(reqs.take(i + 1).drop_last() =~= reqs.take(i));
        assert(reqs.take(i + 1).last() == reqs[i]);
        lemma_fifo_exhausted(reqs, p, i, j);
        lemma_fifo_prefix(reqs, p, j);
    }
}

/// FIFO allocation leaves nothing in the pool while an order goes short:
/// if any order receives less than it asked for, the whole pool is handed
/// out. The first order receives what it asks for, or the whole pool if that
/// is less.
pub proof fn fifo_allocation_uses_the_pool(reqs: Seq<u32>, pool: u32)
    ensures
        forall|i: int| 0 <= i < reqs.len() && #[trigger] fifo_fill(reqs, pool as int, i) < reqs[i]
            ==> fifo_total(reqs, pool as int, reqs.len() as int) == pool,
        reqs.len() > 0 ==> fifo_fill(reqs, pool as int, 0) == min_int(reqs[0] as int, pool as int),
{
    let p = pool as int;
    assert forall|i: int| 0 <= i < reqs.len() && #[trigger] fifo_fill(reqs, p, i) < reqs[i]
        implies fifo_total(reqs, p, reqs.len() as int) == p by {
        lemma_fifo_prefix(reqs, p, i);
        assert(reqs.take(i + 1).drop_last() =~= reqs.take(i));
        assert(reqs.take(i + 1).last() == reqs[i]);
        if i + 1 < reqs.len() {
            lemma_fifo_exhausted(reqs, p, i, reqs.len() as int);
        }
        lemma_fifo_prefix(reqs, p, reqs.len() as int);
        assert(reqs.take(reqs.len() as int) =~= reqs);
    }
    if reqs.len() > 0 {
        assert(reqs.take(0) =~= Seq::<u32>::empty());
    }
}

/// Fill quantity capped at what the bar's volume allows.
pub fn limit_fill_qty(requested_qty: u32, max_qty: u32) -> (q: u32)
    ensures
        q == min_int(requested_qty as int, max_qty as int),
{
    if requested_qty <= max_qty { requested_qty } else { max_qty }
}

/// Whether an order can fill completely within the volume cap.
pub fn can_fill_completely(requested_qty: u32, max_qty: u32) -> (b: bool)
    ensures
        b == (requested_qty <= max_qty),
{
    requested_qty <= max_qty
}

/// A participation limit: at most `max_participation_bps` basis points of a
/// bar's volume may fill, and what happens to the unfilled remainder.
#[derive(Debug, Clone, Copy, PartialEq, Eq, Structural)]
pub struct ParticipationLimit {
    pub max_participation_bps: u32,
    pub remainder_policy: RemainderPolicy,
}

/// Optimistic preset: best-case path and priority, minimal slippage, no
/// liquidity constraint.
#[derive(Debug, Clone, Copy, PartialEq, Eq, Structural)]
pub struct Optimistic;

/// Realistic preset: deterministic path, conservative priority, moderate
/// slippage, optional liquidity constraint.
#[derive(Debug, Clone, Copy, PartialEq, Eq, Structural)]
pub struct Realistic {
    /// Enable liquidity constraints.
    pub with_liquidity: bool,
}

/// Hostile preset: worst-case path and priority, high slippage, strict
/// liquidity constraint.
#[derive(Debug, Clone, Copy, PartialEq, Eq, Structural)]
pub struct Hostile;

impl Optimistic {
    /// No liquidity constraint.
    pub fn liquidity_constraint(&self) -> (r: Option<ParticipationLimit>)
        ensures
            r is None,
    {
        None
    }

    pub fn name(&self) -> (n: &'static str)
        ensures
            n@ == "Optimistic"@,
    {
        "Optimistic"
    }
}

impl Realistic {
    pub fn new() -> (p: Self)
        ensures
            p.with_liquidity,
    {
        Realistic { with_liquidity: true }
    }

    pub fn without_liquidity() -> (p: Self)
        ensures
            !p.with_liquidity,
    {
        Realistic { with_liquidity: false }
    }

    /// 10% participation with the remainder carried, when liquidity
    /// constraints are enabled; none otherwise.
    pub fn liquidity_constraint(&self) -> (r: Option<ParticipationLimit>)
        ensures
            r == if self.with_liquidity {
                Some(ParticipationLimit { max_participation_bps: 1000, remainder_policy: RemainderPolicy::Carry })
            } else {
                None::<ParticipationLimit>
            },
    {
        if self.with_liquidity {
            Some(ParticipationLimit { max_participation_bps: 1000, remainder_policy: RemainderPolicy::Carry })
        } else {
            None
        }
    }

    pub fn name(&self) -> (n: &'static str)
        ensures
            n@ == "Realistic"@,
    {
        "Realistic"
    }
}

impl Default for Realistic {
    fn default() -> (p: Self)
        ensures
            p.with_liquidity,
    {
        Realistic::new()
    }
}

impl Hostile {
    /// Strict liquidity constraint: 5% participation, remainder carried.
    pub fn liquidity_constraint(&self) -> (r: Option<ParticipationLimit>)
        ensures
            r == Some(ParticipationLimit { max_participation_bps: 500, remainder_policy: RemainderPolicy::Carry }),
    {
        Some(ParticipationLimit { max_participation_bps: 500, remainder_policy: RemainderPolicy::Carry })
    }

    pub fn name(&self) -> (n: &'static str)
        ensures
            n@ == "Hostile"@,
    {
        "Hostile"
    }
}

} // verus!
