//! The three execution phases of a bar: which orders fill, at what level and
//! for how many units, and what that does to the order book.
//!
//! - start of bar: market-on-open and immediate orders fill at the open;
//! - intrabar: stop and limit orders trigger against the bar's range, in the
//!   order the path policy gives;
//! - end of bar: market-on-close orders fill at the close.
//!
//! Fill levels are raw (before slippage and commission); pricing them is left
//! to the caller.

use vstd::prelude::*;

use crate::domain::{OrderSide, PositionSide, Price, PriceBar};
use crate::ids::OrderId;
use crate::order::{Order, OrderType, OrderView};
use crate::order_book::{BookView, OrderBook};
use crate::path_policy::{ids_by_adversity, ids_of, is_path_order, order_evaluation_sequence, PathPolicy};
use crate::trigger::{check_trigger, trigger_rule, GapPolicy, TriggerResult};

verus! {

/// The phase of the bar in which a fill happened.
#[derive(Debug, Clone, Copy, PartialEq, Eq, Structural)]
pub enum FillPhase {
    StartOfBar,
    Intrabar,
    EndOfBar,
}

/// What the engine knows of one symbol on the bar being processed.
#[derive(Debug)]
pub struct SymbolBar {
    pub symbol: String,
    /// The bar's levels; `None` for a void bar (no trading).
    pub bar: Option<PriceBar>,
    /// Whether the bar is taken to reach its high before its low.
    pub high_first: bool,
    /// Liquidity cap on the quantity of one fill, if a liquidity policy is on.
    pub qty_cap: Option<i64>,
    /// Side of the position held in the symbol, if any.
    pub position_side: Option<PositionSide>,
}

/// A symbol's bar data with its name as characters.
pub struct SymbolBarView {
    pub symbol: Seq<char>,
    pub bar: Option<PriceBar>,
    pub high_first: bool,
    pub qty_cap: Option<i64>,
    pub position_side: Option<PositionSide>,
}

impl View for SymbolBar {
    type V = SymbolBarView;

    open spec fn view(&self) -> SymbolBarView {
        SymbolBarView {
            symbol: self.symbol@,
            bar: self.bar,
            high_first: self.high_first,
            qty_cap: self.qty_cap,
            position_side: self.position_side,
        }
    }
}

/// A fill decided by a phase: the order, its side, the raw fill level and
/// the quantity recorded in the book.
#[derive(Debug, Clone, Copy, PartialEq, Eq, Structural)]
pub struct FillDecision {
    pub order_id: OrderId,
    pub side: OrderSide,
    pub level: Price,
    pub quantity: i64,
    pub phase: FillPhase,
}

/// The views of a list of symbol bars.
pub open spec fn bars_view(bars: Seq<SymbolBar>) -> Seq<SymbolBarView> {
    bars.map_values(|b: SymbolBar| b@)
}

/// No symbol occurs twice.
pub open spec fn distinct_symbols(bars: Seq<SymbolBarView>) -> bool {
    forall|i: int, j: int| 0 <= i < j < bars.len() ==> bars[i].symbol != bars[j].symbol
}

/// The bar data of a symbol, if the symbol is listed.
pub open spec fn bar_for(bars: Seq<SymbolBarView>, symbol: Seq<char>) -> Option<SymbolBarView> {
    if exists|j: int| 0 <= j < bars.len() && bars[j].symbol == symbol {
        Some(bars[choose|j: int| 0 <= j < bars.len() && bars[j].symbol == symbol])
    } else {
        None
    }
}

/// The quantity a fill of `o` records: what remains of the order, capped by
/// the liquidity limit; none when that is not positive or when the remainder
/// does not fit in 64 bits.
pub open spec fn fill_quantity(o: OrderView, cap: Option<i64>) -> Option<i64> {
    let rem = o.quantity - o.filled_quantity;
    if rem < i64::MIN || rem > i64::MAX {
        None
    } else {
        let q = match cap {
            Some(c) => if rem <= c { rem } else { c as int },
            None => rem,
        };
        if q <= 0 {
            None
        } else {
            Some(q as i64)
        }
    }
}

/// Order types filled by a market phase.
pub open spec fn market_kind(t: OrderType, phase: FillPhase) -> bool {
    match phase {
        FillPhase::EndOfBar => t is MarketOnClose,
        _ => t is MarketOnOpen || t is MarketImmediate,
    }
}

/// The level at which a market phase fills.
pub open spec fn market_level(b: PriceBar, phase: FillPhase) -> Price {
    match phase {
        FillPhase::EndOfBar => b.close,
        _ => b.open,
    }
}

/// `ids` names each active order of the phase's kinds exactly once.
pub open spec fn is_market_listing(b: BookView, ids: Seq<OrderId>, phase: FillPhase) -> bool {
    &&& ids.no_duplicates()
    &&& forall|i: int| 0 <= i < ids.len() ==> b.is_active(#[trigger] ids[i]) && market_kind(b.order(ids[i]).order_type, phase)
    &&& forall|k: u64|
        #[trigger] b.active_keys().contains(k) && market_kind(b.orders[k].order_type, phase) ==> ids.contains(OrderId(k))
}

/// One order's turn in a market phase: an order still active whose symbol
/// has a non-void bar fills at the phase's level for its fill quantity.
pub open spec fn market_step(
    b: BookView,
    id: OrderId,
    bars: Seq<SymbolBarView>,
    bar_index: usize,
    phase: FillPhase,
) -> (BookView, Option<FillDecision>) {
    if !b.is_active(id) {
        (b, None)
    } else {
        let o = b.order(id);
        match bar_for(bars, o.symbol) {
            Some(sb) => match (sb.bar, fill_quantity(o, sb.qty_cap)) {
                (Some(pb), Some(q)) => (
                    b.after_fill(id, q, bar_index),
                    Some(
                        FillDecision {
                            order_id: id,
                            side: o.side,
                            level: market_level(pb, phase),
                            quantity: q,
                            phase,
                        },
                    ),
                ),
                _ => (b, None),
            },
            None => (b, None),
        }
    }
}

/// The turns of the listed orders, in order.
pub open spec fn market_fold(
    b: BookView,
    ids: Seq<OrderId>,
    bars: Seq<SymbolBarView>,
    bar_index: usize,
    phase: FillPhase,
) -> (BookView, Seq<FillDecision>)
    decreases ids.len(),
{
    if ids.len() == 0 {
        (b, Seq::empty())
    } else {
        let (b1, fs) = market_fold(b, ids.drop_last(), bars, bar_index, phase);
        let (b2, f) = market_step(b1, ids.last(), bars, bar_index, phase);
        match f {
            Some(d) => (b2, fs.push(d)),
            None => (b2, fs),
        }
    }
}

/// Index of the bar data for `symbol`.
fn find_bar(bars: &[SymbolBar], symbol: &String) -> (r: Option<usize>)
    requires
        distinct_symbols(bars_view(bars@)),
    ensures
        match r {
            Some(j) => j < bars@.len() && bar_for(bars_view(bars@), symbol@) == Some(bars@[j as int]@),
            None => bar_for(bars_view(bars@), symbol@) is None,
        },
{
    let ghost bv = bars_view(bars@);
    let mut j: usize = 0;
    while j < bars.len()
        invariant
            j <= bars@.len(),
            bv == bars_view(bars@),
            distinct_symbols(bv),
            forall|k: int| 0 <= k < j ==> bv[k].symbol != symbol@,
        decreases bars@.len() - j,
    {
        if bars[j].symbol == *symbol {
            proof {
                assert(bv[j as int].symbol == symbol@);
                let c = choose|k: int| 0 <= k < bv.len() && bv[k].symbol == symbol@;
                assert(c == j);
            }
            return Some(j);
        }
        j = j + 1;
    }
    None
}

/// The fill quantity of an order.
fn quantity_to_fill(o: &Order, cap: Option<i64>) -> (r: Option<i64>)
    ensures
        r == fill_quantity(o@, cap),
{
    let rem = match o.quantity.checked_sub(o.filled_quantity) {
        Some(r) => r,
        None => {
            return None;
        },
    };
    let q = match cap {
        Some(c) => if rem <= c { rem } else { c },
        None => rem,
    };
    if q <= 0 {
        None
    } else {
        Some(q)
    }
}

/// Orders of the market phase's kinds that are active now, each once.
fn market_listing(book: &OrderBook, phase: FillPhase) -> (ids: Vec<OrderId>)
    requires
        book.inv(),
    ensures
        is_market_listing(book@, ids@, phase),
{
    let refs = book.active_orders();
    let mut ids: Vec<OrderId> = Vec::new();
    let ghost mut from: Seq<int> = Seq::empty();
    let mut i: usize = 0;
    while i < refs.len()
        invariant
            i <= refs@.len(),
            ids@.len() == from.len(),
            forall|x: int| 0 <= x < from.len() ==> 0 <= #[trigger] from[x] < i && refs@[from[x]].id == ids@[x],
            forall|x: int, y: int| 0 <= x < y < from.len() ==> from[x] < from[y],
            forall|j: int|
                #![trigger refs@[j]]
                0 <= j < refs@.len() ==> book@.is_active(refs@[j].id) && refs@[j]@ == book@.order(refs@[j].id),
            forall|a: int, b: int| 0 <= a < b < refs@.len() ==> refs@[a].id != refs@[b].id,
            forall|x: int| 0 <= x < ids@.len() ==> book@.is_active(#[trigger] ids@[x]) && market_kind(book@.order(ids@[x]).order_type, phase),
            forall|j: int|
                0 <= j < i && market_kind(#[trigger] refs@[j].order_type, phase) ==> ids@.contains(refs@[j].id),
        decreases refs@.len() - i,
    {
        let o = refs[i];
        let wanted = match phase {
            FillPhase::EndOfBar => match o.order_type {
                OrderType::MarketOnClose => true,
                _ => false,
            },
            _ => match o.order_type {
                OrderType::MarketOnOpen | OrderType::MarketImmediate => true,
                _ => false,
            },
        };
        if wanted {
            proof {
                assert(refs@[i as int]@ == book@.order(refs@[i as int].id));
            }
            let ghost old_ids = ids@;
            ids.push(o.id);
            proof {
                from = from.push(i as int);
                assert forall|j: int| 0 <= j < i + 1 && market_kind(#[trigger] refs@[j].order_type, phase) implies ids@.contains(refs@[j].id) by {
                    if j < i {
                        assert(old_ids.contains(refs@[j].id));
                        let x = choose|x: int| 0 <= x < old_ids.len() && old_ids[x] == refs@[j].id;
                        assert(ids@[x] == refs@[j].id);
                    } else {
                        assert(ids@[ids@.len() - 1] == refs@[j].id);
                    }
                }
            }
        } else {
            proof {
                assert(refs@[i as int]@ == book@.order(refs@[i as int].id));
            }
        }
        i = i + 1;
    }
    proof {
        assert forall|a: int, b: int| 0 <= a < b < ids@.len() implies ids@[a] != ids@[b] by {
            assert(refs@[from[a]].id == ids@[a] && refs@[from[b]].id == ids@[b]);
        }
        assert forall|k: u64|
            #[trigger] book@.active_keys().contains(k) && market_kind(book@.orders[k].order_type, phase) implies ids@.contains(OrderId(k)) by {
            assert(book.inv());
        }
    }
    ids
}

/// What a market phase does: for some listing of the active orders of its
/// kinds (each once), the book and fills are those of the listed orders'
/// turns, in that order.
pub open spec fn market_phase_result(
    b0: BookView,
    bars: Seq<SymbolBarView>,
    bar_index: usize,
    phase: FillPhase,
    b1: BookView,
    fills: Seq<FillDecision>,
) -> bool {
    exists|ids: Seq<OrderId>|
        is_market_listing(b0, ids, phase) && (b1, fills) == market_fold(b0, ids, bars, bar_index, phase)
}

fn run_market_phase(book: &mut OrderBook, bars: &[SymbolBar], bar_index: usize, phase: FillPhase) -> (r: Vec<FillDecision>)
    requires
        old(book).inv(),
        distinct_symbols(bars_view(bars@)),
    ensures
        final(book).inv(),
        market_phase_result(old(book)@, bars_view(bars@), bar_index, phase, final(book)@, r@),
{
    let ids = market_listing(book, phase);
    let ghost b0 = book@;
    let ghost bv = bars_view(bars@);
    let mut out: Vec<FillDecision> = Vec::new();
    let mut i: usize = 0;
    while i < ids.len()
        invariant
            i <= ids@.len(),
            book.inv(),
            bv == bars_view(bars@),
            distinct_symbols(bv),
            (book@, out@) == market_fold(b0, ids@.take(i as int), bv, bar_index, phase),
        decreases ids@.len() - i,
    {
        let id = ids[i];
        let step: Option<(i64, Price, OrderSide)> = match book.get(id) {
            None => None,
            Some(o) => {
                if !o.is_active() {
                    None
                } else {
                    match find_bar(bars, &o.symbol) {
                        None => None,
                        Some(j) => match bars[j].bar {
                            None => None,
                            Some(pb) => match quantity_to_fill(o, bars[j].qty_cap) {
                                None => None,
                                Some(q) => {
                                    let level = match phase {
                                        FillPhase::EndOfBar => pb.close,
                                        _ => pb.open,
                                    };
                                    Some((q, level, o.side))
                                },
                            },
                        },
                    }
                }
            },
        };
        proof {
            assert(ids@.take(i + 1).drop_last() =~= ids@.take(i as int));
            assert(ids@.take(i + 1).last() == id);
        }
        match step {
            Some((q, level, side)) => {
                let _ = book.record_fill(id, q, bar_index);
                out.push(FillDecision { order_id: id, side, level, quantity: q, phase });
            },
            None => {},
        }
        i = i + 1;
    }
    proof {
        assert(ids@.take(ids@.len() as int) =~= ids@);
    }
    out
}

/// Start of bar: market-on-open and immediate orders fill at the open of
/// their symbol's bar.
pub fn process_start_of_bar(book: &mut OrderBook, bars: &[SymbolBar], bar_index: usize) -> (r: Vec<FillDecision>)
    requires
        old(book).inv(),
        distinct_symbols(bars_view(bars@)),
    ensures
        final(book).inv(),
        market_phase_result(old(book)@, bars_view(bars@), bar_index, FillPhase::StartOfBar, final(book)@, r@),
{
    run_market_phase(book, bars, bar_index, FillPhase::StartOfBar)
}

/// End of bar: market-on-close orders fill at the close of their symbol's
/// bar.
pub fn process_end_of_bar(book: &mut OrderBook, bars: &[SymbolBar], bar_index: usize) -> (r: Vec<FillDecision>)
    requires
        old(book).inv(),
        distinct_symbols(bars_view(bars@)),
    ensures
        final(book).inv(),
        market_phase_result(old(book)@, bars_view(bars@), bar_index, FillPhase::EndOfBar, final(book)@, r@),
{
    run_market_phase(book, bars, bar_index, FillPhase::EndOfBar)
}

/// Order types evaluated intrabar.
pub open spec fn intrabar_kind(t: OrderType) -> bool {
    t is StopMarket || t is Limit || t is StopLimit
}

/// `cands` lists, each once, the symbol's active stop and limit orders that
/// were not activated on this bar (a bracket child activated by a fill on
/// this bar waits for the next one).
pub open spec fn is_candidate_listing(b: BookView, symbol: Seq<char>, bar_index: usize, cands: Seq<OrderView>) -> bool {
    &&& forall|i: int|
        #![trigger cands[i]]
        0 <= i < cands.len() ==> {
            &&& b.is_active(cands[i].id)
            &&& cands[i] == b.order(cands[i].id)
            &&& cands[i].symbol == symbol
            &&& intrabar_kind(cands[i].order_type)
            &&& cands[i].activated_bar != Some(bar_index)
        }
    &&& forall|k: u64|
        #[trigger] b.active_keys().contains(k) && b.orders[k].symbol == symbol && intrabar_kind(b.orders[k].order_type)
            && b.orders[k].activated_bar != Some(bar_index) ==> exists|i: int| 0 <= i < cands.len() && cands[i].id.0 == k
    &&& forall|a: int, c: int| 0 <= a < c < cands.len() ==> cands[a].id != cands[c].id
}

/// `eval` is the path policy's evaluation sequence for `cands`.
pub open spec fn is_evaluation_sequence(
    cands: Seq<OrderView>,
    side: Option<PositionSide>,
    policy: PathPolicy,
    open: Price,
    high_first: bool,
    eval: Seq<OrderId>,
) -> bool {
    &&& cands.len() <= 1 ==> eval == cands.map_values(|o: OrderView| o.id)
    &&& cands.len() > 1 && policy == PathPolicy::WorstCase ==> eval == ids_by_adversity(cands, side, true)
        + ids_by_adversity(cands, side, false)
    &&& cands.len() > 1 && policy == PathPolicy::BestCase ==> eval == ids_by_adversity(cands, side, false)
        + ids_by_adversity(cands, side, true)
    &&& cands.len() > 1 && policy == PathPolicy::Deterministic ==> exists|perm: Seq<int>|
        is_path_order(cands, perm, open, high_first) && eval == perm.map_values(|x: int| cands[x].id)
}

/// One order's turn intrabar. An order no longer active (an OCO sibling
/// filled earlier) is skipped. One that triggers fills at its trigger rule's
/// level for its fill quantity, a pending stop-market being triggered first;
/// a stop-limit whose stop triggers without reaching its limit is triggered.
pub open spec fn intrabar_step(
    b: BookView,
    id: OrderId,
    sb: SymbolBarView,
    pb: PriceBar,
    bar_index: usize,
    gap: GapPolicy,
) -> (BookView, Option<FillDecision>) {
    if !b.is_active(id) {
        (b, None)
    } else {
        let o = b.order(id);
        match trigger_rule(o, Some(pb), gap) {
            TriggerResult::Fill { fill_price, .. } => match fill_quantity(o, sb.qty_cap) {
                None => (b, None),
                Some(q) => {
                    let b1 = if o.order_type is StopMarket && o.status is Pending {
                        b.after_trigger(id, bar_index)
                    } else {
                        b
                    };
                    (
                        b1.after_fill(id, q, bar_index),
                        Some(
                            FillDecision {
                                order_id: id,
                                side: o.side,
                                level: fill_price,
                                quantity: q,
                                phase: FillPhase::Intrabar,
                            },
                        ),
                    )
                },
            },
            TriggerResult::StopTriggeredLimitPending => (b.trigger_outcome(id, bar_index).0, None),
            TriggerResult::NoTrigger => (b, None),
        }
    }
}

/// The turns of the evaluation sequence, in order.
pub open spec fn intrabar_fold(
    b: BookView,
    eval: Seq<OrderId>,
    sb: SymbolBarView,
    pb: PriceBar,
    bar_index: usize,
    gap: GapPolicy,
) -> (BookView, Seq<FillDecision>)
    decreases eval.len(),
{
    if eval.len() == 0 {
        (b, Seq::empty())
    } else {
        let (b1, fs) = intrabar_fold(b, eval.drop_last(), sb, pb, bar_index, gap);
        let (b2, f) = intrabar_step(b1, eval.last(), sb, pb, bar_index, gap);
        match f {
            Some(d) => (b2, fs.push(d)),
            None => (b2, fs),
        }
    }
}

/// What the intrabar phase does to one symbol: nothing on a void bar; else,
/// for some listing of its candidates, the turns of the path policy's
/// evaluation sequence of that listing.
pub open spec fn symbol_intrabar(
    b0: BookView,
    sb: SymbolBarView,
    bar_index: usize,
    policy: PathPolicy,
    gap: GapPolicy,
    b1: BookView,
    fills: Seq<FillDecision>,
) -> bool {
    match sb.bar {
        None => b1 == b0 && fills.len() == 0,
        Some(pb) => exists|cands: Seq<OrderView>, eval: Seq<OrderId>|
            #![trigger is_candidate_listing(b0, sb.symbol, bar_index, cands), intrabar_fold(b0, eval, sb, pb, bar_index, gap)]
            is_candidate_listing(b0, sb.symbol, bar_index, cands)
                && is_evaluation_sequence(cands, sb.position_side, policy, pb.open, sb.high_first, eval)
                && (b1, fills) == intrabar_fold(b0, eval, sb, pb, bar_index, gap),
    }
}

/// What the intrabar phase does: the symbols in turn, each starting from
/// the book the previous one left, their fills concatenated.
pub open spec fn intrabar_run(
    b0: BookView,
    bars: Seq<SymbolBarView>,
    bar_index: usize,
    policy: PathPolicy,
    gap: GapPolicy,
    b1: BookView,
    fills: Seq<FillDecision>,
) -> bool
    decreases bars.len(),
{
    if bars.len() == 0 {
        b1 == b0 && fills.len() == 0
    } else {
        exists|bm: BookView, f1: Seq<FillDecision>, f2: Seq<FillDecision>|
            intrabar_run(b0, bars.drop_last(), bar_index, policy, gap, bm, f1)
                && symbol_intrabar(bm, bars.last(), bar_index, policy, gap, b1, f2) && fills == f1 + f2
    }
}

/// The symbol's intrabar candidates, each once.
fn intrabar_candidates<'a>(book: &'a OrderBook, symbol: &str, bar_index: usize) -> (r: Vec<&'a Order>)
    requires
        book.inv(),
    ensures
        is_candidate_listing(book@, symbol@, bar_index, ids_of(r@)),
{
    let refs = book.active_orders_for_symbol(symbol);
    let mut out: Vec<&Order> = Vec::new();
    let ghost mut from: Seq<int> = Seq::empty();
    let mut i: usize = 0;
    while i < refs.len()
        invariant
            i <= refs@.len(),
            out@.len() == from.len(),
            forall|x: int| 0 <= x < from.len() ==> 0 <= #[trigger] from[x] < i && refs@[from[x]] == out@[x],
            forall|x: int, y: int| 0 <= x < y < from.len() ==> from[x] < from[y],
            forall|j: int|
                #![trigger refs@[j]]
                0 <= j < refs@.len() ==> book@.is_active(refs@[j].id) && refs@[j]@ == book@.order(refs@[j].id)
                    && refs@[j].symbol@ == symbol@,
            forall|a: int, b: int| 0 <= a < b < refs@.len() ==> refs@[a].id != refs@[b].id,
            forall|x: int|
                #![trigger out@[x]]
                0 <= x < out@.len() ==> intrabar_kind(out@[x].order_type) && out@[x].activated_bar != Some(bar_index),
            forall|j: int|
                0 <= j < i && intrabar_kind(#[trigger] refs@[j].order_type) && refs@[j].activated_bar != Some(bar_index)
                    ==> exists|x: int| 0 <= x < out@.len() && out@[x].id == refs@[j].id,
        decreases refs@.len() - i,
    {
        let o = refs[i];
        let kind_ok = match o.order_type {
            OrderType::StopMarket { .. } | OrderType::Limit { .. } | OrderType::StopLimit { .. } => true,
            _ => false,
        };
        let fresh = match o.activated_bar {
            Some(b) => b != bar_index,
            None => true,
        };
        if kind_ok && fresh {
            let ghost old_out = out@;
            out.push(o);
            proof {
                from = from.push(i as int);
                assert forall|j: int|
                    0 <= j < i + 1 && intrabar_kind(#[trigger] refs@[j].order_type) && refs@[j].activated_bar != Some(bar_index)
                    implies exists|x: int| 0 <= x < out@.len() && out@[x].id == refs@[j].id by {
                    if j < i {
                        let x = choose|x: int| 0 <= x < old_out.len() && old_out[x].id == refs@[j].id;
                        assert(out@[x] == old_out[x]);
                    } else {
                        assert(out@[out@.len() - 1] == refs@[j]);
                    }
                }
            }
        }
        i = i + 1;
    }
    proof {
        let v = ids_of(out@);
        assert forall|x: int| #![trigger v[x]] 0 <= x < v.len() implies {
            &&& book@.is_active(v[x].id)
            &&& v[x] == book@.order(v[x].id)
            &&& v[x].symbol == symbol@
            &&& intrabar_kind(v[x].order_type)
            &&& v[x].activated_bar != Some(bar_index)
        } by {
            assert(v[x] == out@[x]@);
            assert(refs@[from[x]] == out@[x]);
        }
        assert forall|a: int, c: int| 0 <= a < c < v.len() implies v[a].id != v[c].id by {
            assert(refs@[from[a]] == out@[a] && refs@[from[c]] == out@[c]);
        }
        assert forall|k: u64|
            #[trigger] book@.active_keys().contains(k) && book@.orders[k].symbol == symbol@ && intrabar_kind(book@.orders[k].order_type)
                && book@.orders[k].activated_bar != Some(bar_index) implies exists|i: int| 0 <= i < v.len() && v[i].id.0 == k by {
            let j = choose|j: int| 0 <= j < refs@.len() && refs@[j].id.0 == k;
            assert(refs@[j]@ == book@.order(refs@[j].id));
            let x = choose|x: int| 0 <= x < out@.len() && out@[x].id == refs@[j].id;
            assert(v[x] == out@[x]@);
        }
    }
    out
}

/// The intrabar phase for one symbol.
fn intrabar_symbol(
    book: &mut OrderBook,
    sb: &SymbolBar,
    bar_index: usize,
    policy: PathPolicy,
    gap: GapPolicy,
) -> (r: Vec<FillDecision>)
    requires
        old(book).inv(),
    ensures
        final(book).inv(),
        symbol_intrabar(old(book)@, sb@, bar_index, policy, gap, final(book)@, r@),
{
    let pb = match sb.bar {
        None => {
            return Vec::new();
        },
        Some(pb) => pb,
    };
    let ghost b0 = book@;
    let ghost mut cands_v: Seq<OrderView> = Seq::empty();
    let eval = {
        let sym: &str = sb.symbol.as_str();
        let cands = intrabar_candidates(book, sym, bar_index);
        proof {
            cands_v = ids_of(cands@);
            assert(sym@ == sb@.symbol);
            assert(is_candidate_listing(b0, sb@.symbol, bar_index, cands_v));
        }
        order_evaluation_sequence(cands.as_slice(), sb.position_side, policy, pb.open, sb.high_first)
    };
    assert(is_evaluation_sequence(cands_v, sb.position_side, policy, pb.open, sb.high_first, eval@));
    let mut out: Vec<FillDecision> = Vec::new();
    let mut i: usize = 0;
    while i < eval.len()
        invariant
            i <= eval@.len(),
            book.inv(),
            sb.bar == Some(pb),
            (book@, out@) == intrabar_fold(b0, eval@.take(i as int), sb@, pb, bar_index, gap),
        decreases eval@.len() - i,
    {
        let id = eval[i];
        proof {
            assert(eval@.take(i + 1).drop_last() =~= eval@.take(i as int));
            assert(eval@.take(i + 1).last() == id);
        }
        let action: Option<(TriggerResult, Option<i64>, bool, OrderSide)> = match book.get(id) {
            None => None,
            Some(o) => {
                if !o.is_active() {
                    None
                } else {
                    let res = check_trigger(o, Some(pb), gap);
                    let q = quantity_to_fill(o, sb.qty_cap);
                    let stop_pending = match (o.order_type, &o.status) {
                        (OrderType::StopMarket { .. }, crate::order::OrderStatus::Pending) => true,
                        _ => false,
                    };
                    Some((res, q, stop_pending, o.side))
                }
            },
        };
        match action {
            None => {},
            Some((res, q, stop_pending, side)) => match res {
                TriggerResult::Fill { fill_price, .. } => match q {
                    None => {},
                    Some(q) => {
                        if stop_pending {
                            let _ = book.trigger(id, bar_index);
                        }
                        let _ = book.record_fill(id, q, bar_index);
                        out.push(
                            FillDecision {
                                order_id: id,
                                side,
                                level: fill_price,
                                quantity: q,
                                phase: FillPhase::Intrabar,
                            },
                        );
                    },
                },
                TriggerResult::StopTriggeredLimitPending => {
                    let _ = book.trigger(id, bar_index);
                },
                TriggerResult::NoTrigger => {},
            },
        }
        i = i + 1;
    }
    proof {
        assert(eval@.take(eval@.len() as int) =~= eval@);
        assert(is_candidate_listing(b0, sb@.symbol, bar_index, cands_v)
            && is_evaluation_sequence(cands_v, sb.position_side, policy, pb.open, sb.high_first, eval@)
            && (book@, out@) == intrabar_fold(b0, eval@, sb@, pb, bar_index, gap));
    }
    out
}

/// Intrabar: for each symbol in turn, its active stop and limit orders are
/// evaluated in the path policy's order and checked against the bar's range.
/// An order cancelled by an earlier fill in the same bar (OCO) is skipped.
pub fn process_intrabar(
    book: &mut OrderBook,
    bars: &[SymbolBar],
    bar_index: usize,
    policy: PathPolicy,
    gap: GapPolicy,
) -> (r: Vec<FillDecision>)
    requires
        old(book).inv(),
    ensures
        final(book).inv(),
        intrabar_run(old(book)@, bars_view(bars@), bar_index, policy, gap, final(book)@, r@),
{
    let ghost b0 = book@;
    let ghost bv = bars_view(bars@);
    let mut out: Vec<FillDecision> = Vec::new();
    let mut j: usize = 0;
    while j < bars.len()
        invariant
            j <= bars@.len(),
            book.inv(),
            bv == bars_view(bars@),
            intrabar_run(b0, bv.take(j as int), bar_index, policy, gap, book@, out@),
        decreases bars@.len() - j,
    {
        let ghost bm = book@;
        let ghost f1 = out@;
        let mut fs = intrabar_symbol(book, &bars[j], bar_index, policy, gap);
        let ghost f2 = fs@;
        out.append(&mut fs);
        proof {
            assert(bv.take(j + 1).drop_last() =~= bv.take(j as int));
            assert(bv.take(j + 1).last() == bars@[j as int]@);
            assert(out@ == f1 + f2);
            assert(intrabar_run(b0, bv.take(j + 1), bar_index, policy, gap, book@, out@));
        }
        j = j + 1;
    }
    proof {
        assert(bv.take(bars@.len() as int) =~= bv);
    }
    out
}

proof fn lemma_adversity_ids_come_from_orders(orders: Seq<OrderView>, side: Option<PositionSide>, adverse: bool)
    ensures
        forall|y: int| 0 <= y < ids_by_adversity(orders, side, adverse).len() ==> exists|i: int|
            0 <= i < orders.len() && orders[i].id == #[trigger] ids_by_adversity(orders, side, adverse)[y],
    decreases orders.len(),
{
    if orders.len() > 0 {
        let rest = orders.drop_last();
        lemma_adversity_ids_come_from_orders(rest, side, adverse);
        let r = ids_by_adversity(orders, side, adverse);
        assert forall|y: int| 0 <= y < r.len() implies exists|i: int| 0 <= i < orders.len() && orders[i].id == #[trigger] r[y] by {
            let rr = ids_by_adversity(rest, side, adverse);
            if y < rr.len() {
                assert(r[y] == rr[y]);
                let i = choose|i: int| 0 <= i < rest.len() && rest[i].id == rr[y];
                assert(orders[i] == rest[i]);
            } else {
                assert(r[y] == orders.last().id);
                assert(orders[orders.len() - 1] == orders.last());
            }
        }
    }
}

proof fn lemma_evaluated_ids_are_candidates(
    cands: Seq<OrderView>,
    side: Option<PositionSide>,
    policy: PathPolicy,
    open: Price,
    high_first: bool,
    eval: Seq<OrderId>,
)
    requires
        is_evaluation_sequence(cands, side, policy, open, high_first, eval),
    ensures
        forall|y: int| 0 <= y < eval.len() ==> exists|i: int| 0 <= i < cands.len() && cands[i].id == #[trigger] eval[y],
{
    assert forall|y: int| 0 <= y < eval.len() implies exists|i: int| 0 <= i < cands.len() && cands[i].id == #[trigger] eval[y] by {
        if cands.len() <= 1 {
            assert(eval == cands.map_values(|o: OrderView| o.id));
            assert(cands[y].id == eval[y]);
        } else if policy == PathPolicy::Deterministic {
            let perm = choose|perm: Seq<int>| is_path_order(cands, perm, open, high_first) && eval == perm.map_values(|x: int| cands[x].id);
            assert(0 <= perm[y] < cands.len());
            assert(eval[y] == cands[perm[y]].id);
        } else {
            lemma_adversity_ids_come_from_orders(cands, side, true);
            lemma_adversity_ids_come_from_orders(cands, side, false);
            let a = policy == PathPolicy::WorstCase;
            let first = ids_by_adversity(cands, side, a);
            let second = ids_by_adversity(cands, side, !a);
            assert(eval == first + second);
            if y < first.len() {
                assert(eval[y] == first[y]);
            } else {
                assert(eval[y] == second[y - first.len()]);
            }
        }
    }
}

proof fn lemma_intrabar_fills_are_evaluated(
    b: BookView,
    eval: Seq<OrderId>,
    sb: SymbolBarView,
    pb: PriceBar,
    bar_index: usize,
    gap: GapPolicy,
)
    ensures
        forall|x: int| 0 <= x < intrabar_fold(b, eval, sb, pb, bar_index, gap).1.len() ==> eval.contains(
            #[trigger] intrabar_fold(b, eval, sb, pb, bar_index, gap).1[x].order_id,
        ),
    decreases eval.len(),
{
    if eval.len() > 0 {
        let rest = eval.drop_last();
        lemma_intrabar_fills_are_evaluated(b, rest, sb, pb, bar_index, gap);
        let (b1, fs) = intrabar_fold(b, rest, sb, pb, bar_index, gap);
        let fills = intrabar_fold(b, eval, sb, pb, bar_index, gap).1;
        assert forall|x: int| 0 <= x < fills.len() implies eval.contains(#[trigger] fills[x].order_id) by {
            if x < fs.len() {
                assert(fills[x] == fs[x]);
                assert(rest.contains(fs[x].order_id));
                let k = choose|k: int| 0 <= k < rest.len() && rest[k] == fs[x].order_id;
                assert(eval[k] == rest[k]);
            } else {
                assert(fills[x].order_id == eval.last());
                assert(eval[eval.len() - 1] == eval.last());
            }
        }
    }
}

/// Same-bar protection: the intrabar phase never fills a bracket child on
/// the bar its entry filled. Every order it fills for a symbol was active
/// when the symbol's turn began and had not been activated on this bar.
pub proof fn intrabar_never_fills_children_activated_this_bar(
    b0: BookView,
    sb: SymbolBarView,
    bar_index: usize,
    policy: PathPolicy,
    gap: GapPolicy,
    b1: BookView,
    fills: Seq<FillDecision>,
)
    requires
        symbol_intrabar(b0, sb, bar_index, policy, gap, b1, fills),
    ensures
        forall|x: int| 0 <= x < fills.len() ==> {
            &&& b0.is_active(#[trigger] fills[x].order_id)
            &&& b0.order(fills[x].order_id).activated_bar != Some(bar_index)
        },
{
    match sb.bar {
        None => {},
        Some(pb) => {
            let (cands, eval) = choose|cands: Seq<OrderView>, eval: Seq<OrderId>|
                #![trigger is_candidate_listing(b0, sb.symbol, bar_index, cands), intrabar_fold(b0, eval, sb, pb, bar_index, gap)]
                is_candidate_listing(b0, sb.symbol, bar_index, cands)
                    && is_evaluation_sequence(cands, sb.position_side, policy, pb.open, sb.high_first, eval)
                    && (b1, fills) == intrabar_fold(b0, eval, sb, pb, bar_index, gap);
            lemma_evaluated_ids_are_candidates(cands, sb.position_side, policy, pb.open, sb.high_first, eval);
            lemma_intrabar_fills_are_evaluated(b0, eval, sb, pb, bar_index, gap);
            assert forall|x: int| 0 <= x < fills.len() implies {
                &&& b0.is_active(#[trigger] fills[x].order_id)
                &&& b0.order(fills[x].order_id).activated_bar != Some(bar_index)
            } by {
                let id = fills[x].order_id;
                assert(eval.contains(id));
                let y = choose|y: int| 0 <= y < eval.len() && eval[y] == id;
                let i = choose|i: int| 0 <= i < cands.len() && cands[i].id == eval[y];
                assert(cands[i] == b0.order(cands[i].id));
            }
        },
    }
}

} // verus!
