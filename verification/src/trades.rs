//! Pairing fills into round-trip trades.
//!
//! Fills are taken in chronological order. A fill on a symbol with an open
//! trade whose entry was on the other side closes that trade; any other fill
//! opens a trade on its symbol (replacing an open one entered on the same
//! side). Prices and profit and loss are left to the caller.

use vstd::prelude::*;

use crate::domain::OrderSide;

verus! {

/// The state of the pairing after the first `k` fills: for each symbol, the
/// index of the entry fill of its open trade, if any; and the round trips
/// closed so far as (entry fill, exit fill) index pairs, in order of exit.
pub open spec fn pairing(fills: Seq<(usize, OrderSide)>, n_symbols: nat, k: int) -> (Seq<Option<usize>>, Seq<(usize, usize)>)
    decreases k,
{
    if k <= 0 {
        (Seq::new(n_symbols, |i: int| None::<usize>), Seq::empty())
    } else {
        let (open, trips) = pairing(fills, n_symbols, k - 1);
        let (sym, side) = fills[k - 1];
        match open[sym as int] {
            Some(e) => if fills[e as int].1 != side {
                (open.update(sym as int, None), trips.push((e, (k - 1) as usize)))
            } else {
                (open.update(sym as int, Some((k - 1) as usize)), trips)
            },
            None => (open.update(sym as int, Some((k - 1) as usize)), trips),
        }
    }
}

proof fn lemma_pairing_shape(fills: Seq<(usize, OrderSide)>, n_symbols: nat, k: int)
    requires
        0 <= k <= fills.len(),
        fills.len() <= usize::MAX,
        forall|i: int| 0 <= i < fills.len() ==> (#[trigger] fills[i]).0 < n_symbols,
    ensures
        pairing(fills, n_symbols, k).0.len() == n_symbols,
        forall|s: int|
            0 <= s < n_symbols ==> match #[trigger] pairing(fills, n_symbols, k).0[s] {
                Some(e) => e < k && fills[e as int].0 == s,
                None => true,
            },
        forall|j: int|
            0 <= j < pairing(fills, n_symbols, k).1.len() ==> {
                let (e, x) = #[trigger] pairing(fills, n_symbols, k).1[j];
                &&& e < x < k
                &&& fills[e as int].0 == fills[x as int].0
                &&& fills[e as int].1 != fills[x as int].1
            },
    decreases k,
{
    if k > 0 {
        lemma_pairing_shape(fills, n_symbols, k - 1);
        let (open, trips) = pairing(fills, n_symbols, k - 1);
        let (sym, side) = fills[k - 1];
        assert(fills[k - 1].0 < n_symbols);
        let (open2, trips2) = pairing(fills, n_symbols, k);
        assert forall|s: int| 0 <= s < n_symbols implies match #[trigger] open2[s] {
            Some(e) => e < k && fills[e as int].0 == s,
            None => true,
        } by {
            if s != sym as int {
                assert(open2[s] == open[s]);
            } else {
                match open[sym as int] {
                    Some(e) => {
                        if fills[e as int].1 != side {
                            assert(open2[s] is None);
                        } else {
                            assert(open2[s] == Some((k - 1) as usize));
                        }
                    },
                    None => {
                        assert(open2[s] == Some((k - 1) as usize));
                    },
                }
            }
        }
        assert forall|j: int| 0 <= j < trips2.len() implies {
            let (e, x) = #[trigger] trips2[j];
            &&& e < x < k
            &&& fills[e as int].0 == fills[x as int].0
            &&& fills[e as int].1 != fills[x as int].1
        } by {
            if j < trips.len() {
                assert(trips2[j] == trips[j]);
            } else {
                assert(open[sym as int] is Some);
                let e = open[sym as int]->0;
                assert(fills[e as int].1 != side);
                assert(trips2[j] == (e, (k - 1) as usize));
            }
        }
    }
}

/// Round trips of a chronological list of fills, each fill given by its
/// symbol (an index below `n_symbols`) and side: (entry fill, exit fill)
/// index pairs in order of exit.
pub fn pair_round_trips(fills: &[(usize, OrderSide)], n_symbols: usize) -> (r: Vec<(usize, usize)>)
    requires
        forall|i: int| 0 <= i < fills@.len() ==> (#[trigger] fills@[i]).0 < n_symbols,
    ensures
        r@ == pairing(fills@, n_symbols as nat, fills@.len() as int).1,
{
    let mut open: Vec<Option<usize>> = Vec::new();
    let mut s: usize = 0;
    while s < n_symbols
        invariant
            s <= n_symbols,
            open@ == Seq::new(s as nat, |i: int| None::<usize>),
        decreases n_symbols - s,
    {
        open.push(None);
        s = s + 1;
        proof {
            assert(open@ =~= Seq::new(s as nat, |i: int| None::<usize>));
        }
    }
    let mut trips: Vec<(usize, usize)> = Vec::new();
    let mut k: usize = 0;
    while k < fills.len()
        invariant
            k <= fills@.len(),
            forall|i: int| 0 <= i < fills@.len() ==> (#[trigger] fills@[i]).0 < n_symbols,
            (open@, trips@) == pairing(fills@, n_symbols as nat, k as int),
        decreases fills@.len() - k,
    {
        proof {
            lemma_pairing_shape(fills@, n_symbols as nat, k as int);
        }
        let (sym, side) = fills[k];
        match open[sym] {
            Some(e) => {
                proof {
                    assert(e < k);
                }
                if fills[e].1 != side {
                    open.set(sym, None);
                    trips.push((e, k));
                } else {
                    open.set(sym, Some(k));
                }
            },
            None => {
                open.set(sym, Some(k));
            },
        }
        k = k + 1;
    }
    trips
}

/// Every round trip closes a trade on the symbol it was opened on, with a
/// fill on the other side that comes after the entry.
pub proof fn round_trips_close_on_the_other_side(fills: Seq<(usize, OrderSide)>, n_symbols: nat)
    requires
        fills.len() <= usize::MAX,
        forall|i: int| 0 <= i < fills.len() ==> (#[trigger] fills[i]).0 < n_symbols,
    ensures
        forall|j: int|
            0 <= j < pairing(fills, n_symbols, fills.len() as int).1.len() ==> {
                let (e, x) = #[trigger] pairing(fills, n_symbols, fills.len() as int).1[j];
                &&& e < x < fills.len()
                &&& fills[e as int].0 == fills[x as int].0
                &&& fills[e as int].1 != fills[x as int].1
            },
{
    lemma_pairing_shape(fills, n_symbols, fills.len() as int);
}

/// No fill strictly between positions `a` and `b` is on symbol `s`.
pub open spec fn no_fill_between(fills: Seq<(usize, OrderSide)>, s: int, a: int, b: int) -> bool {
    forall|i: int| a < i < b ==> (#[trigger] fills[i]).0 != s
}

proof fn lemma_pairing_order(fills: Seq<(usize, OrderSide)>, n_symbols: nat, k: int)
    requires
        0 <= k <= fills.len(),
        fills.len() <= usize::MAX,
        forall|i: int| 0 <= i < fills.len() ==> (#[trigger] fills[i]).0 < n_symbols,
    ensures
        ({
            let (open, trips) = pairing(fills, n_symbols, k);
            &&& forall|s: int| 0 <= s < n_symbols && (#[trigger] open[s]) is Some ==> no_fill_between(fills, s, open[s]->0 as int, k)
            &&& forall|s: int, j: int| 0 <= s < n_symbols && (#[trigger] open[s]) is Some && 0 <= j < trips.len()
                ==> (#[trigger] trips[j]).0 != open[s]->0 && trips[j].1 != open[s]->0
            &&& forall|j: int| 0 <= j < trips.len() ==> no_fill_between(fills, fills[(#[trigger] trips[j]).0 as int].0 as int, trips[j].0 as int, trips[j].1 as int)
            &&& forall|j: int, m: int| 0 <= j < m < trips.len() ==> (#[trigger] trips[j]).1 < (#[trigger] trips[m]).1
            &&& forall|j: int, m: int| 0 <= j < trips.len() && 0 <= m < trips.len() && j != m ==> (#[trigger] trips[j]).0 != (#[trigger] trips[m]).0
            &&& forall|j: int, m: int| 0 <= j < trips.len() && 0 <= m < trips.len() ==> (#[trigger] trips[j]).0 != (#[trigger] trips[m]).1
        }),
    decreases k,
{
    lemma_pairing_shape(fills, n_symbols, k);
    if k > 0 {
        lemma_pairing_order(fills, n_symbols, k - 1);
        lemma_pairing_shape(fills, n_symbols, k - 1);
        let (open, trips) = pairing(fills, n_symbols, k - 1);
        let (open2, trips2) = pairing(fills, n_symbols, k);
        let (sym, side) = fills[k - 1];
        assert(fills[k - 1].0 < n_symbols);
        let closes = open[sym as int] is Some && fills[open[sym as int]->0 as int].1 != side;
        assert forall|s: int| 0 <= s < n_symbols && (#[trigger] open2[s]) is Some implies no_fill_between(fills, s, open2[s]->0 as int, k) by {
            if s != sym as int {
                assert(open2[s] == open[s]);
                assert(no_fill_between(fills, s, open[s]->0 as int, k - 1));
                assert forall|i: int| open2[s]->0 < i < k implies (#[trigger] fills[i]).0 != s by {
                    if i < k - 1 {
                        assert(fills[i].0 != s);
                    }
                }
            } else {
                assert(open2[s] == Some((k - 1) as usize));
            }
        }
        if closes {
            let e = open[sym as int]->0;
            assert(open[sym as int] is Some);
            assert(no_fill_between(fills, sym as int, e as int, k - 1));
            assert(fills[e as int].0 == sym);
            assert(trips2 == trips.push((e, (k - 1) as usize)));
            assert forall|s: int, j: int| 0 <= s < n_symbols && (#[trigger] open2[s]) is Some && 0 <= j < trips2.len()
                implies (#[trigger] trips2[j]).0 != open2[s]->0 && trips2[j].1 != open2[s]->0 by {
                assert(s != sym as int);
                assert(open2[s] == open[s]);
                assert(open[s] is Some);
                if j < trips.len() {
                    assert(trips2[j] == trips[j]);
                    assert(trips[j].0 != open[s]->0);
                } else {
                    assert(fills[open[s]->0 as int].0 == s);
                }
            }
            assert forall|j: int| 0 <= j < trips2.len() implies no_fill_between(fills, fills[(#[trigger] trips2[j]).0 as int].0 as int, trips2[j].0 as int, trips2[j].1 as int) by {
                if j < trips.len() {
                    assert(trips2[j] == trips[j]);
                }
            }
            assert forall|j: int, m: int| 0 <= j < m < trips2.len() implies (#[trigger] trips2[j]).1 < (#[trigger] trips2[m]).1 by {
                assert(trips2[j] == trips[j]);
                if m < trips.len() {
                    assert(trips2[m] == trips[m]);
                }
            }
            assert forall|j: int, m: int| 0 <= j < trips2.len() && 0 <= m < trips2.len() && j != m
                implies (#[trigger] trips2[j]).0 != (#[trigger] trips2[m]).0 by {
                if j < trips.len() && m < trips.len() {
                    assert(trips2[j] == trips[j] && trips2[m] == trips[m]);
                } else if j < trips.len() {
                    assert(trips2[j] == trips[j]);
                    assert(trips[j].0 != open[sym as int]->0);
                } else {
                    assert(trips2[m] == trips[m]);
                    assert(trips[m].0 != open[sym as int]->0);
                }
            }
            assert forall|j: int, m: int| 0 <= j < trips2.len() && 0 <= m < trips2.len()
                implies (#[trigger] trips2[j]).0 != (#[trigger] trips2[m]).1 by {
                if j < trips.len() && m < trips.len() {
                    assert(trips2[j] == trips[j] && trips2[m] == trips[m]);
                } else if j < trips.len() {
                    assert(trips2[j] == trips[j]);
                } else if m < trips.len() {
                    assert(trips2[m] == trips[m]);
                    assert(trips[m].1 != open[sym as int]->0);
                }
            }
        } else {
            assert(trips2 == trips);
            assert forall|s: int, j: int| 0 <= s < n_symbols && (#[trigger] open2[s]) is Some && 0 <= j < trips2.len()
                implies (#[trigger] trips2[j]).0 != open2[s]->0 && trips2[j].1 != open2[s]->0 by {
                if s != sym as int {
                    assert(open2[s] == open[s]);
                } else {
                    assert(open2[s] == Some((k - 1) as usize));
                }
            }
        }
    }
}

/// Each fill takes part in at most one round trip: no two round trips share
/// an entry, exits come in strictly increasing order, and no fill is both an
/// entry and an exit. A round trip closes the trade its symbol had open:
/// no other fill on that symbol lies between its entry and its exit.
pub proof fn round_trips_use_each_fill_once(fills: Seq<(usize, OrderSide)>, n_symbols: nat)
    requires
        fills.len() <= usize::MAX,
        forall|i: int| 0 <= i < fills.len() ==> (#[trigger] fills[i]).0 < n_symbols,
    ensures
        ({
            let trips = pairing(fills, n_symbols, fills.len() as int).1;
            &&& forall|j: int, m: int| 0 <= j < m < trips.len() ==> (#[trigger] trips[j]).1 < (#[trigger] trips[m]).1
            &&& forall|j: int, m: int| 0 <= j < trips.len() && 0 <= m < trips.len() && j != m
                ==> (#[trigger] trips[j]).0 != (#[trigger] trips[m]).0
            &&& forall|j: int, m: int| 0 <= j < trips.len() && 0 <= m < trips.len()
                ==> (#[trigger] trips[j]).0 != (#[trigger] trips[m]).1
            &&& forall|j: int, i: int| 0 <= j < trips.len() && trips[j].0 < i < trips[j].1
                ==> (#[trigger] fills[i]).0 != fills[(#[trigger] trips[j]).0 as int].0
        }),
{
    lemma_pairing_order(fills, n_symbols, fills.len() as int);
    let trips = pairing(fills, n_symbols, fills.len() as int).1;
    assert forall|j: int, i: int| 0 <= j < trips.len() && trips[j].0 < i < trips[j].1
        implies (#[trigger] fills[i]).0 != fills[(#[trigger] trips[j]).0 as int].0 by {
        assert(no_fill_between(fills, fills[trips[j].0 as int].0 as int, trips[j].0 as int, trips[j].1 as int));
    }
}

/// Fill `i` is the exit of one of the round trips `trips`.
pub open spec fn is_exit(trips: Seq<(usize, usize)>, i: int) -> bool {
    exists|j: int| 0 <= j < trips.len() && (#[trigger] trips[j]).1 == i
}

proof fn lemma_pairing_grows(fills: Seq<(usize, OrderSide)>, n_symbols: nat, k: int, k2: int)
    requires
        0 <= k <= k2,
    ensures
        pairing(fills, n_symbols, k).1.len() <= pairing(fills, n_symbols, k2).1.len(),
        forall|j: int| 0 <= j < pairing(fills, n_symbols, k).1.len()
            ==> #[trigger] pairing(fills, n_symbols, k2).1[j] == pairing(fills, n_symbols, k).1[j],
    decreases k2 - k,
{
    if k2 > k {
        lemma_pairing_grows(fills, n_symbols, k, k2 - 1);
        let t = pairing(fills, n_symbols, k2 - 1).1;
        let t2 = pairing(fills, n_symbols, k2).1;
        assert forall|j: int| 0 <= j < t.len() implies #[trigger] t2[j] == t[j] by {}
    }
}

/// The latest fill on its symbol, when it closed nothing, is that symbol's
/// open trade.
proof fn lemma_pairing_latest_is_open(fills: Seq<(usize, OrderSide)>, n_symbols: nat, k: int)
    requires
        0 <= k <= fills.len(),
        fills.len() <= usize::MAX,
        forall|i: int| 0 <= i < fills.len() ==> (#[trigger] fills[i]).0 < n_symbols,
    ensures
        forall|i: int| 0 <= i < k && no_fill_between(fills, fills[i].0 as int, i, k)
            && !is_exit(pairing(fills, n_symbols, k).1, i)
            ==> pairing(fills, n_symbols, k).0[(#[trigger] fills[i]).0 as int] == Some(i as usize),
    decreases k,
{
    if k > 0 {
        lemma_pairing_latest_is_open(fills, n_symbols, k - 1);
        lemma_pairing_shape(fills, n_symbols, k - 1);
        let (open, trips) = pairing(fills, n_symbols, k - 1);
        let (open2, trips2) = pairing(fills, n_symbols, k);
        let (sym, side) = fills[k - 1];
        assert(fills[k - 1].0 < n_symbols);
        assert forall|i: int| 0 <= i < k && no_fill_between(fills, fills[i].0 as int, i, k)
            && !is_exit(trips2, i) implies open2[(#[trigger] fills[i]).0 as int] == Some(i as usize) by {
            if i == k - 1 {
                if open[sym as int] is Some && fills[open[sym as int]->0 as int].1 != side {
                    assert(trips2[trips.len() as int].1 == i);
                }
            } else {
                assert(fills[k - 1].0 != fills[i].0);
                assert(no_fill_between(fills, fills[i].0 as int, i, k - 1));
                assert(!is_exit(trips, i)) by {
                    if is_exit(trips, i) {
                        let j = choose|j: int| 0 <= j < trips.len() && (#[trigger] trips[j]).1 == i;
                        assert(trips2[j] == trips[j]);
                    }
                }
            }
        }
    }
}

/// Every trade that can close does: when a fill on a symbol follows, with no
/// fill on that symbol in between, a fill on the other side that did not
/// itself close a trade, the two form a round trip.
pub proof fn opposite_fills_close_the_open_trade(fills: Seq<(usize, OrderSide)>, n_symbols: nat, e: int, x: int)
    requires
        fills.len() <= usize::MAX,
        forall|i: int| 0 <= i < fills.len() ==> (#[trigger] fills[i]).0 < n_symbols,
        0 <= e < x < fills.len(),
        fills[e].0 == fills[x].0,
        fills[e].1 != fills[x].1,
        no_fill_between(fills, fills[e].0 as int, e, x),
        !is_exit(pairing(fills, n_symbols, fills.len() as int).1, e),
    ensures
        pairing(fills, n_symbols, fills.len() as int).1.contains((e as usize, x as usize)),
{
    let n = fills.len() as int;
    lemma_pairing_grows(fills, n_symbols, x, n);
    lemma_pairing_grows(fills, n_symbols, x + 1, n);
    let tx = pairing(fills, n_symbols, x).1;
    let tn = pairing(fills, n_symbols, n).1;
    assert(!is_exit(tx, e)) by {
        if is_exit(tx, e) {
            let j = choose|j: int| 0 <= j < tx.len() && (#[trigger] tx[j]).1 == e;
            assert(tn[j] == tx[j]);
        }
    }
    lemma_pairing_latest_is_open(fills, n_symbols, x);
    assert(pairing(fills, n_symbols, x).0[fills[e].0 as int] == Some(e as usize));
    let t1 = pairing(fills, n_symbols, x + 1).1;
    assert(t1 == tx.push((e as usize, x as usize)));
    assert(tn[tx.len() as int] == t1[tx.len() as int]);
}

} // verus!
