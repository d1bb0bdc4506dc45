//! Stable ordering of positions by a two-part integer key.
//!
//! The key of an item is a pair `(rank, level)`, compared rank first; items
//! with equal keys keep their input order.

use vstd::prelude::*;

verus! {

/// Strict lexicographic order on keys.
pub open spec fn key_lt(a: (u64, i64), b: (u64, i64)) -> bool {
    a.0 < b.0 || (a.0 == b.0 && a.1 < b.1)
}

/// Position `i` precedes position `j` in the stable order of `keys`.
pub open spec fn stable_before(keys: Seq<(u64, i64)>, i: int, j: int) -> bool {
    key_lt(keys[i], keys[j]) || (keys[i] == keys[j] && i < j)
}

/// `perm` lists positions of `keys` sorted by key, ties in input order.
pub open spec fn is_stable_order(keys: Seq<(u64, i64)>, perm: Seq<int>) -> bool {
    &&& perm.len() == keys.len()
    &&& forall|x: int| 0 <= x < perm.len() ==> 0 <= #[trigger] perm[x] < keys.len()
    &&& forall|x: int, y: int| 0 <= x < y < perm.len() ==> stable_before(keys, perm[x], perm[y])
}

/// Positions of `keys` in stable key order (insertion sort).
pub fn stable_order(keys: &Vec<(u64, i64)>) -> (perm: Vec<usize>)
    ensures
        is_stable_order(keys@, perm@.map_values(|x: usize| x as int)),
{
    let ghost ks = keys@;
    let mut perm: Vec<usize> = Vec::new();
    let mut i: usize = 0;
    while i < keys.len()
        invariant
            i <= ks.len(),
            ks == keys@,
            perm@.len() == i,
            forall|x: int| 0 <= x < perm@.len() ==> #[trigger] perm@[x] < i,
            forall|x: int, y: int| 0 <= x < y < perm@.len() ==> stable_before(ks, perm@[x] as int, perm@[y] as int),
        decreases ks.len() - i,
    {
        let ki = keys[i];
        let mut pos: usize = 0;
        while pos < perm.len() && !(ki.0 < keys[perm[pos]].0 || (ki.0 == keys[perm[pos]].0 && ki.1 < keys[perm[pos]].1))
            invariant
                i < ks.len(),
                ks == keys@,
                ki == ks[i as int],
                pos <= perm@.len(),
                perm@.len() == i,
                forall|x: int| 0 <= x < perm@.len() ==> #[trigger] perm@[x] < i,
                forall|x: int| 0 <= x < pos ==> !key_lt(ki, ks[#[trigger] perm@[x] as int]),
            decreases perm@.len() - pos,
        {
            pos = pos + 1;
        }
        let ghost old_perm = perm@;
        perm.insert(pos, i);
        proof {
            assert forall|x: int| 0 <= x < perm@.len() implies #[trigger] perm@[x] < i + 1 by {
                if x < pos {
                    assert(perm@[x] == old_perm[x]);
                } else if x > pos {
                    assert(perm@[x] == old_perm[x - 1]);
                }
            }
            assert forall|x: int, y: int| 0 <= x < y < perm@.len() implies stable_before(ks, perm@[x] as int, perm@[y] as int) by {
                if y < pos {
                    assert(perm@[x] == old_perm[x] && perm@[y] == old_perm[y]);
                } else if x > pos {
                    assert(perm@[x] == old_perm[x - 1] && perm@[y] == old_perm[y - 1]);
                } else if x < pos && y > pos {
                    assert(perm@[x] == old_perm[x] && perm@[y] == old_perm[y - 1]);
                } else if x == pos {
                    assert(perm@[y] == old_perm[y - 1]);
                    assert(key_lt(ki, ks[old_perm[pos as int] as int]));
                    if y - 1 > pos {
                        assert(stable_before(ks, old_perm[pos as int] as int, old_perm[y - 1] as int));
                    }
                } else {
                    assert(perm@[x] == old_perm[x]);
                    assert(!key_lt(ki, ks[old_perm[x] as int]));
                }
            }
        }
        i = i + 1;
    }
    proof {
        let p = perm@.map_values(|x: usize| x as int);
        assert forall|x: int, y: int| 0 <= x < y < p.len() implies stable_before(ks, p[x], p[y]) by {
            assert(p[x] == perm@[x] as int && p[y] == perm@[y] as int);
        }
        assert forall|x: int| 0 <= x < p.len() implies 0 <= #[trigger] p[x] < ks.len() by {
            assert(p[x] == perm@[x] as int);
        }
    }
    perm
}

/// A stable order lists every input position exactly once.
pub proof fn stable_order_is_permutation(keys: Seq<(u64, i64)>, perm: Seq<int>)
    requires
        is_stable_order(keys, perm),
    ensures
        forall|x: int, y: int| 0 <= x < y < perm.len() ==> perm[x] != perm[y],
        forall|i: int| 0 <= i < keys.len() ==> perm.contains(i),
{
    assert forall|x: int, y: int| 0 <= x < y < perm.len() implies perm[x] != perm[y] by {
        assert(stable_before(keys, perm[x], perm[y]));
    }
    let s = perm.to_set();
    perm.unique_seq_to_set();
    let full = Set::new(|k: int| 0 <= k < keys.len());
    assert(s.subset_of(full)) by {
        assert forall|k: int| s.contains(k) implies full.contains(k) by {
            let x = choose|x: int| 0 <= x < perm.len() && perm[x] == k;
            assert(0 <= perm[x] < keys.len());
        }
    }
    vstd::set_lib::lemma_int_range(0, keys.len() as int);
    assert(full =~= vstd::set_lib::set_int_range(0, keys.len() as int));
    vstd::set_lib::lemma_subset_equality(s, full);
    assert forall|i: int| 0 <= i < keys.len() implies perm.contains(i) by {
        assert(s.contains(i));
    }
}

} // verus!
