//! The argmax of a vector of exact fractions, with ties kept.
//!
//! Ties are decided by exact equality of the represented values (never by a
//! tolerance): the result lists, in increasing order, every index whose
//! value equals the maximum.

use vstd::prelude::*;
use crate::fx::Frac;
use crate::fx::FX_ONE;
use crate::fx::frac_le;
use crate::fx::frac_lt;
use crate::fx::frac_eq;
use crate::fx::frac_lt_exec;
use crate::fx::frac_eq_exec;
use crate::fx::lemma_frac_le_trans;
use crate::fx::lemma_frac_lt_le;

verus! {

/// Every entry has a positive denominator.
pub open spec fn all_wf(s: Seq<Frac>) -> bool {
    forall|i: int| 0 <= i < s.len() ==> (#[trigger] s[i]).wf()
}

/// A sequence of fixed-point scalars read as exact fractions.
pub open spec fn fx_fracs(s: Seq<i64>) -> Seq<Frac> {
    Seq::new(s.len(), |i: int| Frac::from_fx_spec(s[i]))
}

/// Wraps each fixed-point scalar of a vector as an exact fraction.
pub fn fx_to_fracs(v: &Vec<i64>) -> (r: Vec<Frac>)
    ensures
        r@ == fx_fracs(v@),
        all_wf(r@),
{
    let mut r: Vec<Frac> = Vec::new();
    let mut i: usize = 0;
    while i < v.len()
        invariant
            i <= v@.len(),
            r@ =~= fx_fracs(v@).take(i as int),
        decreases v@.len() - i,
    {
        r.push(Frac { num: v[i], den: FX_ONE });
        i = i + 1;
    }
    proof {
        assert(r@ =~= fx_fracs(v@));
        assert forall|i: int| 0 <= i < r@.len() implies (#[trigger] r@[i]).wf() by {
            assert(r@[i] == fx_fracs(v@)[i]);
        }
    }
    r
}

/// Whether a vector of indices holds the given one.
pub fn contains_usize(v: &Vec<usize>, x: usize) -> (r: bool)
    ensures
        r == v@.contains(x),
{
    let mut i: usize = 0;
    while i < v.len()
        invariant
            i <= v@.len(),
            forall|k: int| 0 <= k < i ==> #[trigger] v@[k] != x,
        decreases v@.len() - i,
    {
        if v[i] == x {
            return true;
        }
        i = i + 1;
    }
    false
}

/// `i` is a position of a maximal value of `s`.
pub open spec fn is_max_pos(s: Seq<Frac>, i: int) -> bool {
    &&& 0 <= i < s.len()
    &&& forall|j: int| 0 <= j < s.len() ==> frac_le(#[trigger] s[j], s[i])
}

/// What `indices_max` returns: exactly the positions of maximal values,
/// in strictly increasing order.
pub open spec fn max_indices_post(s: Seq<Frac>, r: Seq<usize>) -> bool {
    &&& forall|k: int| 0 <= k < r.len() ==> is_max_pos(s, #[trigger] r[k] as int)
    &&& forall|i: int| 0 <= i < s.len() && is_max_pos(s, i) ==> r.contains(i as usize)
    &&& forall|k1: int, k2: int| 0 <= k1 < k2 < r.len() ==> #[trigger] r[k1] < #[trigger] r[k2]
    &&& s.len() > 0 ==> r.len() > 0
}

/// Finds the list of positions holding the greatest value, all of them,
/// in increasing order. Empty input gives an empty list.
pub fn indices_max(vals: &Vec<Frac>) -> (r: Vec<usize>)
    requires
        all_wf(vals@),
    ensures
        max_indices_post(vals@, r@),
{
    let n: usize = vals.len();
    if n == 0 {
        let r: Vec<usize> = Vec::new();
        return r;
    }
    let mut best: Frac = vals[0];
    let mut occs: Vec<usize> = Vec::new();
    occs.push(0);
    proof {
        assert(occs@[0] == 0usize);
        assert(occs@.contains(0usize));
    }
    let mut i: usize = 1;
    while i < n
        invariant
            n == vals@.len(),
            1 <= i <= n,
            all_wf(vals@),
            best.wf(),
            occs@.len() > 0,
            forall|k: int| 0 <= k < occs@.len() ==> (#[trigger] occs@[k] as int) < i,
            forall|k: int| 0 <= k < occs@.len() ==> frac_eq(vals@[#[trigger] occs@[k] as int], best),
            forall|j: int| 0 <= j < i ==> frac_le(#[trigger] vals@[j], best),
            forall|j: int| 0 <= j < i && frac_eq(#[trigger] vals@[j], best) ==> occs@.contains(
                j as usize,
            ),
            forall|k1: int, k2: int|
                0 <= k1 < k2 < occs@.len() ==> #[trigger] occs@[k1] < #[trigger] occs@[k2],
        decreases n - i,
    {
        if frac_lt_exec(&best, &vals[i]) {
            proof {
                let old_best = best;
                let v = vals@[i as int];
                lemma_frac_lt_le(old_best, v);
                assert forall|j: int| 0 <= j < i + 1 implies frac_le(#[trigger] vals@[j], v) by {
                    if j < i {
                        lemma_frac_le_trans(vals@[j], old_best, v);
                    }
                }
                assert forall|j: int| 0 <= j < i && frac_eq(#[trigger] vals@[j], v) implies false by {
                    lemma_frac_lt_le(vals@[j], v);
                    lemma_frac_le_trans(v, vals@[j], old_best);
                    lemma_frac_lt_le(old_best, v);
                }
            }
            let mut fresh: Vec<usize> = Vec::new();
            fresh.push(i);
            occs = fresh;
            best = vals[i];
            proof {
                assert(occs@[0] == i);
                assert(occs@.contains(i));
            }
        } else if frac_eq_exec(&vals[i], &best) {
            let ghost old_occs = occs@;
            occs.push(i);
            proof {
                assert forall|j: int|
                    0 <= j < i + 1 && frac_eq(#[trigger] vals@[j], best) implies occs@.contains(
                    j as usize,
                ) by {
                    if j < i {
                        let q = choose|q: int|
                            0 <= q < old_occs.len() && old_occs[q] == j as usize;
                        assert(occs@[q] == j as usize);
                    } else {
                        assert(occs@[occs@.len() - 1] == i);
                    }
                }
            }
        } else {
            proof {
                lemma_frac_lt_le(best, vals@[i as int]);
                lemma_frac_lt_le(vals@[i as int], best);
            }
        }
        i = i + 1;
    }
    proof {
        let s = vals@;
        let anchor = occs@[0] as int;
        assert forall|k: int| 0 <= k < occs@.len() implies is_max_pos(s, #[trigger] occs@[k] as int) by {
            let m = occs@[k] as int;
            assert forall|j: int| 0 <= j < s.len() implies frac_le(#[trigger] s[j], s[m]) by {
                lemma_frac_lt_le(s[m], best);
                lemma_frac_le_trans(s[j], best, s[m]);
            }
        }
        assert forall|idx: int| 0 <= idx < s.len() && is_max_pos(s, idx) implies occs@.contains(
            idx as usize,
        ) by {
            lemma_frac_lt_le(s[anchor], best);
            lemma_frac_le_trans(best, s[anchor], s[idx]);
            lemma_frac_lt_le(s[idx], best);
        }
    }
    occs
}

/// A strictly increasing list of indices below `n` that contains every
/// index below `n` is the identity list.
proof fn lemma_strict_sorted_full(r: Seq<usize>, n: int)
    requires
        0 <= n <= usize::MAX,
        forall|k1: int, k2: int| 0 <= k1 < k2 < r.len() ==> #[trigger] r[k1] < #[trigger] r[k2],
        forall|k: int| 0 <= k < r.len() ==> (#[trigger] r[k] as int) < n,
        forall|i: int| 0 <= i < n ==> #[trigger] r.contains(i as usize),
    ensures
        r.len() == n,
        forall|k: int| 0 <= k < n ==> (#[trigger] r[k] as int) == k,
    decreases n,
{
    if n == 0 {
        if r.len() > 0 {
            assert((r[0] as int) < 0);
        }
    } else {
        assert(r.contains((n - 1) as usize));
        let p = choose|p: int| 0 <= p < r.len() && r[p] == (n - 1) as usize;
        assert(p == r.len() - 1) by {
            if p < r.len() - 1 {
                assert(r[p] < r[p + 1]);
                assert((r[p + 1] as int) < n);
                assert((r[p] as int) == n - 1);
            }
        }
        let r2 = r.drop_last();
        assert forall|i: int| 0 <= i < n - 1 implies #[trigger] r2.contains(i as usize) by {
            assert(r.contains(i as usize));
            let q = choose|q: int| 0 <= q < r.len() && r[q] == i as usize;
            assert(q < r.len() - 1) by {
                if q == r.len() - 1 {
                    assert(r[q] == (n - 1) as usize);
                    assert(i == n - 1);
                }
            }
            assert(r2[q] == i as usize);
        }
        lemma_strict_sorted_full(r2, n - 1);
        assert forall|k: int| 0 <= k < n implies (#[trigger] r[k] as int) == k by {
            if k < n - 1 {
                assert(r2[k] == r[k]);
                assert((r2[k] as int) == k);
            } else {
                assert(r[n - 1] == (n - 1) as usize);
            }
        }
    }
}

/// Law: on a vector whose values are all equal, the argmax returns every
/// index, in order: the result is `0, 1, ..., len - 1`.
pub proof fn lemma_indices_max_all_equal(s: Seq<Frac>, r: Seq<usize>)
    requires
        all_wf(s),
        forall|i: int, j: int| 0 <= i < s.len() && 0 <= j < s.len() ==> frac_eq(
            #[trigger] s[i],
            #[trigger] s[j],
        ),
        max_indices_post(s, r),
        s.len() <= usize::MAX,
    ensures
        r.len() == s.len(),
        forall|k: int| 0 <= k < r.len() ==> (#[trigger] r[k] as int) == k,
{
    assert forall|i: int| 0 <= i < s.len() implies is_max_pos(s, i) by {
        assert forall|j: int| 0 <= j < s.len() implies frac_le(#[trigger] s[j], s[i]) by {
            lemma_frac_lt_le(s[j], s[i]);
        }
    }
    assert forall|i: int| 0 <= i < s.len() implies #[trigger] r.contains(i as usize) by {
        assert(is_max_pos(s, i));
    }
    lemma_strict_sorted_full(r, s.len() as int);
}

/// Law: on a vector whose values strictly increase, the argmax returns
/// exactly the last index.
pub proof fn lemma_indices_max_strictly_increasing(s: Seq<Frac>, r: Seq<usize>)
    requires
        all_wf(s),
        s.len() > 0,
        forall|i: int, j: int| 0 <= i < j < s.len() ==> frac_lt(#[trigger] s[i], #[trigger] s[j]),
        max_indices_post(s, r),
    ensures
        r.len() == 1,
        (r[0] as int) == s.len() - 1,
{
    let last = s.len() - 1;
    assert forall|k: int| 0 <= k < r.len() implies (#[trigger] r[k] as int) == last by {
        let m = r[k] as int;
        if m < last {
            assert(frac_lt(s[m], s[last]));
            assert(frac_le(s[last], s[m]));
            lemma_frac_lt_le(s[m], s[last]);
        }
    }
    if r.len() >= 2 {
        assert(r[0] < r[1]);
    }
}

} // verus!
