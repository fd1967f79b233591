//! Sorting and order statistics on integer columns.

use vstd::prelude::*;
use vstd::relations::{sorted_by, total_ordering};

verus! {

broadcast use vstd::seq_lib::group_to_multiset_ensures;

pub open spec fn le_u64() -> spec_fn(u64, u64) -> bool {
    |a: u64, b: u64| a <= b
}

pub(crate) proof fn lemma_le_total()
    ensures
        total_ordering(le_u64()),
{
}

/// `s` in ascending order.
pub open spec fn sorted_u64(s: Seq<u64>) -> Seq<u64> {
    s.sort_by(le_u64())
}

/// Sort a column of values ascending (insertion sort).
pub fn sort_u64(v: &Vec<u64>) -> (r: Vec<u64>)
    ensures
        r@ == sorted_u64(v@),
        r@.len() == v@.len(),
        r@.to_multiset() == v@.to_multiset(),
{
    let mut r: Vec<u64> = Vec::new();
    let mut i: usize = 0;
    while i < v.len()
        invariant
            i <= v.len(),
            sorted_by(r@, le_u64()),
            r@.to_multiset() == v@.subrange(0, i as int).to_multiset(),
        decreases v.len() - i,
    {
        let x = v[i];
        let mut p: usize = 0;
        while p < r.len() && r[p] <= x
            invariant
                p <= r.len(),
                forall|k: int| 0 <= k < p ==> r@[k] <= x,
            decreases r.len() - p,
        {
            p += 1;
        }
        let ghost r0 = r@;
        r.insert(p, x);
        proof {
            assert(r@ == r0.insert(p as int, x));
            assert(sorted_by(r@, le_u64())) by {
                assert forall|a: int, b: int| 0 <= a < b < r@.len() implies (le_u64())(r@[a], r@[b]) by {
                    if b < p {
                        assert(r@[a] == r0[a] && r@[b] == r0[b]);
                    } else if b == p {
                        assert(r@[a] == r0[a]);
                    } else if a == p {
                        assert(r@[b] == r0[b - 1]);
                        if p < r0.len() {
                            assert(!(r0[p as int] <= x));
                            if b - 1 > p {
                                assert((le_u64())(r0[p as int], r0[b - 1]));
                            }
                        }
                    } else if a < p {
                        assert(r@[a] == r0[a] && r@[b] == r0[b - 1]);
                    } else {
                        assert(r@[a] == r0[a - 1] && r@[b] == r0[b - 1]);
                    }
                }
            }
            vstd::seq_lib::to_multiset_insert(r0, p as int, x);
            assert(v@.subrange(0, i + 1) =~= v@.subrange(0, i as int).push(x));
        }
        i += 1;
    }
    proof {
        assert(v@.subrange(0, i as int) =~= v@);
        vstd::seq_lib::to_multiset_len(r@);
        vstd::seq_lib::to_multiset_len(v@);
        v@.lemma_sort_by_ensures(le_u64());
        lemma_le_total();
        vstd::seq_lib::lemma_sorted_unique(r@, v@.sort_by(le_u64()), le_u64());
    }
    r
}

} // verus!
