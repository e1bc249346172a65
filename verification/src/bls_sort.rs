//! Sorting BLS entries into menu order.
use vstd::prelude::*;
use vstd::multiset::Multiset;

use crate::bls_parse::{bls_order, bls_order_antisymmetric, bls_sort_order, BlsEntry, BlsEntryView};
use crate::version::Order3;

verus! {

// ---------------------------------------------------------------------------
// Sorting
// ---------------------------------------------------------------------------

pub open spec fn entry_views(s: Seq<BlsEntry>) -> Seq<BlsEntryView> {
    s.map_values(|e: BlsEntry| e@)
}

/// Every entry is in BLS menu order with its successor.
pub open spec fn menu_sorted(s: Seq<BlsEntryView>) -> bool {
    adjacent_sorted(s, |a: BlsEntryView, b: BlsEntryView| bls_order(a, b))
}

/// Every element is ordered with its successor: `f(s[i], s[i + 1])` is not
/// `Greater`.
pub open spec fn adjacent_sorted<T>(s: Seq<T>, f: spec_fn(T, T) -> Order3) -> bool {
    forall|i: int|
        #![trigger f(s[i], s[i + 1])]
        0 <= i < s.len() - 1 ==> f(s[i], s[i + 1]) != Order3::Greater
}

pub(crate) proof fn lemma_insert_sorted<T>(ov: Seq<T>, j: int, x: T, f: spec_fn(T, T) -> Order3)
    requires
        adjacent_sorted(ov, f),
        0 <= j <= ov.len(),
        j > 0 ==> f(ov[j - 1], x) != Order3::Greater,
        j < ov.len() ==> f(x, ov[j]) == Order3::Less,
    ensures
        adjacent_sorted(ov.insert(j, x), f),
{
    let nv = ov.insert(j, x);
    assert forall|m: int|
        #![trigger f(nv[m], nv[m + 1])]
        0 <= m < nv.len() - 1 implies f(nv[m], nv[m + 1]) != Order3::Greater by {
        if m + 1 < j {
            assert(nv[m] == ov[m] && nv[m + 1] == ov[m + 1]);
            assert(f(ov[m], ov[m + 1]) != Order3::Greater);
        } else if m + 1 == j {
            assert(nv[m] == ov[m] && nv[m + 1] == x);
        } else if m == j {
            assert(nv[m] == x && nv[m + 1] == ov[m]);
        } else {
            let k = m - 1;
            assert(nv[m] == ov[k] && nv[m + 1] == ov[k + 1]);
            assert(f(ov[k], ov[k + 1]) != Order3::Greater);
        }
    }
}

/// `out` is `input` rearranged by `idx` (`out[k]` is `input[idx[k]]`,
/// each input position used once), and entries that the menu order ranks
/// equal keep their input order.
pub open spec fn stable_rearrangement(out: Seq<BlsEntryView>, input: Seq<BlsEntryView>, idx: Seq<int>) -> bool {
    &&& idx.len() == out.len()
    &&& out.len() == input.len()
    &&& forall|k: int| 0 <= k < idx.len() ==> 0 <= #[trigger] idx[k] < input.len() && out[k] == input[idx[k]]
    &&& forall|k1: int, k2: int| 0 <= k1 < k2 < idx.len() ==> #[trigger] idx[k1] != #[trigger] idx[k2]
    &&& forall|k1: int, k2: int|
        0 <= k1 < k2 < idx.len() && bls_order(#[trigger] out[k1], #[trigger] out[k2]) == Order3::Equal
            ==> idx[k1] < idx[k2]
}

/// Sort entries into BLS menu order (a stable insertion sort by
/// `bls_sort_compare`).
#[verifier::rlimit(60)]
pub fn sort_entries(entries: Vec<BlsEntry>) -> (r: Vec<BlsEntry>)
    ensures
        entry_views(r@).to_multiset() == entry_views(entries@).to_multiset(),
        menu_sorted(entry_views(r@)),
        exists|idx: Seq<int>| stable_rearrangement(entry_views(r@), entry_views(entries@), idx),
{
    let ghost all = entry_views(entries@);
    let ghost n = all.len();
    let mut rest = entries;
    let mut out: Vec<BlsEntry> = Vec::new();
    let ghost mut i: int = 0;
    let ghost mut idx: Seq<int> = Seq::empty();
    assert(entry_views(out@) =~= all.subrange(0, 0));
    assert(entry_views(rest@) =~= all.subrange(0, n as int));
    while rest.len() > 0
        invariant
            0 <= i <= n,
            n == all.len(),
            entry_views(rest@) == all.subrange(i, n as int),
            entry_views(out@).to_multiset() == all.subrange(0, i).to_multiset(),
            menu_sorted(entry_views(out@)),
            idx.len() == out@.len() == i,
            forall|k: int| 0 <= k < idx.len() ==> 0 <= #[trigger] idx[k] < i && entry_views(out@)[k]
                == all[idx[k]],
            forall|k1: int, k2: int| 0 <= k1 < k2 < idx.len() ==> #[trigger] idx[k1] != #[trigger] idx[k2],
            forall|k1: int, k2: int|
                0 <= k1 < k2 < idx.len() && bls_order(
                    #[trigger] entry_views(out@)[k1],
                    #[trigger] entry_views(out@)[k2],
                ) == Order3::Equal ==> idx[k1] < idx[k2],
        decreases rest@.len(),
    {
        let ghost rv = entry_views(rest@);
        let ghost old_rest = rest@;
        let x = rest.remove(0);
        assert(rest@ == old_rest.remove(0));
        assert(x@ == rv[0]);
        assert(rv == all.subrange(i, n as int));
        assert(rv.len() > 0);
        assert(all.subrange(i, n as int)[0] == all[i]);
        assert(rv[0] == all[i]);
        assert(x@ == all[i]);
        assert forall|k: int| 0 <= k < rest@.len() implies entry_views(rest@)[k] == all[i + 1 + k] by {
            assert(rest@[k] == old_rest[k + 1]);
            assert(rv[k + 1] == all.subrange(i, n as int)[k + 1]);
            assert(rv[k + 1] == all[i + 1 + k]);
        }
        assert(entry_views(rest@) =~= all.subrange(i + 1, n as int));
        let mut j = out.len();
        while j > 0 && bls_sort_order(&out[j - 1], &x) == Order3::Greater
            invariant
                j <= out@.len(),
                forall|k: int| j <= k < out@.len() ==> bls_order(#[trigger] out@[k]@, x@)
                    == Order3::Greater,
            decreases j,
        {
            j -= 1;
        }
        let ghost ov = entry_views(out@);
        proof {
            if j < out@.len() {
                bls_order_antisymmetric(x@, out@[j as int]@);
                assert(bls_order(x@, ov[j as int]) == Order3::Less);
            }
            if j > 0 {
                assert(bls_order(ov[j - 1], x@) != Order3::Greater);
            }
        }
        out.insert(j, x);
        proof {
            let nv = entry_views(out@);
            assert(nv =~= ov.insert(j as int, x@));
            let nidx = idx.insert(j as int, i);
            assert forall|k: int| 0 <= k < nidx.len() implies 0 <= #[trigger] nidx[k] < i + 1 && nv[k]
                == all[nidx[k]] by {
                if k < j {
                    assert(nidx[k] == idx[k] && nv[k] == ov[k]);
                } else if k > j {
                    assert(nidx[k] == idx[k - 1] && nv[k] == ov[k - 1]);
                }
            }
            assert forall|k1: int, k2: int| 0 <= k1 < k2 < nidx.len() implies #[trigger] nidx[k1]
                != #[trigger] nidx[k2] by {
                if k1 < j && k2 < j {
                    assert(nidx[k1] == idx[k1] && nidx[k2] == idx[k2]);
                } else if k1 < j && k2 == j {
                    assert(nidx[k1] == idx[k1]);
                } else if k1 < j {
                    assert(nidx[k1] == idx[k1] && nidx[k2] == idx[k2 - 1]);
                } else if k1 == j {
                    assert(nidx[k2] == idx[k2 - 1]);
                } else {
                    assert(nidx[k1] == idx[k1 - 1] && nidx[k2] == idx[k2 - 1]);
                }
            }
            assert forall|k1: int, k2: int|
                0 <= k1 < k2 < nidx.len() && bls_order(#[trigger] nv[k1], #[trigger] nv[k2])
                    == Order3::Equal implies nidx[k1] < nidx[k2] by {
                if k1 < j && k2 < j {
                    assert(nidx[k1] == idx[k1] && nidx[k2] == idx[k2]);
                    assert(nv[k1] == ov[k1] && nv[k2] == ov[k2]);
                } else if k1 < j && k2 == j {
                    assert(nidx[k1] == idx[k1]);
                } else if k1 < j {
                    assert(nidx[k1] == idx[k1] && nidx[k2] == idx[k2 - 1]);
                    assert(nv[k1] == ov[k1] && nv[k2] == ov[k2 - 1]);
                } else if k1 == j {
                    assert(nv[k1] == x@ && nv[k2] == ov[k2 - 1]);
                    assert(bls_order(out@[k2]@, x@) == Order3::Greater);
                    bls_order_antisymmetric(x@, ov[k2 - 1]);
                } else {
                    assert(nidx[k1] == idx[k1 - 1] && nidx[k2] == idx[k2 - 1]);
                    assert(nv[k1] == ov[k1 - 1] && nv[k2] == ov[k2 - 1]);
                }
            }
            idx = nidx;
            vstd::seq_lib::to_multiset_insert(ov, j as int, x@);
            assert(all.subrange(0, i + 1) =~= all.subrange(0, i).push(all[i]));
            vstd::seq_lib::to_multiset_build(all.subrange(0, i), all[i]);
            lemma_insert_sorted(ov, j as int, x@, |a: BlsEntryView, b: BlsEntryView| bls_order(a, b));
            i = i + 1;
        }
    }
    assert(all.subrange(0, n as int) == all);
    assert(stable_rearrangement(entry_views(out@), all, idx));
    out
}

} // verus!
