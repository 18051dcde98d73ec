//! Ordering windows by how recently they were focused: a stable sort on a
//! numeric rank that each compositor derives from its own focus record.

use vstd::prelude::*;

verus! {

/// `p` shows that `out` is `inp` stably sorted by `rank`: `out[i]` is
/// `inp[p[i]]`, no item of `inp` is used twice, ranks never decrease along
/// `out`, and items of equal rank keep their order from `inp`.
pub open spec fn sorting_witness<T>(
    out: Seq<T>,
    inp: Seq<T>,
    rank: spec_fn(T) -> int,
    p: Seq<int>,
) -> bool {
    &&& out.len() == inp.len()
    &&& p.len() == out.len()
    &&& forall|i: int| 0 <= i < out.len() ==> 0 <= #[trigger] p[i] < inp.len()
    &&& forall|i: int| 0 <= i < out.len() ==> #[trigger] out[i] == inp[p[i]]
    &&& forall|i: int, j: int| 0 <= i < j < out.len() ==> #[trigger] p[i] != #[trigger] p[j]
    &&& forall|i: int, j: int|
        0 <= i < j < out.len() ==> rank(#[trigger] out[i]) <= rank(#[trigger] out[j])
    &&& forall|i: int, j: int|
        0 <= i < j < out.len() && rank(#[trigger] out[i]) == rank(#[trigger] out[j]) ==> p[i]
            < p[j]
}

/// `out` is `inp` sorted by `rank`, lowest first, with items of equal rank in
/// the order they have in `inp`: what a stable sort by that key gives back.
pub open spec fn stably_sorted_by<T>(out: Seq<T>, inp: Seq<T>, rank: spec_fn(T) -> int) -> bool {
    exists|p: Seq<int>| sorting_witness(out, inp, rank, p)
}

/// Sorts `items` stably by rank, lowest first; `ranks[i]` is the rank of
/// `items[i]`.
pub(crate) fn sort_by_rank<T>(
    items: Vec<T>,
    ranks: Vec<i128>,
    Ghost(rank): Ghost<spec_fn(T) -> int>,
) -> (res: Vec<T>)
    requires
        items.len() == ranks.len(),
        forall|i: int| 0 <= i < items.len() ==> ranks@[i] as int == rank(#[trigger] items@[i]),
    ensures
        stably_sorted_by(res@, items@, rank),
{
    let ghost orig = items@;
    let ghost orig_ranks = ranks@;
    let n = items.len();
    let mut items = items;
    let mut ranks = ranks;
    let mut out: Vec<T> = Vec::new();
    let mut out_ranks: Vec<i128> = Vec::new();
    let ghost mut p: Seq<int> = Seq::empty();
    let mut k: usize = 0;
    while k < n
        invariant
            n == orig.len(),
            n == orig_ranks.len(),
            forall|i: int| 0 <= i < n ==> orig_ranks[i] as int == rank(#[trigger] orig[i]),
            k <= n,
            items@ == orig.skip(k as int),
            ranks@ == orig_ranks.skip(k as int),
            out@.len() == k,
            out_ranks@.len() == k,
            forall|i: int| 0 <= i < k ==> out_ranks@[i] as int == rank(#[trigger] out@[i]),
            sorting_witness(out@, orig.take(k as int), rank, p),
        decreases n - k,
    {
        assert(items@[0] == orig[k as int]);
        assert(ranks@[0] == orig_ranks[k as int]);
        let item = items.remove(0);
        let r = ranks.remove(0);
        assert(items@ =~= orig.skip(k + 1));
        assert(ranks@ =~= orig_ranks.skip(k + 1));
        let mut pos: usize = 0;
        while pos < out_ranks.len() && out_ranks[pos] <= r
            invariant
                pos <= out_ranks@.len(),
                forall|j: int| 0 <= j < pos ==> out_ranks@[j] <= r,
            decreases out_ranks@.len() - pos,
        {
            pos = pos + 1;
        }
        let ghost old_out = out@;
        let ghost old_p = p;
        let ghost prefix = orig.take(k as int);
        let ghost next_prefix = orig.take(k + 1);
        proof {
            assert forall|j: int| pos <= j < k implies rank(#[trigger] old_out[j]) > r by {
                assert(rank(old_out[pos as int]) == out_ranks@[pos as int]);
                if j > pos {
                    assert(rank(old_out[pos as int]) <= rank(old_out[j]));
                }
            }
        }
        out.insert(pos, item);
        out_ranks.insert(pos, r);
        proof {
            p = old_p.insert(pos as int, k as int);
            assert(rank(item) == r as int);
            assert forall|i: int| 0 <= i < k + 1 implies 0 <= #[trigger] p[i] < next_prefix.len()
                && out@[i] == next_prefix[p[i]] by {
                if i < pos {
                    assert(p[i] == old_p[i]);
                    assert(out@[i] == old_out[i]);
                    assert(old_out[i] == prefix[old_p[i]]);
                } else if i > pos {
                    assert(p[i] == old_p[i - 1]);
                    assert(out@[i] == old_out[i - 1]);
                    assert(old_out[i - 1] == prefix[old_p[i - 1]]);
                } else {
                    assert(p[i] == k);
                    assert(out@[i] == item);
                }
            }
            assert forall|i: int| 0 <= i < k + 1 implies out_ranks@[i] as int == rank(
                #[trigger] out@[i],
            ) by {
                if i < pos {
                    assert(out@[i] == old_out[i]);
                } else if i > pos {
                    assert(out@[i] == old_out[i - 1]);
                }
            }
            assert forall|i: int, j: int| 0 <= i < j < k + 1 implies #[trigger] p[i]
                != #[trigger] p[j] && rank(#[trigger] out@[i]) <= rank(#[trigger] out@[j]) && (
            rank(out@[i]) == rank(out@[j]) ==> p[i] < p[j]) by {
                let oi = if i < pos {
                    i
                } else {
                    i - 1
                };
                let oj = if j <= pos {
                    j
                } else {
                    j - 1
                };
                if i != pos && j != pos {
                    assert(p[i] == old_p[oi]);
                    assert(p[j] == old_p[oj]);
                    assert(out@[i] == old_out[oi]);
                    assert(out@[j] == old_out[oj]);
                    assert(oi < oj);
                    assert(old_p[oi] != old_p[oj]);
                } else if i == pos {
                    assert(p[j] == old_p[oj]);
                    assert(old_p[oj] < k);
                    assert(out@[j] == old_out[oj]);
                    assert(rank(old_out[oj]) > r);
                } else {
                    assert(p[i] == old_p[oi]);
                    assert(old_p[oi] < k);
                    assert(out@[i] == old_out[oi]);
                    assert(rank(out@[i]) == out_ranks@[i]);
                    assert(out_ranks@[i] <= r);
                }
            }
            assert(sorting_witness(out@, next_prefix, rank, p));
        }
        k = k + 1;
    }
    assert(orig.take(n as int) =~= orig);
    out
}

} // verus!
