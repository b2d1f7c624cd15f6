//! Verified ranking: a stable descending sort of scored store indices,
//! truncation to the top candidates, the strict similarity threshold, and
//! the fall-back that keeps the single best candidate when nothing passes
//! the threshold.

use crate::similarity::{
    above_threshold, above_threshold_exec, ranks_before, ranks_before_exec, Similarity,
};
use vstd::prelude::*;

verus! {

/// One store index paired with the similarity score computed for it.
#[derive(Clone, Copy, Debug, PartialEq, Eq, Structural)]
pub struct Ranked {
    pub idx: usize,
    pub sim: Similarity,
}

/// Every entry points into `scores` and carries the score stored there.
pub open spec fn entries_valid(s: Seq<Ranked>, scores: Seq<Similarity>) -> bool {
    forall|j: int|
        0 <= j < s.len() ==> (#[trigger] s[j]).idx < scores.len() && s[j].sim
            == scores[s[j].idx as int]
}

/// The scored entries in store order: entry `i` pairs index `i` with
/// `scores[i]`.
pub open spec fn ranked_of(scores: Seq<Similarity>) -> Seq<Ranked> {
    Seq::new(scores.len(), |i: int| Ranked { idx: i as usize, sim: scores[i] })
}

/// Stable insertion of `x` into `s` from the right: `x` moves left past
/// exactly those entries that it strictly outranks.
pub open spec fn insert_ranked(s: Seq<Ranked>, x: Ranked) -> Seq<Ranked>
    decreases s.len(),
{
    if s.len() == 0 {
        seq![x]
    } else if ranks_before(x.sim, s.last().sim) {
        insert_ranked(s.drop_last(), x).push(s.last())
    } else {
        s.push(x)
    }
}

/// Stable descending sort of `s` under [`ranks_before`]: entries that do
/// not strictly outrank one another keep their original relative order, so
/// ties — and entries whose score is marked `nan`, which tie with
/// everything — stay in store order.
pub open spec fn sort_ranked(s: Seq<Ranked>) -> Seq<Ranked>
    decreases s.len(),
{
    if s.len() == 0 {
        Seq::empty()
    } else {
        insert_ranked(sort_ranked(s.drop_last()), s.last())
    }
}

/// The entries of `s` whose score lies strictly above the threshold, in
/// order.
pub open spec fn filter_above(s: Seq<Ranked>) -> Seq<Ranked>
    decreases s.len(),
{
    if s.len() == 0 {
        Seq::empty()
    } else if above_threshold(s.last().sim) {
        filter_above(s.drop_last()).push(s.last())
    } else {
        filter_above(s.drop_last())
    }
}

/// The first `limit` entries of the descending ranking of `scores`, with
/// the threshold applied; when no candidate passes the threshold but at
/// least one exists, the single best candidate is kept instead, so the
/// selection is never empty while the store is not.
pub open spec fn spec_select(scores: Seq<Similarity>, limit: int) -> Seq<Ranked> {
    let sorted = sort_ranked(ranked_of(scores));
    let top = if limit < sorted.len() {
        sorted.subrange(0, limit)
    } else {
        sorted
    };
    let above = filter_above(top);
    if above.len() == 0 && top.len() > 0 {
        seq![top[0]]
    } else {
        above
    }
}

/// Inserting preserves length, one over.
proof fn lemma_insert_len(s: Seq<Ranked>, x: Ranked)
    ensures
        insert_ranked(s, x).len() == s.len() + 1,
    decreases s.len(),
{
    if s.len() > 0 && ranks_before(x.sim, s.last().sim) {
        lemma_insert_len(s.drop_last(), x);
    }
}

/// Inserting a valid entry into a valid sequence stays valid.
proof fn lemma_insert_valid(s: Seq<Ranked>, x: Ranked, scores: Seq<Similarity>)
    requires
        entries_valid(s, scores),
        x.idx < scores.len(),
        x.sim == scores[x.idx as int],
    ensures
        entries_valid(insert_ranked(s, x), scores),
    decreases s.len(),
{
    if s.len() > 0 && ranks_before(x.sim, s.last().sim) {
        assert(entries_valid(s.drop_last(), scores));
        lemma_insert_valid(s.drop_last(), x, scores);
    }
}

/// Sorting a valid sequence stays valid.
proof fn lemma_sort_valid(s: Seq<Ranked>, scores: Seq<Similarity>)
    requires
        entries_valid(s, scores),
    ensures
        entries_valid(sort_ranked(s), scores),
    decreases s.len(),
{
    if s.len() > 0 {
        assert(entries_valid(s.drop_last(), scores));
        lemma_sort_valid(s.drop_last(), scores);
        lemma_insert_valid(sort_ranked(s.drop_last()), s.last(), scores);
    }
}

/// Filtering keeps at most as many entries, all drawn from the input.
proof fn lemma_filter_above(s: Seq<Ranked>, scores: Seq<Similarity>)
    requires
        entries_valid(s, scores),
    ensures
        filter_above(s).len() <= s.len(),
        entries_valid(filter_above(s), scores),
        forall|j: int|
            0 <= j < filter_above(s).len() ==> above_threshold(
                (#[trigger] filter_above(s)[j]).sim,
            ),
    decreases s.len(),
{
    if s.len() > 0 {
        assert(entries_valid(s.drop_last(), scores));
        lemma_filter_above(s.drop_last(), scores);
    }
}

/// Where the scan of the inner insertion loop stops is exactly where
/// [`insert_ranked`] places the new entry.
proof fn lemma_insert_ranked_at(s: Seq<Ranked>, x: Ranked, j: int)
    requires
        0 <= j <= s.len(),
        forall|k: int| j <= k < s.len() ==> ranks_before(x.sim, (#[trigger] s[k]).sim),
        j > 0 ==> !ranks_before(x.sim, s[j - 1].sim),
    ensures
        insert_ranked(s, x) == s.insert(j, x),
    decreases s.len(),
{
    if j == s.len() {
        if s.len() == 0 {
            assert(insert_ranked(s, x) =~= s.insert(j, x));
        } else {
            assert(!ranks_before(x.sim, s.last().sim));
            assert(insert_ranked(s, x) =~= s.insert(j, x));
        }
    } else {
        assert(ranks_before(x.sim, s[s.len() - 1].sim));
        let s0 = s.drop_last();
        lemma_insert_ranked_at(s0, x, j);
        assert(insert_ranked(s, x) == insert_ranked(s0, x).push(s.last()));
        assert(insert_ranked(s, x) =~= s.insert(j, x));
    }
}

/// Adding the next entry to the sorted prefix matches the sort of the one
/// longer prefix.
proof fn lemma_sort_step(s: Seq<Ranked>, i: int)
    requires
        0 <= i < s.len(),
    ensures
        sort_ranked(s.subrange(0, i + 1)) == insert_ranked(sort_ranked(s.subrange(0, i)), s[i]),
{
    let t = s.subrange(0, i + 1);
    assert(t.drop_last() =~= s.subrange(0, i));
    assert(t.last() == s[i]);
}

/// Extending the filtered prefix by one entry matches the filter of the
/// one longer prefix.
proof fn lemma_filter_step(s: Seq<Ranked>, i: int)
    requires
        0 <= i < s.len(),
    ensures
        filter_above(s.subrange(0, i + 1)) == if above_threshold(s[i].sim) {
            filter_above(s.subrange(0, i)).push(s[i])
        } else {
            filter_above(s.subrange(0, i))
        },
{
    let t = s.subrange(0, i + 1);
    assert(t.drop_last() =~= s.subrange(0, i));
    assert(t.last() == s[i]);
}

/// Inserting adds exactly one entry: the sorted sequence holds the same
/// entries as before plus the new one.
proof fn lemma_insert_multiset(s: Seq<Ranked>, x: Ranked)
    ensures
        insert_ranked(s, x).to_multiset() == s.to_multiset().insert(x),
    decreases s.len(),
{
    broadcast use vstd::seq_lib::group_to_multiset_ensures;

    if s.len() == 0 {
        assert(seq![x] =~= Seq::<Ranked>::empty().push(x));
    } else if ranks_before(x.sim, s.last().sim) {
        let s0 = s.drop_last();
        lemma_insert_multiset(s0, x);
        assert(s =~= s0.push(s.last()));
        assert(s0.to_multiset().insert(x).insert(s.last()) =~= s0.to_multiset().insert(
            s.last(),
        ).insert(x));
    } else {
        assert(insert_ranked(s, x) == s.push(x));
    }
}

/// The stable sort permutes its input: the same entries come out, with
/// the same multiplicities.
pub proof fn lemma_sort_ranked_permutation(s: Seq<Ranked>)
    ensures
        sort_ranked(s).to_multiset() == s.to_multiset(),
    decreases s.len(),
{
    broadcast use vstd::seq_lib::group_to_multiset_ensures;

    if s.len() > 0 {
        let s0 = s.drop_last();
        lemma_sort_ranked_permutation(s0);
        lemma_insert_multiset(sort_ranked(s0), s.last());
        assert(s =~= s0.push(s.last()));
    }
}

/// No entry's score is marked `nan`.
pub open spec fn all_real(s: Seq<Ranked>) -> bool {
    forall|k: int| 0 <= k < s.len() ==> !(#[trigger] s[k]).sim.nan
}

/// Keys never grow along the sequence: a genuine descending order.
pub open spec fn sorted_desc(s: Seq<Ranked>) -> bool {
    forall|i: int, j: int|
        0 <= i < j < s.len() ==> (#[trigger] s[i]).sim.key >= (#[trigger] s[j]).sim.key
}

/// Inserting a real-scored entry keeps every score real.
proof fn lemma_insert_real(s: Seq<Ranked>, x: Ranked)
    requires
        all_real(s),
        !x.sim.nan,
    ensures
        all_real(insert_ranked(s, x)),
    decreases s.len(),
{
    if s.len() > 0 && ranks_before(x.sim, s.last().sim) {
        assert(all_real(s.drop_last()));
        lemma_insert_real(s.drop_last(), x);
    }
}

/// Inserting a real-scored entry into a real-scored descending sequence
/// keeps it descending.
proof fn lemma_insert_desc(s: Seq<Ranked>, x: Ranked)
    requires
        all_real(s),
        !x.sim.nan,
        sorted_desc(s),
    ensures
        sorted_desc(insert_ranked(s, x)),
    decreases s.len(),
{
    broadcast use vstd::seq_lib::group_to_multiset_ensures;

    let res = insert_ranked(s, x);
    if s.len() == 0 {
    } else if ranks_before(x.sim, s.last().sim) {
        let s0 = s.drop_last();
        let inner = insert_ranked(s0, x);
        assert(all_real(s0));
        assert(sorted_desc(s0));
        lemma_insert_desc(s0, x);
        lemma_insert_multiset(s0, x);
        lemma_insert_len(s0, x);
        assert forall|i: int, j: int| 0 <= i < j < res.len() implies (#[trigger] res[i]).sim.key
            >= (#[trigger] res[j]).sim.key by {
            if j < res.len() - 1 {
                assert(res[i] == inner[i] && res[j] == inner[j]);
            } else {
                assert(res[j] == s.last());
                assert(res[i] == inner[i]);
                assert(inner.contains(inner[i]));
                assert(inner.to_multiset().count(inner[i]) > 0);
                if inner[i] == x {
                    assert(res[i].sim.key >= res[j].sim.key);
                } else {
                    assert(s0.to_multiset().count(inner[i]) > 0);
                    assert(s0.contains(inner[i]));
                    let w = choose|w: int| 0 <= w < s0.len() && s0[w] == inner[i];
                    assert(s[w] == s0[w]);
                    assert(s[w].sim.key >= s.last().sim.key);
                }
            }
        }
    } else {
        assert(res == s.push(x));
        assert(x.sim.key <= s.last().sim.key);
        assert forall|i: int, j: int| 0 <= i < j < res.len() implies (#[trigger] res[i]).sim.key
            >= (#[trigger] res[j]).sim.key by {
            if j == res.len() - 1 {
                assert(res[i] == s[i]);
                if i < s.len() - 1 {
                    assert(s[i].sim.key >= s[s.len() - 1].sim.key);
                }
            }
        }
    }
}

/// When every score is real, the stable sort is a genuine descending
/// sort: no later entry carries a larger key.
pub proof fn lemma_sort_ranked_descending(s: Seq<Ranked>)
    requires
        all_real(s),
    ensures
        all_real(sort_ranked(s)),
        sorted_desc(sort_ranked(s)),
    decreases s.len(),
{
    if s.len() > 0 {
        let s0 = s.drop_last();
        assert(all_real(s0));
        lemma_sort_ranked_descending(s0);
        lemma_insert_desc(sort_ranked(s0), s.last());
        lemma_insert_real(sort_ranked(s0), s.last());
    }
}

/// Every filtered entry comes from the input.
proof fn lemma_filter_contains(s: Seq<Ranked>)
    ensures
        forall|e: Ranked| #[trigger] filter_above(s).contains(e) ==> s.contains(e),
    decreases s.len(),
{
    if s.len() > 0 {
        let s0 = s.drop_last();
        lemma_filter_contains(s0);
        assert forall|e: Ranked| #[trigger] filter_above(s).contains(e) implies s.contains(e) by {
            let f = filter_above(s);
            let i = choose|i: int| 0 <= i < f.len() && f[i] == e;
            if above_threshold(s.last().sim) && i == f.len() - 1 {
                assert(s[s.len() - 1] == e);
            } else {
                assert(filter_above(s0)[i] == e);
                assert(filter_above(s0).contains(e));
                let w = choose|w: int| 0 <= w < s0.len() && s0[w] == e;
                assert(s[w] == e);
            }
        }
    }
}

/// Filtering a descending sequence leaves it descending.
proof fn lemma_filter_desc(s: Seq<Ranked>)
    requires
        sorted_desc(s),
    ensures
        sorted_desc(filter_above(s)),
    decreases s.len(),
{
    if s.len() > 0 {
        let s0 = s.drop_last();
        assert(sorted_desc(s0));
        lemma_filter_desc(s0);
        lemma_filter_contains(s0);
        if above_threshold(s.last().sim) {
            let res = filter_above(s);
            assert forall|i: int, j: int| 0 <= i < j < res.len() implies (#[trigger] res[i]).sim.key
                >= (#[trigger] res[j]).sim.key by {
                if j == res.len() - 1 {
                    assert(res[j] == s.last());
                    assert(res[i] == filter_above(s0)[i]);
                    assert(filter_above(s0).contains(filter_above(s0)[i]));
                    assert(s0.contains(res[i]));
                    let w = choose|w: int| 0 <= w < s0.len() && s0[w] == res[i];
                    assert(s[w] == res[i]);
                    assert(s[w].sim.key >= s[s.len() - 1].sim.key);
                } else {
                    assert(res[i] == filter_above(s0)[i] && res[j] == filter_above(s0)[j]);
                }
            }
        }
    }
}

/// When no score is marked `nan`, the selected candidates come back in
/// genuine descending score order.
pub proof fn lemma_select_descending(scores: Seq<Similarity>, limit: int)
    requires
        0 <= limit,
        forall|k: int| 0 <= k < scores.len() ==> !(#[trigger] scores[k]).nan,
    ensures
        sorted_desc(spec_select(scores, limit)),
{
    let ranked = ranked_of(scores);
    assert(all_real(ranked));
    lemma_sort_ranked_descending(ranked);
    let sorted = sort_ranked(ranked);
    let top = if limit < sorted.len() {
        sorted.subrange(0, limit)
    } else {
        sorted
    };
    assert(sorted_desc(top));
    lemma_filter_desc(top);
}

/// Rank every score against its store index, sort the result stably in
/// descending score order, keep the first `limit` entries, drop those not
/// strictly above the threshold, and fall back to the single best entry
/// when none passes while candidates exist.
pub fn select_top(scores: &Vec<Similarity>, limit: usize) -> (r: Vec<Ranked>)
    ensures
        r@ == spec_select(scores@, limit as int),
        entries_valid(r@, scores@),
        r@.len() <= limit,
        scores@.len() > 0 && limit > 0 ==> r@.len() > 0,
{
    let n = scores.len();
    let mut pairs: Vec<Ranked> = Vec::new();
    let mut i: usize = 0;
    while i < n
        invariant
            i <= n,
            n == scores@.len(),
            pairs@.len() == i,
            forall|k: int|
                0 <= k < i ==> #[trigger] pairs@[k] == (Ranked { idx: k as usize, sim: scores@[k] }),
        decreases n - i,
    {
        pairs.push(Ranked { idx: i, sim: scores[i] });
        i += 1;
    }
    proof {
        assert(pairs@ =~= ranked_of(scores@));
    }

    let mut sorted: Vec<Ranked> = Vec::new();
    let mut i: usize = 0;
    while i < n
        invariant
            i <= n,
            n == scores@.len(),
            pairs@ == ranked_of(scores@),
            sorted@ == sort_ranked(pairs@.subrange(0, i as int)),
            sorted@.len() == i,
        decreases n - i,
    {
        let x = pairs[i];
        let mut j: usize = sorted.len();
        while j > 0 && ranks_before_exec(x.sim, sorted[j - 1].sim)
            invariant
                j <= sorted@.len(),
                forall|k: int|
                    j <= k < sorted@.len() ==> ranks_before(x.sim, (#[trigger] sorted@[k]).sim),
            decreases j,
        {
            j -= 1;
        }
        proof {
            lemma_insert_ranked_at(sorted@, x, j as int);
            lemma_sort_step(pairs@, i as int);
            lemma_insert_len(sorted@, x);
        }
        sorted.insert(j, x);
        i += 1;
    }
    proof {
        assert(pairs@.subrange(0, n as int) =~= pairs@);
        lemma_sort_valid(pairs@, scores@);
    }

    let sorted_len: usize = sorted.len();
    let mut top = sorted;
    top.truncate(limit);
    proof {
        if limit as int >= sorted_len as int {
            assert(top@ == sort_ranked(ranked_of(scores@)));
        }
    }

    let ghost top_view = top@;
    let mut above: Vec<Ranked> = Vec::new();
    let mut i: usize = 0;
    while i < top.len()
        invariant
            i <= top@.len(),
            top@ == top_view,
            above@ == filter_above(top@.subrange(0, i as int)),
        decreases top@.len() - i,
    {
        proof {
            lemma_filter_step(top@, i as int);
        }
        if above_threshold_exec(top[i].sim) {
            above.push(top[i]);
        }
        i += 1;
    }
    proof {
        assert(top@.subrange(0, top@.len() as int) =~= top@);
        lemma_filter_above(top@, scores@);
    }

    let r = if above.is_empty() && top.len() > 0 {
        let first = top[0];
        vec![first]
    } else {
        above
    };
    proof {
        assert(entries_valid(r@, scores@));
    }
    r
}

} // verus!
