//! Which sample pairs a participant still has to judge.
use vstd::prelude::*;
use vstd::seq_lib::{lemma_no_dup_in_concat, lemma_seq_concat_contains_all_elements};
use crate::judgment::{distinct_ids, is_judged, judged, Judgment, Pair, SampleId};
use crate::matrix::{complete, find_missing};

verus! {

/// The pairs `(ids[i], ids[k])`, for `k` from `j` up, that `js` does not judge
/// in either direction.
pub open spec fn row_pending(ids: Seq<SampleId>, js: Seq<Judgment>, i: int, j: int) -> Seq<Pair>
    decreases ids.len() - j,
{
    if j < 0 || j >= ids.len() {
        Seq::empty()
    } else if judged(js, ids[i], ids[j]) {
        row_pending(ids, js, i, j + 1)
    } else {
        seq![Pair { a: ids[i], b: ids[j] }] + row_pending(ids, js, i, j + 1)
    }
}

/// The unjudged pairs `(ids[a], ids[b])` with `i <= a < b`, ordered by `a`,
/// then by `b`.
pub open spec fn pending_from(ids: Seq<SampleId>, js: Seq<Judgment>, i: int) -> Seq<Pair>
    decreases ids.len() - i,
{
    if i < 0 || i >= ids.len() {
        Seq::empty()
    } else {
        row_pending(ids, js, i, i + 1) + pending_from(ids, js, i + 1)
    }
}

/// Every pair of the sample set, in the set's order, that `js` does not judge.
pub open spec fn pending(ids: Seq<SampleId>, js: Seq<Judgment>) -> Seq<Pair> {
    pending_from(ids, js, 0)
}

/// Whether `p` is the pair of positions `a < b` of `ids`.
pub open spec fn pair_at(ids: Seq<SampleId>, p: Pair, a: int, b: int) -> bool {
    0 <= a < b < ids.len() && p == Pair { a: ids[a], b: ids[b] }
}

/// Whether `p` is the pair of two positions `a < b` of `ids`.
pub open spec fn is_pair_of(ids: Seq<SampleId>, p: Pair) -> bool {
    exists|a: int, b: int| pair_at(ids, p, a, b)
}

proof fn lemma_row_members(ids: Seq<SampleId>, js: Seq<Judgment>, i: int, j: int, p: Pair)
    requires
        0 <= i < ids.len(),
        i < j,
    ensures
        row_pending(ids, js, i, j).contains(p) <==> exists|b: int|
            j <= b < ids.len() && pair_at(ids, p, i, b) && !judged(js, ids[i], ids[b]),
    decreases ids.len() - j,
{
    if j < ids.len() {
        lemma_row_members(ids, js, i, j + 1, p);
        let rest = row_pending(ids, js, i, j + 1);
        let head = seq![Pair { a: ids[i], b: ids[j] }];
        lemma_seq_concat_contains_all_elements(head, rest, p);
        if row_pending(ids, js, i, j).contains(p) && !rest.contains(p) {
            assert(pair_at(ids, p, i, j));
        }
        if exists|b: int|
            j <= b < ids.len() && pair_at(ids, p, i, b) && !judged(js, ids[i], ids[b]) {
            let b = choose|b: int|
                j <= b < ids.len() && pair_at(ids, p, i, b) && !judged(js, ids[i], ids[b]);
            if b == j {
                assert(head[0] == p);
            }
        }
    }
}

/// A pair is waiting from position `i` on exactly when it is the pair of two
/// positions `i <= a < b` that no judgment covers.
pub proof fn lemma_pending_members(ids: Seq<SampleId>, js: Seq<Judgment>, i: int, p: Pair)
    requires
        0 <= i,
    ensures
        pending_from(ids, js, i).contains(p) <==> exists|a: int, b: int|
            i <= a && pair_at(ids, p, a, b) && !judged(js, ids[a], ids[b]),
    decreases ids.len() - i,
{
    if i < ids.len() {
        lemma_pending_members(ids, js, i + 1, p);
        lemma_row_members(ids, js, i, i + 1, p);
        lemma_seq_concat_contains_all_elements(
            row_pending(ids, js, i, i + 1),
            pending_from(ids, js, i + 1),
            p,
        );
        if exists|a: int, b: int| i <= a && pair_at(ids, p, a, b) && !judged(js, ids[a], ids[b]) {
            let (a, b) = choose|a: int, b: int|
                i <= a && pair_at(ids, p, a, b) && !judged(js, ids[a], ids[b]);
            if a == i {
                assert(row_pending(ids, js, i, i + 1).contains(p));
            } else {
                assert(pending_from(ids, js, i + 1).contains(p));
            }
        }
    }
}

/// A pair judged in either direction is absent from the pairs that still
/// need a judgment, whichever way round it is labelled.
pub proof fn lemma_judged_pair_absent(
    ids: Seq<SampleId>,
    js: Seq<Judgment>,
    x: SampleId,
    y: SampleId,
)
    requires
        judged(js, x, y),
    ensures
        forall|k: int|
            0 <= k < pending(ids, js).len() ==> !(#[trigger] pending(ids, js)[k]).same_samples(
                Pair { a: x, b: y },
            ),
{
    assert forall|k: int| 0 <= k < pending(ids, js).len() implies !(#[trigger] pending(
        ids,
        js,
    )[k]).same_samples(Pair { a: x, b: y }) by {
        let p = pending(ids, js)[k];
        assert(pending(ids, js).contains(p));
        lemma_pending_members(ids, js, 0, p);
    }
}

proof fn lemma_row_unjudged(ids: Seq<SampleId>, i: int, j: int)
    requires
        distinct_ids(ids),
        0 <= i < j <= ids.len(),
    ensures
        row_pending(ids, Seq::empty(), i, j).len() == ids.len() - j,
        row_pending(ids, Seq::empty(), i, j).no_duplicates(),
    decreases ids.len() - j,
{
    let js = Seq::<Judgment>::empty();
    if j < ids.len() {
        lemma_row_unjudged(ids, i, j + 1);
        let head = seq![Pair { a: ids[i], b: ids[j] }];
        let rest = row_pending(ids, js, i, j + 1);
        assert forall|u: int, v: int| 0 <= u < head.len() && 0 <= v < rest.len() implies head[u]
            != rest[v] by {
            assert(rest.contains(rest[v]));
            lemma_row_members(ids, js, i, j + 1, rest[v]);
        }
        lemma_no_dup_in_concat(head, rest);
    }
}

proof fn lemma_all_unjudged(ids: Seq<SampleId>, i: int)
    requires
        distinct_ids(ids),
        0 <= i <= ids.len(),
    ensures
        2 * pending_from(ids, Seq::empty(), i).len() == (ids.len() - i) * (ids.len() - i - 1),
        pending_from(ids, Seq::empty(), i).no_duplicates(),
    decreases ids.len() - i,
{
    let js = Seq::<Judgment>::empty();
    if i < ids.len() {
        lemma_all_unjudged(ids, i + 1);
        lemma_row_unjudged(ids, i, i + 1);
        let row = row_pending(ids, js, i, i + 1);
        let rest = pending_from(ids, js, i + 1);
        let m = ids.len() - i;
        assert(pending_from(ids, js, i) == row + rest);
        assert(row.len() == m - 1);
        assert(2 * rest.len() == (m - 1) * (m - 2));
        assert((ids.len() - (i + 1)) * (ids.len() - (i + 1) - 1) == (m - 1) * (m - 2));
        assert((ids.len() - i) * (ids.len() - i - 1) == m * (m - 1));
        assert(2 * (m - 1) + (m - 1) * (m - 2) == m * (m - 1)) by (nonlinear_arith);
        assert forall|u: int, v: int| 0 <= u < row.len() && 0 <= v < rest.len() implies row[u]
            != rest[v] by {
            assert(row.contains(row[u]));
            assert(rest.contains(rest[v]));
            lemma_row_members(ids, js, i, i + 1, row[u]);
            lemma_pending_members(ids, js, i + 1, rest[v]);
        }
        lemma_no_dup_in_concat(row, rest);
    } else {
        assert((ids.len() - i) * (ids.len() - i - 1) == 0) by (nonlinear_arith)
            requires
                ids.len() - i == 0,
        ;
    }
}

/// With no judgments recorded, every pair of a sample set of `n` distinct
/// samples needs a judgment: there are `n·(n−1)/2` of them, all distinct, each
/// the pair of two positions `a < b`, every such pair among them, and no pair
/// present both ways round.
pub proof fn lemma_all_pairs_pending(ids: Seq<SampleId>)
    requires
        distinct_ids(ids),
    ensures
        pending(ids, Seq::empty()).len() == ids.len() * (ids.len() - 1) / 2,
        pending(ids, Seq::empty()).no_duplicates(),
        forall|a: int, b: int|
            0 <= a < b < ids.len() ==> pending(ids, Seq::empty()).contains(
                Pair { a: ids[a], b: ids[b] },
            ),
        forall|k: int|
            0 <= k < pending(ids, Seq::empty()).len() ==> is_pair_of(
                ids,
                #[trigger] pending(ids, Seq::empty())[k],
            ),
        forall|k: int, l: int|
            0 <= k < pending(ids, Seq::empty()).len() && 0 <= l < pending(ids, Seq::empty()).len()
                ==> #[trigger] pending(ids, Seq::empty())[k] != (#[trigger] pending(
                ids,
                Seq::empty(),
            )[l]).spec_swapped(),
{
    let js = Seq::<Judgment>::empty();
    let ps = pending(ids, js);
    lemma_all_unjudged(ids, 0);
    let n = ids.len();
    assert(2 * ps.len() == n * (n - 1));
    assert forall|a: int, b: int| 0 <= a < b < ids.len() implies ps.contains(
        Pair { a: ids[a], b: ids[b] },
    ) by {
        lemma_pending_members(ids, js, 0, Pair { a: ids[a], b: ids[b] });
        assert(pair_at(ids, Pair { a: ids[a], b: ids[b] }, a, b));
    }
    assert forall|k: int| 0 <= k < ps.len() implies is_pair_of(ids, #[trigger] ps[k]) by {
        assert(ps.contains(ps[k]));
        lemma_pending_members(ids, js, 0, ps[k]);
    }
    assert forall|k: int, l: int| 0 <= k < ps.len() && 0 <= l < ps.len() implies #[trigger] ps[k]
        != (#[trigger] ps[l]).spec_swapped() by {
        assert(ps.contains(ps[k]));
        assert(ps.contains(ps[l]));
        lemma_pending_members(ids, js, 0, ps[k]);
        lemma_pending_members(ids, js, 0, ps[l]);
    }
}

/// The pairs of the sample set `ids` that still need a judgment: each pair
/// `(ids[i], ids[j])` with `i < j` that `js` judges in neither direction, in
/// the order of the sample set.
pub fn pairs_needing_judgment(ids: &Vec<SampleId>, js: &Vec<Judgment>) -> (r: Vec<Pair>)
    ensures
        r@ == pending(ids@, js@),
{
    let n = ids.len();
    let mut out: Vec<Pair> = Vec::new();
    let mut i: usize = 0;
    while i < n
        invariant
            n == ids@.len(),
            i <= n,
            out@ + pending_from(ids@, js@, i as int) == pending(ids@, js@),
        decreases n - i,
    {
        assert(pending_from(ids@, js@, i as int) == row_pending(ids@, js@, i as int, i + 1)
            + pending_from(ids@, js@, i + 1));
        let mut j: usize = i + 1;
        while j < n
            invariant
                n == ids@.len(),
                i < n,
                i + 1 <= j <= n,
                out@ + row_pending(ids@, js@, i as int, j as int) + pending_from(
                    ids@,
                    js@,
                    i + 1,
                ) == pending(ids@, js@),
            decreases n - j,
        {
            let ghost rest = row_pending(ids@, js@, i as int, j + 1);
            let ghost later = pending_from(ids@, js@, i + 1);
            let p = Pair { a: ids[i], b: ids[j] };
            if !is_judged(js, ids[i], ids[j]) {
                assert(out@ + row_pending(ids@, js@, i as int, j as int) + later =~= out@.push(p)
                    + rest + later);
                out.push(p);
            }
            j += 1;
        }
        assert(row_pending(ids@, js@, i as int, n as int) =~= Seq::<Pair>::empty());
        assert(out@ + Seq::<Pair>::empty() + pending_from(ids@, js@, i + 1) =~= out@
            + pending_from(ids@, js@, i + 1));
        i += 1;
    }
    assert(out@ + pending_from(ids@, js@, n as int) =~= out@);
    out
}

/// Whether `js` judges every pair of the sample set `ids`.
pub fn has_judged_all(ids: &Vec<SampleId>, js: &Vec<Judgment>) -> (r: bool)
    ensures
        r == complete(ids@, js@),
{
    find_missing(ids, js).is_none()
}

} // verus!
