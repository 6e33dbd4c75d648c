//! Ranking the samples of a task by one participant's judgments.
use vstd::prelude::*;
use crate::judgment::{judged, judged_as, lemma_first_index, EngineError, Judgment, SampleId};
use crate::matrix::{
    build_matrix, complete, entries, entry, first_missing, lemma_reciprocity, unit,
};
use vstd::arithmetic::div_mod::{lemma_div_pos_is_pos, lemma_multiply_divide_le};
use crate::priority::{
    lemma_indifference_is_uniform, normalizable, priority_weights, weight, SCALE,
};

verus! {

/// A sample with its priority weight in billionths.
#[derive(Clone, Copy, Debug, PartialEq, Eq, Structural)]
pub struct SampleWeight {
    pub sample: SampleId,
    pub weight: u64,
}

/// Whether position `i` goes before position `j` in a ranking by `w`: a
/// higher weight first, and on equal weights the earlier position first.
pub open spec fn ranks_before(w: Seq<u64>, i: int, j: int) -> bool {
    w[i] > w[j] || (w[i] == w[j] && i < j)
}

/// Whether `p` lists each position `0..n` exactly once.
pub open spec fn is_permutation(p: Seq<int>, n: int) -> bool {
    &&& p.len() == n
    &&& p.no_duplicates()
    &&& forall|k: int| 0 <= k < n ==> 0 <= #[trigger] p[k] < n
}

/// Whether `r` is the ranking of the samples `ids` by the weights `w`: the
/// pairs `(ids[i], w[i])` ordered by descending weight, equal weights in the
/// order of `ids`.
pub open spec fn is_ranking(r: Seq<SampleWeight>, ids: Seq<SampleId>, w: Seq<u64>) -> bool {
    exists|p: Seq<int>|
        {
            &&& is_permutation(p, ids.len() as int)
            &&& r.len() == ids.len()
            &&& forall|k: int|
                0 <= k < r.len() ==> #[trigger] r[k] == (SampleWeight {
                    sample: ids[p[k]],
                    weight: w[p[k]],
                })
            &&& forall|k: int, l: int|
                0 <= k < l < r.len() ==> ranks_before(w, #[trigger] p[k], #[trigger] p[l])
        }
}

/// The samples `ids` paired with their weights `w` and sorted by descending
/// weight; samples of equal weight keep their order.
pub fn rank(ids: &Vec<SampleId>, w: &Vec<u64>) -> (r: Vec<SampleWeight>)
    requires
        ids@.len() == w@.len(),
    ensures
        is_ranking(r@, ids@, w@),
{
    let n = w.len();
    let mut order: Vec<usize> = Vec::new();
    let mut i: usize = 0;
    while i < n
        invariant
            n == w@.len(),
            i <= n,
            order@.len() == i,
            order@.no_duplicates(),
            forall|k: int| 0 <= k < i ==> #[trigger] order@[k] < i,
            forall|k: int, l: int|
                0 <= k < l < i ==> ranks_before(
                    w@,
                    #[trigger] order@[k] as int,
                    #[trigger] order@[l] as int,
                ),
        decreases n - i,
    {
        let mut pos: usize = 0;
        while pos < order.len() && w[order[pos]] >= w[i]
            invariant
                n == w@.len(),
                i < n,
                order@.len() == i,
                forall|k: int| 0 <= k < i ==> #[trigger] order@[k] < i,
                pos <= i,
                forall|k: int| 0 <= k < pos ==> w@[#[trigger] order@[k] as int] >= w@[i as int],
            decreases i - pos,
        {
            pos += 1;
        }
        let ghost before = order@;
        proof {
            assert forall|l: int| pos <= l < i implies w@[#[trigger] before[l] as int] < w@[i as int] by {
                if l > pos {
                    assert(ranks_before(w@, before[pos as int] as int, before[l] as int));
                }
            }
        }
        order.insert(pos, i);
        proof {
            assert(order@ == before.insert(pos as int, i));
            assert forall|k: int| 0 <= k < i + 1 implies #[trigger] order@[k] < i + 1 by {
                if k < pos {
                    assert(order@[k] == before[k]);
                } else if k > pos {
                    assert(order@[k] == before[k - 1]);
                }
            }
            assert forall|k: int, l: int| 0 <= k < l < i + 1 implies ranks_before(
                w@,
                #[trigger] order@[k] as int,
                #[trigger] order@[l] as int,
            ) by {
                if l < pos {
                    assert(order@[k] == before[k] && order@[l] == before[l]);
                } else if l == pos {
                    assert(order@[k] == before[k]);
                } else if k < pos {
                    assert(order@[k] == before[k] && order@[l] == before[l - 1]);
                } else if k == pos {
                    assert(order@[l] == before[l - 1]);
                } else {
                    assert(order@[k] == before[k - 1] && order@[l] == before[l - 1]);
                }
            }
            assert forall|k: int, l: int| 0 <= k < l < i + 1 implies order@[k] != order@[l] by {
                if l < pos {
                    assert(order@[k] == before[k] && order@[l] == before[l]);
                } else if l == pos {
                    assert(order@[k] == before[k]);
                } else if k < pos {
                    assert(order@[k] == before[k] && order@[l] == before[l - 1]);
                } else if k == pos {
                    assert(order@[l] == before[l - 1]);
                } else {
                    assert(order@[k] == before[k - 1] && order@[l] == before[l - 1]);
                }
            }
        }
        i += 1;
    }
    let mut r: Vec<SampleWeight> = Vec::new();
    let mut k: usize = 0;
    while k < n
        invariant
            n == w@.len(),
            n == ids@.len(),
            order@.len() == n,
            forall|j: int| 0 <= j < n ==> #[trigger] order@[j] < n,
            k <= n,
            r@.len() == k,
            forall|j: int|
                0 <= j < k ==> #[trigger] r@[j] == (SampleWeight {
                    sample: ids@[order@[j] as int],
                    weight: w@[order@[j] as int],
                }),
        decreases n - k,
    {
        let at = order[k];
        r.push(SampleWeight { sample: ids[at], weight: w[at] });
        k += 1;
    }
    let ghost p = order@.map_values(|x: usize| x as int);
    proof {
        assert forall|a: int, b: int| 0 <= a < b < n implies p[a] != p[b] by {
            assert(order@[a] != order@[b]);
        }
        assert(is_permutation(p, n as int));
        assert forall|a: int, b: int| 0 <= a < b < r@.len() implies ranks_before(
            w@,
            #[trigger] p[a],
            #[trigger] p[b],
        ) by {
            assert(ranks_before(w@, order@[a] as int, order@[b] as int));
        }
    }
    r
}

/// Whether every entry of the matrix that `js` gives for `ids` is a positive
/// fraction.
pub open spec fn entries_positive(ids: Seq<SampleId>, js: Seq<Judgment>) -> bool {
    forall|i: int, j: int|
        0 <= i < ids.len() && 0 <= j < ids.len() ==> #[trigger] entries(ids, js)[i][j].valid()
}

/// The weights of the samples `ids` that the judgments `js` give, in billionths.
pub open spec fn sample_weights(ids: Seq<SampleId>, js: Seq<Judgment>) -> Seq<u64> {
    Seq::new(ids.len(), |i: int| weight(entries(ids, js), i) as u64)
}

/// One participant's ranking of the samples `ids` under one metric, from
/// the participant's judgments `js` under that metric. Fails with
/// `MissingJudgment` when a pair has no judgment, naming the first such pair,
/// and with `InvalidRatio` when a recorded ratio is not a positive fraction.
pub fn calculate_sample_weights(ids: &Vec<SampleId>, js: &Vec<Judgment>) -> (r: Result<
    Vec<SampleWeight>,
    EngineError,
>)
    ensures
        r is Ok <==> complete(ids@, js@) && entries_positive(ids@, js@),
        r matches Ok(v) ==> is_ranking(v@, ids@, sample_weights(ids@, js@)),
        r matches Err(EngineError::MissingJudgment { col, row }) ==> first_missing(
            ids@,
            js@,
            col as int,
            row as int,
        ),
        r matches Err(e) ==> (e is MissingJudgment <==> !complete(ids@, js@)),
        r matches Err(e) ==> (e is InvalidRatio <==> complete(ids@, js@) && !entries_positive(ids@, js@)),
        r matches Err(e) ==> e is MissingJudgment || e is InvalidRatio,
{
    let m = match build_matrix(ids, js) {
        Ok(m) => m,
        Err(e) => return Err(e),
    };
    proof {
        lemma_reciprocity(m, ids@, js@);
    }
    if !m.all_positive() {
        proof {
            let (i, j) = choose|i: int, j: int|
                0 <= i < m.size() && 0 <= j < m.size() && !m.at(i, j).valid();
            assert(m.at(i, j) == entries(ids@, js@)[i][j]);
        }
        return Err(EngineError::InvalidRatio);
    }
    proof {
        assert forall|i: int, j: int| 0 <= i < m@.len() && 0 <= j < m@.len() implies #[trigger] m@[
            i][j].valid() by {
            assert(m.at(i, j).valid());
        }
        assert forall|i: int| 0 <= i < m@.len() implies #[trigger] m@[i][i] == unit() by {
            assert(m.at(i, i) == unit());
        }
        assert(normalizable(m@));
    }
    let w = priority_weights(&m);
    assert(w@ =~= sample_weights(ids@, js@));
    Ok(rank(ids, &w))
}

/// Total indifference gives a uniform ranking: when every pair is judged
/// and every recorded ratio is one, every sample weighs `SCALE / n` rounded
/// up, one n-th in billionths.
pub proof fn lemma_indifferent_judgments(ids: Seq<SampleId>, js: Seq<Judgment>)
    requires
        complete(ids, js),
        ids.len() > 0,
        forall|t: int|
            0 <= t < js.len() ==> (#[trigger] js[t]).ratio.valid() && js[t].ratio.num
                == js[t].ratio.den,
    ensures
        forall|i: int|
            0 <= i < ids.len() ==> #[trigger] sample_weights(ids, js)[i] == (SCALE as int
                + ids.len() as int - 1) / ids.len() as int,
{
    let m = entries(ids, js);
    let n = ids.len() as int;
    assert forall|i: int, j: int| 0 <= i < n && 0 <= j < n implies (#[trigger] m[i][j]).valid()
        && m[i][j].num == m[i][j].den by {
        assert(m[i][j] == entry(ids, js, i, j));
        if i != j {
            let x = if j < i { ids[j] } else { ids[i] };
            let y = if j < i { ids[i] } else { ids[j] };
            if j < i {
                assert(judged(js, ids[j], ids[i]));
            } else {
                assert(judged(js, ids[i], ids[j]));
            }
            if judged_as(js, x, y) {
                lemma_first_index(js, x, y);
            } else {
                lemma_first_index(js, y, x);
            }
        }
    }
    assert(normalizable(m));
    lemma_indifference_is_uniform(m);
    let e = (SCALE as int + n - 1) / n;
    assert(SCALE as int + n - 1 <= n * SCALE) by (nonlinear_arith)
        requires
            n >= 1,
    ;
    lemma_multiply_divide_le(SCALE as int + n - 1, n, SCALE as int);
    lemma_div_pos_is_pos(SCALE as int + n - 1, n);
    assert forall|i: int| 0 <= i < n implies #[trigger] sample_weights(ids, js)[i] == e by {
        assert(weight(m, i) == e);
    }
}

} // verus!
