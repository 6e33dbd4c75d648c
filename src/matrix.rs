//! The reciprocal comparison matrix of one participant under one metric.
use vstd::prelude::*;
use crate::judgment::{
    is_judged, judged, lookup, lookup_ratio, EngineError, Judgment, Ratio, SampleId,
};

verus! {

/// An n×n matrix of ratios over the order of a sample set. The entry in row
/// `i` and column `j` says how strongly sample `i` is preferred over sample
/// `j`, as the judgments recorded it.
#[derive(Clone, Debug)]
pub struct ComparisonMatrix {
    pub cells: Vec<Vec<Ratio>>,
}

/// The ratio one.
pub open spec fn unit() -> Ratio {
    Ratio { num: 1, den: 1 }
}

/// Whether every pair of distinct positions of `ids` has a judgment.
pub open spec fn complete(ids: Seq<SampleId>, js: Seq<Judgment>) -> bool {
    forall|c: int, r: int| 0 <= c < r < ids.len() ==> judged(js, ids[c], ids[r])
}

/// Whether the pair at positions `(c2, r2)` comes before `(c, r)` when pairs
/// are visited column by column, each column from the top down.
pub open spec fn visited_before(c2: int, r2: int, c: int, r: int) -> bool {
    c2 < c || (c2 == c && r2 < r)
}

/// Whether `(c, r)` is the first unjudged pair in that visiting order.
pub open spec fn first_missing(ids: Seq<SampleId>, js: Seq<Judgment>, c: int, r: int) -> bool {
    &&& 0 <= c < r < ids.len()
    &&& !judged(js, ids[c], ids[r])
    &&& forall|c2: int, r2: int|
        0 <= c2 < r2 < ids.len() && visited_before(c2, r2, c, r) ==> judged(js, ids[c2], ids[r2])
}

/// The entry in row `i` and column `j` of the matrix that `js` gives for
/// `ids`: one on the diagonal; above it the preference of the row's sample
/// over the column's sample, as the judgment of that pair gives it in either
/// direction; below it the reciprocal of the mirrored entry.
pub open spec fn entry(ids: Seq<SampleId>, js: Seq<Judgment>, i: int, j: int) -> Ratio {
    if i == j {
        unit()
    } else if j < i {
        lookup_ratio(js, ids[j], ids[i]).unwrap().spec_reciprocal()
    } else {
        lookup_ratio(js, ids[i], ids[j]).unwrap()
    }
}

/// The matrix that `js` gives for `ids`, entry by entry.
pub open spec fn entries(ids: Seq<SampleId>, js: Seq<Judgment>) -> Seq<Seq<Ratio>> {
    Seq::new(ids.len(), |i: int| Seq::new(ids.len(), |j: int| entry(ids, js, i, j)))
}

impl View for ComparisonMatrix {
    type V = Seq<Seq<Ratio>>;

    open spec fn view(&self) -> Seq<Seq<Ratio>> {
        self.cells@.map_values(|line: Vec<Ratio>| line@)
    }
}

impl ComparisonMatrix {
    /// The number of rows.
    pub open spec fn size(self) -> int {
        self.cells@.len() as int
    }

    /// The entry in row `i` and column `j`.
    pub open spec fn at(self, i: int, j: int) -> Ratio {
        self.cells@[i]@[j]
    }

    /// Whether the matrix is square.
    pub open spec fn square(self) -> bool {
        forall|i: int| 0 <= i < self.size() ==> #[trigger] self.cells@[i]@.len() == self.size()
    }

    /// Whether every entry is a positive fraction.
    pub open spec fn positive(self) -> bool {
        forall|i: int, j: int|
            0 <= i < self.size() && 0 <= j < self.size() ==> #[trigger] self.at(i, j).valid()
    }

    /// Whether this is the matrix that `js` gives for `ids`.
    pub open spec fn built_from(self, ids: Seq<SampleId>, js: Seq<Judgment>) -> bool {
        &&& self@ == entries(ids, js)
        &&& self.size() == ids.len()
        &&& self.square()
        &&& forall|i: int, j: int|
            0 <= i < ids.len() && 0 <= j < ids.len() ==> #[trigger] self.at(i, j) == entry(
                ids,
                js,
                i,
                j,
            )
    }

    /// Whether every entry is a positive fraction, checked entry by entry.
    pub fn all_positive(&self) -> (r: bool)
        requires
            self.square(),
        ensures
            r == self.positive(),
    {
        let n = self.cells.len();
        let mut i: usize = 0;
        while i < n
            invariant
                n == self.size(),
                self.square(),
                i <= n,
                forall|a: int, b: int| 0 <= a < i && 0 <= b < n ==> #[trigger] self.at(a, b).valid(),
            decreases n - i,
        {
            let mut j: usize = 0;
            while j < n
                invariant
                    n == self.size(),
                    self.square(),
                    i < n,
                    j <= n,
                    forall|a: int, b: int|
                        0 <= a < i && 0 <= b < n ==> #[trigger] self.at(a, b).valid(),
                    forall|b: int| 0 <= b < j ==> #[trigger] self.at(i as int, b).valid(),
                decreases n - j,
            {
                assert(self.cells@[i as int]@.len() == n);
                if !self.cells[i][j].is_valid() {
                    assert(!self.at(i as int, j as int).valid());
                    return false;
                }
                j += 1;
            }
            i += 1;
        }
        true
    }
}

/// Whether `x · y == 1` as fractions.
pub open spec fn product_is_one(x: Ratio, y: Ratio) -> bool {
    x.num * y.num == x.den * y.den
}

/// A built matrix is reciprocal: each entry off the diagonal is the
/// reciprocal of its mirror, so their product is one, and each diagonal entry
/// is one.
pub proof fn lemma_reciprocity(m: ComparisonMatrix, ids: Seq<SampleId>, js: Seq<Judgment>)
    requires
        m.built_from(ids, js),
    ensures
        forall|i: int, j: int|
            0 <= i < ids.len() && 0 <= j < ids.len() && i != j ==> #[trigger] m.at(i, j)
                == m.at(j, i).spec_reciprocal() && product_is_one(m.at(i, j), m.at(j, i)),
        forall|i: int| 0 <= i < ids.len() ==> #[trigger] m.at(i, i) == unit(),
{
    assert forall|i: int, j: int|
        0 <= i < ids.len() && 0 <= j < ids.len() && i != j implies #[trigger] m.at(i, j)
            == m.at(j, i).spec_reciprocal() && product_is_one(m.at(i, j), m.at(j, i)) by {
        assert(m.at(i, j) == entry(ids, js, i, j));
        assert(m.at(j, i) == entry(ids, js, j, i));
        let x = m.at(i, j);
        let y = m.at(j, i);
        assert(x.num as int * y.num as int == y.num as int * x.num as int) by (nonlinear_arith);
    }
    assert forall|i: int| 0 <= i < ids.len() implies #[trigger] m.at(i, i) == unit() by {
        assert(m.at(i, i) == entry(ids, js, i, i));
    }
}

/// The first pair of positions `col < row` without a judgment, visiting the
/// pairs column by column, or `None` when every pair is judged.
pub fn find_missing(ids: &Vec<SampleId>, js: &Vec<Judgment>) -> (r: Option<(usize, usize)>)
    ensures
        r is None <==> complete(ids@, js@),
        r matches Some((c, w)) ==> first_missing(ids@, js@, c as int, w as int),
{
    let n = ids.len();
    let mut col: usize = 0;
    while col < n
        invariant
            n == ids@.len(),
            col <= n,
            forall|c2: int, r2: int| 0 <= c2 < col && c2 < r2 < n ==> judged(js@, ids@[c2], ids@[r2]),
        decreases n - col,
    {
        let mut row: usize = col + 1;
        while row < n
            invariant
                n == ids@.len(),
                col < n,
                col + 1 <= row <= n,
                forall|c2: int, r2: int|
                    0 <= c2 < col && c2 < r2 < n ==> judged(js@, ids@[c2], ids@[r2]),
                forall|r2: int| col < r2 < row ==> judged(js@, ids@[col as int], ids@[r2]),
            decreases n - row,
        {
            if !is_judged(js, ids[col], ids[row]) {
                return Some((col, row));
            }
            row += 1;
        }
        col += 1;
    }
    None
}

/// The entry in row `i` and column `j`, for a complete set of judgments.
fn make_entry(ids: &Vec<SampleId>, js: &Vec<Judgment>, i: usize, j: usize) -> (r: Ratio)
    requires
        complete(ids@, js@),
        i < ids@.len(),
        j < ids@.len(),
    ensures
        r == entry(ids@, js@, i as int, j as int),
{
    if i == j {
        Ratio { num: 1, den: 1 }
    } else if j < i {
        assert(judged(js@, ids@[j as int], ids@[i as int]));
        lookup(js, ids[j], ids[i]).unwrap().reciprocal()
    } else {
        assert(judged(js@, ids@[i as int], ids@[j as int]));
        lookup(js, ids[i], ids[j]).unwrap()
    }
}

/// The comparison matrix of the sample set `ids` under the judgments `js`,
/// which may be recorded in either direction. Fails with `MissingJudgment`
/// naming the first pair, column by column, that has no judgment.
pub fn build_matrix(ids: &Vec<SampleId>, js: &Vec<Judgment>) -> (r: Result<
    ComparisonMatrix,
    EngineError,
>)
    ensures
        r is Ok <==> complete(ids@, js@),
        r matches Ok(m) ==> m.built_from(ids@, js@),
        r matches Err(e) ==> e matches EngineError::MissingJudgment { col, row } && first_missing(
            ids@,
            js@,
            col as int,
            row as int,
        ),
{
    if let Some((col, row)) = find_missing(ids, js) {
        return Err(EngineError::MissingJudgment { col, row });
    }
    let n = ids.len();
    let mut cells: Vec<Vec<Ratio>> = Vec::new();
    let mut i: usize = 0;
    while i < n
        invariant
            n == ids@.len(),
            complete(ids@, js@),
            i <= n,
            cells@.len() == i,
            forall|a: int| 0 <= a < i ==> #[trigger] cells@[a]@.len() == n,
            forall|a: int, b: int|
                0 <= a < i && 0 <= b < n ==> #[trigger] cells@[a]@[b] == entry(ids@, js@, a, b),
        decreases n - i,
    {
        let mut line: Vec<Ratio> = Vec::new();
        let mut j: usize = 0;
        while j < n
            invariant
                n == ids@.len(),
                complete(ids@, js@),
                i < n,
                j <= n,
                line@.len() == j,
                forall|b: int| 0 <= b < j ==> #[trigger] line@[b] == entry(ids@, js@, i as int, b),
            decreases n - j,
        {
            line.push(make_entry(ids, js, i, j));
            j += 1;
        }
        cells.push(line);
        i += 1;
    }
    let m = ComparisonMatrix { cells };
    assert(m@ =~~= entries(ids@, js@));
    assert(m.built_from(ids@, js@));
    Ok(m)
}

} // verus!
