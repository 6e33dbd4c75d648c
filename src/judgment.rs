//! Samples, judgments and the errors of the engine.
use vstd::prelude::*;

verus! {

/// Identifier of one sample: the twelve bytes of its storage id, read as a
/// big-endian number.
#[derive(Clone, Copy, Debug, PartialEq, Eq, Structural)]
pub struct SampleId(pub u128);

/// Two samples, labelled "a" and "b".
#[derive(Clone, Copy, Debug, PartialEq, Eq, Structural)]
pub struct Pair {
    pub a: SampleId,
    pub b: SampleId,
}

/// A preference ratio written as the fraction `num / den`. A ratio is valid
/// when it is positive with a positive denominator; `1/1` means equal
/// preference.
#[derive(Clone, Copy, Debug, PartialEq, Eq, Structural)]
pub struct Ratio {
    pub num: i32,
    pub den: i32,
}

/// One participant's recorded preference, under one metric, of `a` over `b`.
#[derive(Clone, Copy, Debug, PartialEq, Eq, Structural)]
pub struct Judgment {
    pub a: SampleId,
    pub b: SampleId,
    pub ratio: Ratio,
}

/// Why a request to the engine could not be served.
#[derive(Clone, Copy, Debug, PartialEq, Eq, Structural)]
pub enum EngineError {
    /// A sample of the pair is not in the task's sample set.
    UnknownSample,
    /// A judgment compares a sample with itself.
    SameSample,
    /// The pair already has a judgment, in either direction.
    DuplicateJudgment,
    /// The ratio is not a positive fraction.
    InvalidRatio,
    /// The pair of the samples at positions `col < row` has no judgment.
    MissingJudgment { col: usize, row: usize },
    /// The judgment store failed.
    StorageFailure,
}

impl Ratio {
    pub open spec fn valid(self) -> bool {
        self.num > 0 && self.den > 0
    }

    /// Whether the ratio is a positive fraction.
    pub fn is_valid(&self) -> (r: bool)
        ensures
            r == self.valid(),
    {
        self.num > 0 && self.den > 0
    }

    /// The multiplicative inverse `den / num`.
    pub open spec fn spec_reciprocal(self) -> Ratio {
        Ratio { num: self.den, den: self.num }
    }

    /// The multiplicative inverse `den / num`.
    pub fn reciprocal(&self) -> (r: Ratio)
        ensures
            r == self.spec_reciprocal(),
    {
        Ratio { num: self.den, den: self.num }
    }
}

impl Pair {
    /// The same samples with the labels exchanged.
    pub open spec fn spec_swapped(self) -> Pair {
        Pair { a: self.b, b: self.a }
    }

    /// Whether both pairs hold the same two samples, labelled either way.
    pub open spec fn same_samples(self, other: Pair) -> bool {
        other == self || other == self.spec_swapped()
    }

    /// The same samples with the labels exchanged.
    pub fn swapped(&self) -> (r: Pair)
        ensures
            r == self.spec_swapped(),
    {
        Pair { a: self.b, b: self.a }
    }
}

/// Whether `js` holds a judgment of `x` over `y`.
pub open spec fn judged_as(js: Seq<Judgment>, x: SampleId, y: SampleId) -> bool {
    exists|t: int| 0 <= t < js.len() && js[t].a == x && js[t].b == y
}

/// Whether `js` holds a judgment of the pair `{x, y}`, in either direction.
pub open spec fn judged(js: Seq<Judgment>, x: SampleId, y: SampleId) -> bool {
    judged_as(js, x, y) || judged_as(js, y, x)
}

/// Whether no sample occurs twice in `ids`.
pub open spec fn distinct_ids(ids: Seq<SampleId>) -> bool {
    forall|i: int, j: int| 0 <= i < j < ids.len() ==> ids[i] != ids[j]
}

/// Whether `ids` holds `x`.
pub open spec fn in_set(ids: Seq<SampleId>, x: SampleId) -> bool {
    exists|i: int| 0 <= i < ids.len() && ids[i] == x
}

/// Position of the first judgment of `x` over `y` in `js`, if any.
pub fn find_judgment(js: &Vec<Judgment>, x: SampleId, y: SampleId) -> (r: Option<usize>)
    ensures
        r is None <==> !judged_as(js@, x, y),
        r matches Some(t) ==> is_first(js@, x, y, t as int) && t == first_index(js@, x, y),
{
    let mut t: usize = 0;
    while t < js.len()
        invariant
            t <= js@.len(),
            forall|u: int| 0 <= u < t ==> !(js@[u].a == x && js@[u].b == y),
        decreases js@.len() - t,
    {
        if js[t].a == x && js[t].b == y {
            proof {
                assert(is_first(js@, x, y, t as int));
                let c = first_index(js@, x, y);
                assert(is_first(js@, x, y, c));
                assert(c == t);
            }
            return Some(t);
        }
        t += 1;
    }
    None
}

/// Whether position `t` holds the first judgment of `x` over `y` in `js`.
pub open spec fn is_first(js: Seq<Judgment>, x: SampleId, y: SampleId, t: int) -> bool {
    &&& 0 <= t < js.len()
    &&& js[t].a == x && js[t].b == y
    &&& forall|u: int| 0 <= u < t ==> !(js[u].a == x && js[u].b == y)
}

/// Position of the first judgment of `x` over `y` in `js`.
pub open spec fn first_index(js: Seq<Judgment>, x: SampleId, y: SampleId) -> int {
    choose|t: int| is_first(js, x, y, t)
}

proof fn lemma_first_below(js: Seq<Judgment>, x: SampleId, y: SampleId, k: int)
    requires
        0 <= k < js.len(),
        js[k].a == x && js[k].b == y,
    ensures
        exists|t: int| is_first(js, x, y, t),
    decreases k,
{
    if exists|u: int| 0 <= u < k && js[u].a == x && js[u].b == y {
        let u = choose|u: int| 0 <= u < k && js[u].a == x && js[u].b == y;
        lemma_first_below(js, x, y, u);
    } else {
        assert(is_first(js, x, y, k));
    }
}

/// When `js` judges `x` over `y`, `first_index` is the position of the first
/// such judgment.
pub proof fn lemma_first_index(js: Seq<Judgment>, x: SampleId, y: SampleId)
    requires
        judged_as(js, x, y),
    ensures
        is_first(js, x, y, first_index(js, x, y)),
{
    let k = choose|t: int| 0 <= t < js.len() && js[t].a == x && js[t].b == y;
    lemma_first_below(js, x, y, k);
}

/// The preference of `x` over `y`: the ratio of the first judgment of `x`
/// over `y`, else the reciprocal of that of the first judgment of `y` over
/// `x`, else none.
pub open spec fn lookup_ratio(js: Seq<Judgment>, x: SampleId, y: SampleId) -> Option<Ratio> {
    if judged_as(js, x, y) {
        Some(js[first_index(js, x, y)].ratio)
    } else if judged_as(js, y, x) {
        Some(js[first_index(js, y, x)].ratio.spec_reciprocal())
    } else {
        None
    }
}

/// Whether `js` judges the pair `{x, y}` in either direction.
pub fn is_judged(js: &Vec<Judgment>, x: SampleId, y: SampleId) -> (r: bool)
    ensures
        r == judged(js@, x, y),
{
    find_judgment(js, x, y).is_some() || find_judgment(js, y, x).is_some()
}

/// The preference of `x` over `y`, as `lookup_ratio` says.
pub fn lookup(js: &Vec<Judgment>, x: SampleId, y: SampleId) -> (r: Option<Ratio>)
    ensures
        r == lookup_ratio(js@, x, y),
{
    match find_judgment(js, x, y) {
        Some(t) => Some(js[t].ratio),
        None => match find_judgment(js, y, x) {
            Some(t) => Some(js[t].ratio.reciprocal()),
            None => None,
        },
    }
}

/// Whether `ids` holds `x`.
pub fn contains_sample(ids: &Vec<SampleId>, x: SampleId) -> (r: bool)
    ensures
        r == in_set(ids@, x),
{
    let mut i: usize = 0;
    while i < ids.len()
        invariant
            i <= ids@.len(),
            forall|k: int| 0 <= k < i ==> ids@[k] != x,
        decreases ids@.len() - i,
    {
        if ids[i] == x {
            return true;
        }
        i += 1;
    }
    false
}

} // verus!
