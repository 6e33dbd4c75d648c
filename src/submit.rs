//! Accepting a new judgment.
use vstd::prelude::*;
use crate::judgment::{
    contains_sample, in_set, is_judged, judged, judged_as, EngineError, Judgment, Ratio, SampleId,
};

verus! {

/// The outcome of a submission of `ratio` for `a` over `b`, checked in this
/// order: both samples belong to the sample set, they differ, the pair has no
/// judgment yet in either direction, and the ratio is a positive fraction.
pub open spec fn submission_outcome(
    ids: Seq<SampleId>,
    js: Seq<Judgment>,
    a: SampleId,
    b: SampleId,
    ratio: Ratio,
) -> Result<Judgment, EngineError> {
    if !in_set(ids, a) || !in_set(ids, b) {
        Err(EngineError::UnknownSample)
    } else if a == b {
        Err(EngineError::SameSample)
    } else if judged(js, a, b) {
        Err(EngineError::DuplicateJudgment)
    } else if !ratio.valid() {
        Err(EngineError::InvalidRatio)
    } else {
        Ok(Judgment { a, b, ratio })
    }
}

/// A judgment of two known, distinct samples is rejected as a duplicate when
/// the pair is already judged the other way round, whatever its ratio.
pub proof fn lemma_reverse_is_duplicate(
    ids: Seq<SampleId>,
    js: Seq<Judgment>,
    a: SampleId,
    b: SampleId,
    ratio: Ratio,
)
    requires
        in_set(ids, a),
        in_set(ids, b),
        a != b,
        judged_as(js, b, a),
    ensures
        submission_outcome(ids, js, a, b, ratio) == Err::<Judgment, EngineError>(
            EngineError::DuplicateJudgment,
        ),
{
}

/// A judgment of two known, distinct samples of a pair not judged yet is
/// rejected as an invalid ratio when its ratio is zero or negative, or has a
/// denominator that is not positive.
pub proof fn lemma_non_positive_ratio_rejected(
    ids: Seq<SampleId>,
    js: Seq<Judgment>,
    a: SampleId,
    b: SampleId,
    ratio: Ratio,
)
    requires
        in_set(ids, a),
        in_set(ids, b),
        a != b,
        !judged(js, a, b),
        ratio.num <= 0 || ratio.den <= 0,
    ensures
        submission_outcome(ids, js, a, b, ratio) == Err::<Judgment, EngineError>(
            EngineError::InvalidRatio,
        ),
{
}

/// Checks a participant's judgment of `a` over `b` against the sample set
/// `ids` and the participant's judgments `js` under the same metric, and
/// returns the judgment to record.
pub fn check_judgment(
    ids: &Vec<SampleId>,
    js: &Vec<Judgment>,
    a: SampleId,
    b: SampleId,
    ratio: Ratio,
) -> (r: Result<Judgment, EngineError>)
    ensures
        r == submission_outcome(ids@, js@, a, b, ratio),
{
    if !contains_sample(ids, a) || !contains_sample(ids, b) {
        Err(EngineError::UnknownSample)
    } else if a == b {
        Err(EngineError::SameSample)
    } else if is_judged(js, a, b) {
        Err(EngineError::DuplicateJudgment)
    } else if !ratio.is_valid() {
        Err(EngineError::InvalidRatio)
    } else {
        Ok(Judgment { a, b, ratio })
    }
}

/// The error to report when the store refuses to insert a judgment that
/// `check_judgment` accepted: a refusal for a duplicate key means another
/// submission of the same pair got there first.
pub fn insert_refused(duplicate_key: bool) -> (r: EngineError)
    ensures
        duplicate_key ==> r == EngineError::DuplicateJudgment,
        !duplicate_key ==> r == EngineError::StorageFailure,
{
    if duplicate_key {
        EngineError::DuplicateJudgment
    } else {
        EngineError::StorageFailure
    }
}

} // verus!
