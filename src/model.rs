//! Participant-facing data: metrics, demographics and questionnaire answers.
use vstd::prelude::*;

verus! {

/// Gender a participant reports on registration.
#[derive(Clone, Copy, Debug, PartialEq, Eq, Structural)]
pub enum Gender {
    Male,
    Female,
    Other,
}

/// A named axis of preference. Judgments are collected and aggregated
/// independently for each metric.
#[derive(Clone, Copy, Debug, PartialEq, Eq, Structural)]
pub enum Metric {
    Realistic,
    Pleasing,
}

/// The stored name of a metric.
pub open spec fn metric_name(m: Metric) -> Seq<char> {
    match m {
        Metric::Realistic => "realistic"@,
        Metric::Pleasing => "pleasing"@,
    }
}

impl Metric {
    /// The stored name of the metric.
    pub fn name(&self) -> (r: String)
        ensures
            r@ == metric_name(*self),
    {
        match self {
            Metric::Realistic => String::from_str("realistic"),
            Metric::Pleasing => String::from_str("pleasing"),
        }
    }

    /// The metric stored under `name`, if any.
    pub fn from_name(name: &String) -> (r: Option<Metric>)
        ensures
            r matches Some(m) ==> metric_name(m) == name@,
            r is None ==> forall|m: Metric| metric_name(m) != name@,
    {
        proof {
            reveal_strlit("realistic");
            reveal_strlit("pleasing");
        }
        if *name == String::from_str("realistic") {
            Some(Metric::Realistic)
        } else if *name == String::from_str("pleasing") {
            Some(Metric::Pleasing)
        } else {
            None
        }
    }
}

/// Highest completed level of education a participant reports.
#[derive(Clone, Copy, Debug, PartialEq, Eq, Structural)]
pub enum Education {
    NoFormal,
    Primary,
    Secondary,
    Bachelor,
    Master,
    Doctoral,
}

/// An answer on a five-point Likert scale, from -2 (strongly disagree) to 2
/// (strongly agree).
#[derive(Clone, Copy, Debug)]
pub struct Likert5 {
    selected: i8,
}

/// Whether `v` is a point of the five-point scale.
pub open spec fn likert_in_range(v: int) -> bool {
    -2 <= v <= 2
}

impl View for Likert5 {
    type V = int;

    closed spec fn view(&self) -> int {
        self.selected as int
    }
}

impl Likert5 {
    #[verifier::type_invariant]
    spec fn inv(&self) -> bool {
        likert_in_range(self.selected as int)
    }

    /// The answer `selected`, or `Err(())` when it lies outside -2..=2.
    pub fn new(selected: i8) -> (r: Result<Likert5, ()>)
        ensures
            r is Ok <==> likert_in_range(selected as int),
            r matches Ok(l) ==> l@ == selected as int,
    {
        if selected > 2 || selected < -2 {
            Err(())
        } else {
            Ok(Likert5 { selected })
        }
    }

    /// The answer from a signed integer: the value is first narrowed to `i8`
    /// (keeping its low eight bits), then checked as by `new`.
    pub fn from_i64(value: i64) -> (r: Result<Likert5, ()>)
        ensures
            r is Ok <==> likert_in_range((value as i8) as int),
            r matches Ok(l) ==> l@ == (value as i8) as int,
    {
        Likert5::new(value as i8)
    }

    /// The answer from an unsigned integer: values above `i8::MAX` are
    /// rejected, the rest are checked as by `new`.
    pub fn from_u64(value: u64) -> (r: Result<Likert5, ()>)
        ensures
            r is Ok <==> value <= 2,
            r matches Ok(l) ==> l@ == value as int,
    {
        if value > 127 {
            return Err(());
        }
        Likert5::new(value as i8)
    }

    /// The selected point, between -2 and 2.
    pub fn value(&self) -> (r: i8)
        ensures
            r as int == self@,
            likert_in_range(r as int),
    {
        proof {
            use_type_invariant(self);
        }
        self.selected
    }
}

/// Questionnaire answered after the judging is done.
#[derive(Clone, Debug)]
pub struct PostQuestionnaire {
    pub ranking_agree: Likert5,
    pub disagree_why: Option<String>,
    pub differentiates: String,
    pub comments: Option<String>,
}

/// Questionnaire answered before the judging starts.
#[derive(Clone, Copy, Debug)]
pub struct PreQuestionnaire {
    pub plant_work: Likert5,
    pub plant_like: Likert5,
    pub video_game: Likert5,
}

/// The browser a participant used.
#[derive(Clone, Debug)]
pub struct Browser {
    pub name: String,
    pub version: String,
}

} // verus!
