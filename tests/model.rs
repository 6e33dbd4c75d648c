use lsys_pairwise::cfg::Config;
use lsys_pairwise::model::{Likert5, Metric};
use lsys_pairwise::serde_enum::{Deserializer, Error};

#[test]
fn likert_accepts_only_five_points() {
    for v in -2..=2 {
        assert_eq!(Likert5::new(v).unwrap().value(), v);
    }
    assert!(Likert5::new(3).is_err());
    assert!(Likert5::new(-3).is_err());
    assert!(Likert5::new(i8::MIN).is_err());
}

#[test]
fn likert_from_wide_integers() {
    assert_eq!(Likert5::from_i64(-1).unwrap().value(), -1);
    assert_eq!(Likert5::from_i64(258).unwrap().value(), 2);
    assert!(Likert5::from_i64(300).is_err());
    assert_eq!(Likert5::from_u64(2).unwrap().value(), 2);
    assert!(Likert5::from_u64(3).is_err());
    assert!(Likert5::from_u64(258).is_err());
}

#[test]
fn deserializer_takes_the_whole_input_once() {
    let mut d = Deserializer::new("pleasing");
    assert_eq!(d.parse_string(), Ok("pleasing"));
    assert_eq!(d.parse_string(), Err(Error::EmptyString));
    let mut e = Deserializer::new("");
    assert_eq!(e.parse_string(), Err(Error::EmptyString));
}

#[test]
fn error_descriptions() {
    assert_eq!(Error::NotEnum.description(), "not an enum");
    assert_eq!(Error::EmptyString.description(), "empty string");
    assert_eq!(Error::Message("bad".to_string()).description(), "bad");
}

#[test]
fn config_defaults_to_localhost() {
    assert_eq!(Config::with_host(None).db.host, "localhost");
    assert_eq!(Config::with_host(Some("db.example".to_string())).db.host, "db.example");
}

#[test]
fn metric_names_round_trip() {
    assert_eq!(Metric::Realistic.name(), "realistic");
    assert_eq!(Metric::Pleasing.name(), "pleasing");
    assert_eq!(Metric::from_name(&"realistic".to_string()), Some(Metric::Realistic));
    assert_eq!(Metric::from_name(&"pleasing".to_string()), Some(Metric::Pleasing));
    assert_eq!(Metric::from_name(&"Pleasing".to_string()), None);
    assert_eq!(Metric::from_name(&String::new()), None);
}
