use rulecore::value::{Clause, Limiter, WrappedValue};
use rulecore::yaml::{limiter_from_yaml, limiter_to_yaml};

#[test]
fn serialize_level100() {
    let mut clause = Clause::new();
    clause.insert("level".into(), "100".parse::<WrappedValue>().unwrap());

    let data = Limiter { filter: clause, at_most: 2 };

    let expected = r#"---
where:
  level:
    Single:
      EqualTo:
        Integer: 100
at_most: 2"#;

    let actual = limiter_to_yaml(&data);

    assert_eq!(actual, expected);
}

#[test]
fn serialize_not_math() {
    let mut clause = Clause::new();
    clause.insert("department".into(), "! MATH".parse::<WrappedValue>().unwrap());

    let data = Limiter { filter: clause, at_most: 2 };

    let expected = r#"---
where:
  department:
    Single:
      NotEqualTo:
        String: MATH
at_most: 2"#;

    let actual = limiter_to_yaml(&data);

    assert_eq!(actual, expected);
}

#[test]
fn deserialize_level100() {
    let mut clause = Clause::new();
    clause.insert("level".into(), "100".parse::<WrappedValue>().unwrap());

    let expected = Limiter { filter: clause, at_most: 2 };

    let data = r#"---
where:
  level: "100"
at_most: 2"#;

    let actual: Limiter = limiter_from_yaml(data).unwrap();

    assert_eq!(actual, expected);
}
