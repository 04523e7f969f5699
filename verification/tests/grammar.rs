use rulecore::action::{parse_action, ActionError, LhsValueAction};
use rulecore::decode::DecodeError;
use rulecore::rule::{CountOfRule, Counter, CourseRule, Rule};
use rulecore::traits::{PrettyPrint, RuleTools, Validate};
use rulecore::value::{parse_wrapped_text, Literal, Operator, WrappedValue};
use rulecore::yaml::{rule_from_yaml, rule_to_yaml, rules_from_yaml, rules_to_yaml};

#[test]
fn negation_law() {
    assert_eq!(
        parse_wrapped_text("100"),
        WrappedValue::EqualTo(Literal::Integer(100)),
    );
    assert_eq!(
        parse_wrapped_text("! MATH"),
        WrappedValue::NotEqualTo(Literal::Str("MATH".to_string())),
    );
}

#[test]
fn action_law() {
    let a = parse_action("count < 2").unwrap();
    assert_eq!(
        a,
        LhsValueAction {
            lhs: Literal::Count,
            op: Some(Operator::LessThan),
            rhs: Some(Literal::Integer(2)),
        },
    );
    let b = parse_action("a < b").unwrap();
    assert_eq!(
        b,
        LhsValueAction {
            lhs: Literal::Str("a".to_string()),
            op: Some(Operator::LessThan),
            rhs: Some(Literal::Str("b".to_string())),
        },
    );
}

#[test]
fn action_errors() {
    assert_eq!(parse_action(""), Err(ActionError::EmptyInput(String::new())));
    assert_eq!(parse_action("   "), Err(ActionError::EmptyInput("   ".to_string())));
    assert_eq!(
        parse_action("< 2"),
        Err(ActionError::MissingOperand("< 2".to_string())),
    );
}

#[test]
fn arity_law() {
    let one = rule_from_yaml("---\nboth:\n  - ASIAN 101");
    assert!(matches!(one, Err(DecodeError::WrongArity(_, 1))));

    let three = rule_from_yaml("---\nboth:\n  - A\n  - B\n  - C");
    assert!(matches!(three, Err(DecodeError::WrongArity(_, 3))));

    let two = rule_from_yaml("---\nboth:\n  - A\n  - B");
    assert!(two.is_ok());

    let one_either = rule_from_yaml("---\neither:\n  - ASIAN 101");
    assert!(matches!(one_either, Err(DecodeError::WrongArity(_, 1))));
}

#[test]
fn schema_strictness() {
    let cases = vec![
        "---\ncourse: A\nextra: 1",
        "---\nrequirement: A\nextra: 1",
        "---\ncount: 1\nof: [A]\nextra: 1",
        "---\nboth: [A, B]\nextra: 1",
        "---\neither: [A, B]\nextra: 1",
        "---\ngiven: courses\nwhat: courses\ndo: count < 2\nextra: 1",
        "---\ndo: count < 2\nextra: 1",
    ];
    for case in cases {
        let r = rule_from_yaml(case);
        assert!(
            matches!(r, Err(DecodeError::UnknownField(ref k)) if k == "extra"),
            "case did not fail on the extra field: {}",
            case,
        );
    }
}

#[test]
fn decode_errors() {
    assert!(matches!(rule_from_yaml("- ["), Err(DecodeError::Syntax(_))));
    assert!(matches!(rule_from_yaml("---\n- A"), Err(DecodeError::Unrecognized(_))));
    assert!(matches!(
        rule_from_yaml("---\ncount: 1"),
        Err(DecodeError::MissingField(ref k)) if k == "of",
    ));
    assert!(matches!(
        rule_from_yaml("---\ngiven: courses\nwhat: courses"),
        Err(DecodeError::MissingField(ref k)) if k == "do",
    ));
    assert!(matches!(
        rule_from_yaml("---\ndo: ''"),
        Err(DecodeError::Action(ActionError::EmptyInput(_))),
    ));
    assert!(matches!(rule_from_yaml("---\nunknownthing: 1"), Err(DecodeError::Unrecognized(_))));
}

#[test]
fn round_trip_canonical() {
    let data = r#"---
- ASIAN 101
- {course: ASIAN 102, year: 2014, semester: Fall}
- {count: 2, of: [A, B, C]}
- {both: [A, B]}
- {given: save, save: Names, what: courses, where: {dept: "!MATH"}, limit: [{where: {level: 100}, at_most: 1}], do: count >= 1}
- {do: {lhs: X, op: <, rhs: Y}}
"#;
    let rules: Vec<Rule> = rules_from_yaml(data).unwrap();
    let canonical = rules_to_yaml(&rules);
    let again: Vec<Rule> = rules_from_yaml(&canonical).unwrap();
    assert_eq!(again, rules);
    let canonical2 = rules_to_yaml(&again);
    assert_eq!(canonical, canonical2);
}

#[test]
fn count_of_collapse_and_join() {
    let one = Rule::CountOf(CountOfRule {
        count: Counter::Number(1),
        of: vec![Rule::Course(CourseRule { course: "ASIAN 101".to_string(), ..Default::default() })],
    });
    assert_eq!(one.print().unwrap(), "take ASIAN 101");

    let two = rule_from_yaml("---\n{count: 2, of: [A, B, C]}").unwrap();
    assert_eq!(
        two.print().unwrap(),
        "complete two of the following: take A; take B; take C",
    );

    let all = rule_from_yaml("---\n{count: all, of: [A, B]}").unwrap();
    assert_eq!(
        all.print().unwrap(),
        "complete all of the following: take A; take B",
    );
}

#[test]
fn render_given_phrases() {
    let r = rule_from_yaml("---\n{given: courses, what: courses, do: count >= 1}").unwrap();
    assert_eq!(r.print().unwrap(), "have at least one course");

    let r = rule_from_yaml("---\n{given: courses, what: courses, do: count == 12}").unwrap();
    assert_eq!(r.print().unwrap(), "have exactly 12 courses");

    let r = rule_from_yaml("---\n{given: courses, what: courses, do: count != 2}").unwrap();
    assert!(r.print().is_err());
}

#[test]
fn save_rule_query() {
    let saved = rule_from_yaml(
        "---\n{both: [{course: A}, {course: B}]}",
    )
    .unwrap();
    assert!(!saved.has_save_rule());

    let nested = rule_from_yaml(
        "---\ncount: 1\nof:\n  - {given: save, save: Names, what: courses, do: count >= 1}\n  - B",
    )
    .unwrap();
    assert!(nested.has_save_rule());
}

#[test]
fn children_traversal() {
    let r = rule_from_yaml("---\n{count: 2, of: [A, B, C]}").unwrap();
    let children = r.iter_children();
    assert_eq!(children.len(), 3);
    assert!(r.validate().is_ok());

    let leaf = rule_from_yaml("---\nASIAN 101").unwrap();
    assert_eq!(leaf.iter_children().len(), 0);
}

#[test]
fn clause_key_order_is_canonical() {
    let a = rule_from_yaml(
        "---\n{given: courses, what: courses, where: {level: \"100\", dept: MATH}, do: count >= 1}",
    )
    .unwrap();
    let b = rule_from_yaml(
        "---\n{given: courses, what: courses, where: {dept: MATH, level: \"100\"}, do: count >= 1}",
    )
    .unwrap();
    assert_eq!(a, b);
    assert_eq!(rule_to_yaml(&a), rule_to_yaml(&b));
}
