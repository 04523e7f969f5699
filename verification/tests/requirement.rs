use rulecore::requirement::Requirement;
use rulecore::rule::{RequirementRule, Rule};
use rulecore::yaml::{requirement_from_yaml, requirement_to_yaml};

#[test]
fn requirement_serialize() {
    let data = Requirement {
        name: String::from("Name"),
        message: None,
        department_audited: false,
        result: Rule::Requirement(RequirementRule {
            requirement: String::from("name"),
            optional: false,
        }),
        contract: false,
        save: vec![],
        requirements: vec![],
    };
    let expected = "---\nname: Name\nmessage: ~\ndepartment_audited: false\nresult:\n  requirement: name\n  optional: false\ncontract: false\nsave: []\nrequirements: []";

    let actual = requirement_to_yaml(&data);
    assert_eq!(actual, expected);
}

#[test]
fn requirement_deserialize() {
    let data = "---\nname: Name\nmessage: ~\ndepartment_audited: false\nresult:\n  requirement: name\n  optional: false\ncontract: false\nsave: []\nrequirements: []";
    let expected = Requirement {
        name: String::from("Name"),
        message: None,
        department_audited: false,
        result: Rule::Requirement(RequirementRule {
            requirement: String::from("name"),
            optional: false,
        }),
        contract: false,
        save: vec![],
        requirements: vec![],
    };

    let actual: Requirement = requirement_from_yaml(data).unwrap();

    assert_eq!(actual, expected);
}

#[test]
fn deserialize_with_defaults() {
    let data = "---\nname: Name\nmessage: ~\nresult: {requirement: name, optional: false}\n";
    let expected = Requirement {
        name: String::from("Name"),
        message: None,
        department_audited: false,
        result: Rule::Requirement(RequirementRule {
            requirement: String::from("name"),
            optional: false,
        }),
        contract: false,
        save: vec![],
        requirements: vec![],
    };

    let actual: Requirement = requirement_from_yaml(data).unwrap();

    assert_eq!(actual, expected);
}
