use vstd::prelude::*;
use crate::node::{node_view, Node, NodeV};
use crate::decode::{
    decode_err_view, decode_rule, decode_rule_list, decode_limiter, spec_decode_limiter,
    spec_decode_rule, spec_decode_rule_list, DecodeError, DecodeErrV,
};
use crate::encode::{
    encode_limiter, encode_rule, encode_rules, spec_encode_limiter, spec_encode_rule,
    spec_encode_rule_list,
};
use crate::requirement::{
    decode_requirement, encode_requirement, requirement_view, requirement_wf,
    spec_decode_requirement, spec_encode_requirement, Requirement,
};
use crate::rule::{limiter_list_view, rule_list_view, rule_list_wf, rule_view, rule_wf, Rule};
use crate::value::{limiter_view, limiter_wf, Limiter};

verus! {

/// The document value type of the serde_yaml crate, opaque here: the
/// conversion wrappers below carry such values through.
#[verifier::external_type_specification]
#[verifier::external_body]
pub struct ExYamlValue(serde_yaml::Value);

/// The tree, if any, that parsing a document text yields. The parse
/// is deterministic: the tree depends on the text alone.
pub uninterp spec fn yaml_parse(s: Seq<char>) -> Option<NodeV>;

/// The canonical document text of a tree. Emission is deterministic:
/// the text depends on the tree alone.
pub uninterp spec fn yaml_emit(n: NodeV) -> Seq<char>;

/// Relies on serde_yaml::from_str, which parses a text into a tree of
/// nulls, booleans, numbers, texts, sequences and mappings, keeping
/// mapping entries in document order; the result is a function of the
/// text alone. Documents holding numbers outside the signed 64-bit
/// range, or non-text mapping keys, are refused.
#[verifier::external_body]
pub fn parse_yaml(text: &str) -> (r: Option<Node>)
    ensures
        match r {
            Some(n) => yaml_parse(text@) == Some(node_view(n)),
            None => yaml_parse(text@) is None,
        },
{
    match serde_yaml::from_str::<serde_yaml::Value>(text) {
        Ok(v) => value_to_node(&v),
        Err(_) => None,
    }
}

/// Relies on serde_yaml::Value: each variant is converted to the
/// matching plain node, one arm per variant, moving fields only.
#[verifier::external_body]
fn value_to_node(v: &serde_yaml::Value) -> Option<Node> {
    match v {
        serde_yaml::Value::Null => Some(Node::Null),
        serde_yaml::Value::Bool(b) => Some(Node::Bool(*b)),
        serde_yaml::Value::Number(n) => n.as_i64().map(Node::Int),
        serde_yaml::Value::String(s) => Some(Node::Str(s.clone())),
        serde_yaml::Value::Sequence(items) => value_items_to_nodes(items).map(Node::List),
        serde_yaml::Value::Mapping(_) => value_entries_to_nodes(v).map(Node::Mapping),
    }
}

/// Relies on serde_yaml::Value: converts the items of a sequence.
#[verifier::external_body]
fn value_items_to_nodes(items: &Vec<serde_yaml::Value>) -> Option<Vec<Node>> {
    items.iter().map(value_to_node).collect::<Option<Vec<Node>>>()
}

/// Relies on serde_yaml::Value: converts a mapping's entries, keyed
/// by text; a non-text key refuses the document.
#[verifier::external_body]
fn value_entries_to_nodes(v: &serde_yaml::Value) -> Option<Vec<(String, Node)>> {
    match v {
        serde_yaml::Value::Mapping(m) => m
            .iter()
            .map(|(k, val)| match k {
                serde_yaml::Value::String(ks) => value_to_node(val).map(|nv| (ks.clone(), nv)),
                _ => None,
            })
            .collect(),
        _ => None,
    }
}

/// Relies on serde_yaml::to_string, which writes one document for a
/// tree of plain values, deterministically, keeping mapping entries
/// in their stored order.
#[verifier::external_body]
pub fn emit_yaml(n: &Node) -> (r: String)
    ensures
        r@ == yaml_emit(node_view(*n)),
{
    match serde_yaml::to_string(&node_to_value(n)) {
        Ok(s) => s,
        Err(_) => String::new(),
    }
}

/// Relies on serde_yaml::Value: each plain node becomes the matching
/// variant, one arm per variant, moving fields only.
#[verifier::external_body]
fn node_to_value(n: &Node) -> serde_yaml::Value {
    match n {
        Node::Null => serde_yaml::Value::Null,
        Node::Bool(b) => serde_yaml::Value::Bool(*b),
        Node::Int(i) => serde_yaml::Value::Number(serde_yaml::Number::from(*i)),
        Node::Str(s) => serde_yaml::Value::String(s.clone()),
        Node::List(items) => serde_yaml::Value::Sequence(items.iter().map(node_to_value).collect()),
        Node::Mapping(entries) => entries_to_value(entries),
    }
}

/// Relies on serde_yaml::Value: wraps plain entries back into a
/// mapping value with text keys.
#[verifier::external_body]
fn entries_to_value(entries: &Vec<(String, Node)>) -> serde_yaml::Value {
    serde_yaml::Value::Mapping(
        entries
            .iter()
            .map(|(k, v)| (serde_yaml::Value::String(k.clone()), node_to_value(v)))
            .collect(),
    )
}


/// A document text without its final line break, which the emitter
/// appends after the last scalar.
pub open spec fn strip_last_newline(s: Seq<char>) -> Seq<char> {
    if s.len() > 0 && s[s.len() - 1] == '\n' {
        s.drop_last()
    } else {
        s
    }
}

fn trim_trailing_newline(s: String) -> (r: String)
    ensures
        r@ == strip_last_newline(s@),
{
    let n = s.as_str().unicode_len();
    if n > 0 && s.as_str().get_char(n - 1) == '\n' {
        let t = s.as_str().substring_char(0, n - 1);
        proof {
            assert(t@ =~= s@.drop_last());
        }
        t.to_owned()
    } else {
        s
    }
}

/// Decodes one rule from document text.
pub fn rule_from_yaml(text: &str) -> (r: Result<Rule, DecodeError>)
    ensures
        match yaml_parse(text@) {
            None => r matches Err(e) && decode_err_view(e) == DecodeErrV::Syntax(text@),
            Some(nv) => match r {
                Ok(rule) => spec_decode_rule(nv) == Ok::<crate::rule::RuleV, DecodeErrV>(
                    rule_view(rule),
                ),
                Err(e) => spec_decode_rule(nv) == Err::<crate::rule::RuleV, DecodeErrV>(
                    decode_err_view(e),
                ),
            },
        },
{
    match parse_yaml(text) {
        None => Err(DecodeError::Syntax(text.to_owned())),
        Some(n) => decode_rule(&n),
    }
}

/// Decodes a document whose top level is a list of rules.
pub fn rules_from_yaml(text: &str) -> (r: Result<Vec<Rule>, DecodeError>)
    ensures
        match yaml_parse(text@) {
            None => r matches Err(e) && decode_err_view(e) == DecodeErrV::Syntax(text@),
            Some(nv) => match r {
                Ok(rules) => nv matches NodeV::List(items) && spec_decode_rule_list(
                    items,
                    Seq::empty(),
                ) == Ok::<Seq<crate::rule::RuleV>, DecodeErrV>(rule_list_view(rules@)),
                Err(e) => match nv {
                    NodeV::List(items) => spec_decode_rule_list(items, Seq::empty()) == Err::<
                        Seq<crate::rule::RuleV>,
                        DecodeErrV,
                    >(decode_err_view(e)),
                    _ => decode_err_view(e) == DecodeErrV::Unrecognized(nv),
                },
            },
        },
{
    match parse_yaml(text) {
        None => Err(DecodeError::Syntax(text.to_owned())),
        Some(n) => match n {
            Node::List(items) => decode_rule_list(&items),
            other => Err(DecodeError::Unrecognized(other)),
        },
    }
}

/// Decodes one limiter from document text.
pub fn limiter_from_yaml(text: &str) -> (r: Result<Limiter, DecodeError>)
    ensures
        match yaml_parse(text@) {
            None => r matches Err(e) && decode_err_view(e) == DecodeErrV::Syntax(text@),
            Some(nv) => match r {
                Ok(l) => spec_decode_limiter(nv) == Ok::<crate::value::LimiterV, DecodeErrV>(
                    limiter_view(l),
                ),
                Err(e) => spec_decode_limiter(nv) == Err::<crate::value::LimiterV, DecodeErrV>(
                    decode_err_view(e),
                ),
            },
        },
{
    match parse_yaml(text) {
        None => Err(DecodeError::Syntax(text.to_owned())),
        Some(n) => decode_limiter(&n),
    }
}

/// Decodes one requirement from document text.
pub fn requirement_from_yaml(text: &str) -> (r: Result<Requirement, DecodeError>)
    ensures
        match yaml_parse(text@) {
            None => r matches Err(e) && decode_err_view(e) == DecodeErrV::Syntax(text@),
            Some(nv) => match r {
                Ok(q) => spec_decode_requirement(nv) == Ok::<
                    crate::requirement::RequirementV,
                    DecodeErrV,
                >(requirement_view(q)),
                Err(e) => spec_decode_requirement(nv) == Err::<
                    crate::requirement::RequirementV,
                    DecodeErrV,
                >(decode_err_view(e)),
            },
        },
{
    match parse_yaml(text) {
        None => Err(DecodeError::Syntax(text.to_owned())),
        Some(n) => decode_requirement(&n),
    }
}

/// The canonical document text of one rule.
pub fn rule_to_yaml(r: &Rule) -> (out: String)
    requires
        rule_wf(rule_view(*r)),
    ensures
        out@ == strip_last_newline(yaml_emit(spec_encode_rule(rule_view(*r)))),
{
    let n = encode_rule(r);
    trim_trailing_newline(emit_yaml(&n))
}

/// The canonical document text of a list of rules.
pub fn rules_to_yaml(rs: &Vec<Rule>) -> (out: String)
    requires
        rule_list_wf(rule_list_view(rs@)),
    ensures
        out@ == strip_last_newline(yaml_emit(NodeV::List(spec_encode_rule_list(rule_list_view(rs@))))),
{
    let n = encode_rules(rs);
    trim_trailing_newline(emit_yaml(&n))
}

/// The canonical document text of one limiter.
pub fn limiter_to_yaml(l: &Limiter) -> (out: String)
    requires
        limiter_wf(limiter_view(*l)),
    ensures
        out@ == strip_last_newline(yaml_emit(spec_encode_limiter(limiter_view(*l)))),
{
    let n = encode_limiter(l);
    trim_trailing_newline(emit_yaml(&n))
}

/// The canonical document text of one requirement.
pub fn requirement_to_yaml(q: &Requirement) -> (out: String)
    requires
        requirement_wf(requirement_view(*q)),
    ensures
        out@ == strip_last_newline(yaml_emit(spec_encode_requirement(requirement_view(*q)))),
{
    let n = encode_requirement(q);
    trim_trailing_newline(emit_yaml(&n))
}

} // verus!
