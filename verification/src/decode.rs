use vstd::prelude::*;
use crate::node::{
    clone_node, entry_list_view, find_key, first_unknown, key_in, key_index,
    lemma_first_unknown_skip, lemma_key_index, map_get, node_list_view, node_view, str_eq, Node,
    NodeV,
};
use crate::value::{
    ckey_index, clause_has_key, clause_insert, clause_view, clause_wf, lemma_ckey_index,
    parse_wrapped_text,
    spec_parse_literal, spec_parse_wrapped, parse_literal_text, Clause, Limiter, LimiterV, Literal,
    ValueV, WrappedValue, WrappedValueV,
};
use crate::action::{
    action_err_view, action_view, parse_action, parse_op_token, spec_parse_action,
    spec_parse_op_token, ActionError, ActionErrV, ActionV, LhsValueAction,
};

verus! {

broadcast use vstd::std_specs::vec::group_vec_axioms;

/// Why a document node failed to decode; failures carry the offending
/// input.
#[derive(Debug, PartialEq)]
pub enum DecodeError {
    /// The text was not a well-formed document.
    Syntax(String),
    /// No rule shape matches the node.
    Unrecognized(Node),
    /// A closed mapping held a field outside its schema.
    UnknownField(String),
    /// A pair variant's list did not hold exactly two rules.
    WrongArity(String, usize),
    /// A required field was absent.
    MissingField(String),
    /// An embedded action text failed to parse.
    Action(ActionError),
}

#[verifier::ext_equal]
pub enum DecodeErrV {
    Syntax(Seq<char>),
    Unrecognized(NodeV),
    UnknownField(Seq<char>),
    WrongArity(Seq<char>, int),
    MissingField(Seq<char>),
    Action(ActionErrV),
}

pub open spec fn decode_err_view(e: DecodeError) -> DecodeErrV {
    match e {
        DecodeError::Syntax(s) => DecodeErrV::Syntax(s@),
        DecodeError::Unrecognized(n) => DecodeErrV::Unrecognized(node_view(n)),
        DecodeError::UnknownField(k) => DecodeErrV::UnknownField(k@),
        DecodeError::WrongArity(k, n) => DecodeErrV::WrongArity(k@, n as int),
        DecodeError::MissingField(k) => DecodeErrV::MissingField(k@),
        DecodeError::Action(a) => DecodeErrV::Action(action_err_view(a)),
    }
}

pub open spec fn strs_view(allowed: Seq<&str>) -> Seq<Seq<char>> {
    Seq::new(
        allowed.len(),
        |j: int| if 0 <= j < allowed.len() { allowed[j]@ } else { Seq::<char>::empty() },
    )
}

/// The first field of `entries` outside the `allowed` schema, if any.
#[verifier::loop_isolation(false)]
pub fn first_unknown_key(entries: &Vec<(String, Node)>, allowed: &Vec<&'static str>) -> (r: Option<
    String,
>)
    ensures
        ({
            let spec_r = first_unknown(entry_list_view(entries@), strs_view(allowed@));
            match r {
                Some(k) => spec_r == Some(k@),
                None => spec_r is None,
            }
        }),
{
    let ghost ev = entry_list_view(entries@);
    let ghost ks = strs_view(allowed@);
    proof {
        assert(ev.skip(0) =~= ev);
    }
    let mut i: usize = 0;
    while i < entries.len()
        invariant
            0 <= i <= entries@.len(),
            first_unknown(ev, ks) == first_unknown(ev.skip(i as int), ks),
        decreases entries@.len() - i,
    {
        let mut found: bool = false;
        let mut j: usize = 0;
        while j < allowed.len()
            invariant
                0 <= j <= allowed@.len(),
                i < entries@.len(),
                found ==> key_in(entries@[i as int].0@, ks),
                !found ==> forall|m: int| 0 <= m < j ==> ks[m] != entries@[i as int].0@,
            decreases allowed@.len() - j,
        {
            if str_eq(entries[i].0.as_str(), allowed[j]) {
                proof {
                    assert(ks[j as int] == entries@[i as int].0@);
                }
                found = true;
            }
            j += 1;
        }
        if !found {
            proof {
                assert(ev.skip(i as int).len() > 0);
                assert(ev.skip(i as int)[0] == ev[i as int]);
                assert(!key_in(ev[i as int].0, ks));
            }
            let key = entries[i].0.clone();
            return Some(key);
        }
        proof {
            assert(key_in(ev[i as int].0, ks));
            lemma_first_unknown_skip(ev, ks, i as int);
        }
        i += 1;
    }
    proof {
        assert(ev.skip(entries@.len() as int) =~= Seq::<(Seq<char>, NodeV)>::empty());
    }
    None
}

/// A tagged literal: `{Integer: n}` or `{String: s}`, with the bare
/// scalar forms accepted as shorthand.
pub open spec fn spec_decode_value_tagged(n: NodeV) -> Result<ValueV, DecodeErrV> {
    match n {
        NodeV::Int(i) => if 0 <= i <= i64::MAX {
            Ok(ValueV::Integer(i))
        } else {
            Err(DecodeErrV::Unrecognized(n))
        },
        NodeV::Str(s) => Ok(spec_parse_literal(s)),
        NodeV::Mapping(es) => if es.len() == 1 {
            if es[0].0 == "Integer"@ {
                match es[0].1 {
                    NodeV::Int(i) => if 0 <= i <= i64::MAX {
                        Ok(ValueV::Integer(i))
                    } else {
                        Err(DecodeErrV::Unrecognized(es[0].1))
                    },
                    _ => Err(DecodeErrV::Unrecognized(es[0].1)),
                }
            } else if es[0].0 == "String"@ {
                match es[0].1 {
                    NodeV::Str(s) => Ok(ValueV::Str(s)),
                    _ => Err(DecodeErrV::Unrecognized(es[0].1)),
                }
            } else {
                Err(DecodeErrV::Unrecognized(n))
            }
        } else {
            Err(DecodeErrV::Unrecognized(n))
        },
        _ => Err(DecodeErrV::Unrecognized(n)),
    }
}

pub fn decode_value_tagged(n: &Node) -> (r: Result<Literal, DecodeError>)
    ensures
        match r {
            Ok(v) => spec_decode_value_tagged(node_view(*n)) == Ok::<ValueV, DecodeErrV>(
                crate::value::value_view(v),
            ),
            Err(e) => spec_decode_value_tagged(node_view(*n)) == Err::<ValueV, DecodeErrV>(
                decode_err_view(e),
            ),
        },
{
    match n {
        Node::Int(i) => {
            if *i >= 0 {
                Ok(Literal::Integer(*i as u64))
            } else {
                Err(DecodeError::Unrecognized(clone_node(n)))
            }
        },
        Node::Str(s) => Ok(parse_literal_text(s.as_str())),
        Node::Mapping(entries) => {
            if entries.len() == 1 {
                proof {
                    assert(entry_list_view(entries@)[0] == (
                        entries@[0].0@,
                        node_view(entries@[0].1),
                    ));
                }
                if str_eq(entries[0].0.as_str(), "Integer") {
                    match &entries[0].1 {
                        Node::Int(i) => {
                            if *i >= 0 {
                                Ok(Literal::Integer(*i as u64))
                            } else {
                                Err(DecodeError::Unrecognized(clone_node(&entries[0].1)))
                            }
                        },
                        _ => Err(DecodeError::Unrecognized(clone_node(&entries[0].1))),
                    }
                } else if str_eq(entries[0].0.as_str(), "String") {
                    match &entries[0].1 {
                        Node::Str(s) => Ok(Literal::Str(s.clone())),
                        _ => Err(DecodeError::Unrecognized(clone_node(&entries[0].1))),
                    }
                } else {
                    Err(DecodeError::Unrecognized(clone_node(n)))
                }
            } else {
                Err(DecodeError::Unrecognized(clone_node(n)))
            }
        },
        _ => Err(DecodeError::Unrecognized(clone_node(n))),
    }
}

/// The `{EqualTo: v}` / `{NotEqualTo: v}` tagged predicate form.
pub open spec fn spec_decode_wrapped_tagged(n: NodeV) -> Result<WrappedValueV, DecodeErrV> {
    match n {
        NodeV::Mapping(es) => if es.len() == 1 {
            if es[0].0 == "EqualTo"@ {
                match spec_decode_value_tagged(es[0].1) {
                    Ok(v) => Ok(WrappedValueV::EqualTo(v)),
                    Err(e) => Err(e),
                }
            } else if es[0].0 == "NotEqualTo"@ {
                match spec_decode_value_tagged(es[0].1) {
                    Ok(v) => Ok(WrappedValueV::NotEqualTo(v)),
                    Err(e) => Err(e),
                }
            } else {
                Err(DecodeErrV::Unrecognized(n))
            }
        } else {
            Err(DecodeErrV::Unrecognized(n))
        },
        _ => Err(DecodeErrV::Unrecognized(n)),
    }
}

pub fn decode_wrapped_tagged(n: &Node) -> (r: Result<WrappedValue, DecodeError>)
    ensures
        match r {
            Ok(v) => spec_decode_wrapped_tagged(node_view(*n)) == Ok::<WrappedValueV, DecodeErrV>(
                crate::value::wrapped_view(v),
            ),
            Err(e) => spec_decode_wrapped_tagged(node_view(*n)) == Err::<WrappedValueV, DecodeErrV>(
                decode_err_view(e),
            ),
        },
{
    match n {
        Node::Mapping(entries) => {
            if entries.len() == 1 {
                proof {
                    assert(entry_list_view(entries@)[0] == (
                        entries@[0].0@,
                        node_view(entries@[0].1),
                    ));
                }
                if str_eq(entries[0].0.as_str(), "EqualTo") {
                    match decode_value_tagged(&entries[0].1) {
                        Ok(v) => Ok(WrappedValue::EqualTo(v)),
                        Err(e) => Err(e),
                    }
                } else if str_eq(entries[0].0.as_str(), "NotEqualTo") {
                    match decode_value_tagged(&entries[0].1) {
                        Ok(v) => Ok(WrappedValue::NotEqualTo(v)),
                        Err(e) => Err(e),
                    }
                } else {
                    Err(DecodeError::Unrecognized(clone_node(n)))
                }
            } else {
                Err(DecodeError::Unrecognized(clone_node(n)))
            }
        },
        _ => Err(DecodeError::Unrecognized(clone_node(n))),
    }
}

/// A single-value predicate in any accepted form: compact scalar
/// shorthand, the tagged form, or the canonical `{Single: ...}` form.
pub open spec fn spec_decode_wrapped(n: NodeV) -> Result<WrappedValueV, DecodeErrV> {
    match n {
        NodeV::Str(s) => Ok(spec_parse_wrapped(s)),
        NodeV::Int(i) => if 0 <= i <= i64::MAX {
            Ok(WrappedValueV::EqualTo(ValueV::Integer(i)))
        } else {
            Err(DecodeErrV::Unrecognized(n))
        },
        NodeV::Mapping(es) => if es.len() == 1 && es[0].0 == "Single"@ {
            spec_decode_wrapped_tagged(es[0].1)
        } else {
            spec_decode_wrapped_tagged(n)
        },
        _ => Err(DecodeErrV::Unrecognized(n)),
    }
}

pub fn decode_wrapped(n: &Node) -> (r: Result<WrappedValue, DecodeError>)
    ensures
        match r {
            Ok(v) => spec_decode_wrapped(node_view(*n)) == Ok::<WrappedValueV, DecodeErrV>(
                crate::value::wrapped_view(v),
            ),
            Err(e) => spec_decode_wrapped(node_view(*n)) == Err::<WrappedValueV, DecodeErrV>(
                decode_err_view(e),
            ),
        },
{
    match n {
        Node::Str(s) => Ok(parse_wrapped_text(s.as_str())),
        Node::Int(i) => {
            if *i >= 0 {
                Ok(WrappedValue::EqualTo(Literal::Integer(*i as u64)))
            } else {
                Err(DecodeError::Unrecognized(clone_node(n)))
            }
        },
        Node::Mapping(entries) => {
            proof {
                if entries@.len() > 0 {
                    assert(entry_list_view(entries@)[0] == (
                        entries@[0].0@,
                        node_view(entries@[0].1),
                    ));
                }
            }
            if entries.len() == 1 && str_eq(entries[0].0.as_str(), "Single") {
                decode_wrapped_tagged(&entries[0].1)
            } else {
                decode_wrapped_tagged(n)
            }
        },
        _ => Err(DecodeError::Unrecognized(clone_node(n))),
    }
}

/// Every predicate the decoder yields is well formed: its literal is
/// a bounded number or a text, never the count sentinel.
pub proof fn lemma_decode_wrapped_wf(n: NodeV)
    ensures
        spec_decode_wrapped(n) matches Ok(w) ==> crate::value::wrapped_wf(w),
{
    match n {
        NodeV::Str(s) => {
            let t = crate::value::spec_trim(s);
            crate::value::lemma_parse_int_bound(t, 0, 0);
            let u = crate::value::spec_trim(t.subrange(1, t.len() as int));
            crate::value::lemma_parse_int_bound(u, 0, 0);
        },
        NodeV::Mapping(es) => {
            if es.len() == 1 && es[0].0 == "Single"@ {
                lemma_decode_wrapped_tagged_wf(es[0].1);
            } else {
                lemma_decode_wrapped_tagged_wf(n);
            }
        },
        _ => {},
    }
}

proof fn lemma_decode_wrapped_tagged_wf(n: NodeV)
    ensures
        spec_decode_wrapped_tagged(n) matches Ok(w) ==> crate::value::wrapped_wf(w),
{
    match n {
        NodeV::Mapping(es) => {
            if es.len() == 1 {
                match es[0].1 {
                    NodeV::Str(s) => {
                        crate::value::lemma_parse_int_bound(s, 0, 0);
                    },
                    _ => {},
                }
            }
        },
        _ => {},
    }
}

/// Clause entries gathered into the canonical sorted key order;
/// the first occurrence of a key wins.
pub open spec fn spec_decode_clause_entries(
    es: Seq<(Seq<char>, NodeV)>,
    acc: Seq<(Seq<char>, WrappedValueV)>,
) -> Result<Seq<(Seq<char>, WrappedValueV)>, DecodeErrV>
    decreases es.len(),
{
    if es.len() == 0 {
        Ok(acc)
    } else {
        match spec_decode_wrapped(es[0].1) {
            Err(e) => Err(e),
            Ok(w) => spec_decode_clause_entries(
                es.drop_first(),
                if ckey_index(acc, es[0].0) >= 0 {
                    acc
                } else {
                    clause_insert(acc, es[0].0, w)
                },
            ),
        }
    }
}

/// A clause node: a mapping from field names to predicates.
pub open spec fn spec_decode_clause(n: NodeV) -> Result<
    Seq<(Seq<char>, WrappedValueV)>,
    DecodeErrV,
> {
    match n {
        NodeV::Mapping(es) => spec_decode_clause_entries(es, Seq::empty()),
        _ => Err(DecodeErrV::Unrecognized(n)),
    }
}

#[verifier::loop_isolation(false)]
pub fn decode_clause_entries(entries: &Vec<(String, Node)>) -> (r: Result<Clause, DecodeError>)
    ensures
        match r {
            Ok(c) => spec_decode_clause_entries(entry_list_view(entries@), Seq::empty()) == Ok::<
                Seq<(Seq<char>, WrappedValueV)>,
                DecodeErrV,
            >(clause_view(c)),
            Err(e) => spec_decode_clause_entries(entry_list_view(entries@), Seq::empty()) == Err::<
                Seq<(Seq<char>, WrappedValueV)>,
                DecodeErrV,
            >(decode_err_view(e)),
        },
{
    let ghost ev = entry_list_view(entries@);
    let mut out = Clause::new();
    proof {
        assert(ev.skip(0) =~= ev);
        assert(clause_wf(clause_view(out)));
    }
    let mut i: usize = 0;
    while i < entries.len()
        invariant
            0 <= i <= entries@.len(),
            clause_wf(clause_view(out)),
            spec_decode_clause_entries(ev, Seq::empty()) == spec_decode_clause_entries(
                ev.skip(i as int),
                clause_view(out),
            ),
        decreases entries@.len() - i,
    {
        proof {
            assert(ev.skip(i as int).len() > 0);
            assert(ev.skip(i as int)[0] == ev[i as int]);
            assert(ev.skip(i as int).drop_first() =~= ev.skip(i as int + 1));
            assert(ev[i as int] == (entries@[i as int].0@, node_view(entries@[i as int].1)));
        }
        match decode_wrapped(&entries[i].1) {
            Err(e) => {
                return Err(e);
            },
            Ok(w) => {
                proof {
                    lemma_decode_wrapped_wf(node_view(entries@[i as int].1));
                }
                let ghost before = clause_view(out);
                if !out.contains_key(entries[i].0.as_str()) {
                    let key = entries[i].0.clone();
                    proof {
                        lemma_ckey_index(before, key@);
                        if ckey_index(before, key@) >= 0 {
                            assert(before[ckey_index(before, key@)].0 == key@);
                        }
                    }
                    out.insert(key, w);
                } else {
                    proof {
                        lemma_ckey_index(before, entries@[i as int].0@);
                        if ckey_index(before, entries@[i as int].0@) < 0 {
                            assert(!clause_has_key(before, entries@[i as int].0@));
                        }
                    }
                }
            },
        }
        i += 1;
    }
    proof {
        assert(ev.skip(entries@.len() as int) =~= Seq::<(Seq<char>, NodeV)>::empty());
    }
    Ok(out)
}

pub fn decode_clause(n: &Node) -> (r: Result<Clause, DecodeError>)
    ensures
        match r {
            Ok(c) => spec_decode_clause(node_view(*n)) == Ok::<
                Seq<(Seq<char>, WrappedValueV)>,
                DecodeErrV,
            >(clause_view(c)),
            Err(e) => spec_decode_clause(node_view(*n)) == Err::<
                Seq<(Seq<char>, WrappedValueV)>,
                DecodeErrV,
            >(decode_err_view(e)),
        },
{
    match n {
        Node::Mapping(entries) => decode_clause_entries(entries),
        _ => Err(DecodeError::Unrecognized(clone_node(n))),
    }
}

/// An optional text field: absent or null means none.
pub open spec fn spec_opt_str_field(es: Seq<(Seq<char>, NodeV)>, key: Seq<char>) -> Result<
    Option<Seq<char>>,
    DecodeErrV,
> {
    match map_get(es, key) {
        None => Ok(None),
        Some(NodeV::Null) => Ok(None),
        Some(NodeV::Str(s)) => Ok(Some(s)),
        Some(v) => Err(DecodeErrV::Unrecognized(v)),
    }
}

/// An optional whole-number field: absent or null means none.
pub open spec fn spec_opt_u64_field(es: Seq<(Seq<char>, NodeV)>, key: Seq<char>) -> Result<
    Option<u64>,
    DecodeErrV,
> {
    match map_get(es, key) {
        None => Ok(None),
        Some(NodeV::Null) => Ok(None),
        Some(NodeV::Int(i)) => if 0 <= i <= i64::MAX {
            Ok(Some(i as u64))
        } else {
            Err(DecodeErrV::Unrecognized(NodeV::Int(i)))
        },
        Some(v) => Err(DecodeErrV::Unrecognized(v)),
    }
}

/// An optional boolean field: absent or null means none.
pub open spec fn spec_opt_bool_field(es: Seq<(Seq<char>, NodeV)>, key: Seq<char>) -> Result<
    Option<bool>,
    DecodeErrV,
> {
    match map_get(es, key) {
        None => Ok(None),
        Some(NodeV::Null) => Ok(None),
        Some(NodeV::Bool(b)) => Ok(Some(b)),
        Some(v) => Err(DecodeErrV::Unrecognized(v)),
    }
}

pub fn opt_str_field(entries: &Vec<(String, Node)>, key: &'static str) -> (r: Result<
    Option<String>,
    DecodeError,
>)
    ensures
        match r {
            Ok(v) => spec_opt_str_field(entry_list_view(entries@), key@) == Ok::<
                Option<Seq<char>>,
                DecodeErrV,
            >(crate::rule::opt_str_view(v)),
            Err(e) => spec_opt_str_field(entry_list_view(entries@), key@) == Err::<
                Option<Seq<char>>,
                DecodeErrV,
            >(decode_err_view(e)),
        },
{
    let ghost ev = entry_list_view(entries@);
    match find_key(entries, key) {
        None => Ok(None),
        Some(i) => {
            proof {
                assert(ev[i as int] == (entries@[i as int].0@, node_view(entries@[i as int].1)));
            }
            match &entries[i].1 {
                Node::Null => Ok(None),
                Node::Str(s) => Ok(Some(s.clone())),
                other => Err(DecodeError::Unrecognized(clone_node(other))),
            }
        },
    }
}

pub fn opt_u64_field(entries: &Vec<(String, Node)>, key: &'static str) -> (r: Result<
    Option<u64>,
    DecodeError,
>)
    ensures
        match r {
            Ok(v) => spec_opt_u64_field(entry_list_view(entries@), key@) == Ok::<
                Option<u64>,
                DecodeErrV,
            >(v),
            Err(e) => spec_opt_u64_field(entry_list_view(entries@), key@) == Err::<
                Option<u64>,
                DecodeErrV,
            >(decode_err_view(e)),
        },
{
    let ghost ev = entry_list_view(entries@);
    match find_key(entries, key) {
        None => Ok(None),
        Some(i) => {
            proof {
                assert(ev[i as int] == (entries@[i as int].0@, node_view(entries@[i as int].1)));
            }
            match &entries[i].1 {
                Node::Null => Ok(None),
                Node::Int(v) => {
                    if *v >= 0 {
                        Ok(Some(*v as u64))
                    } else {
                        Err(DecodeError::Unrecognized(Node::Int(*v)))
                    }
                },
                other => Err(DecodeError::Unrecognized(clone_node(other))),
            }
        },
    }
}

pub fn opt_bool_field(entries: &Vec<(String, Node)>, key: &'static str) -> (r: Result<
    Option<bool>,
    DecodeError,
>)
    ensures
        match r {
            Ok(v) => spec_opt_bool_field(entry_list_view(entries@), key@) == Ok::<
                Option<bool>,
                DecodeErrV,
            >(v),
            Err(e) => spec_opt_bool_field(entry_list_view(entries@), key@) == Err::<
                Option<bool>,
                DecodeErrV,
            >(decode_err_view(e)),
        },
{
    let ghost ev = entry_list_view(entries@);
    match find_key(entries, key) {
        None => Ok(None),
        Some(i) => {
            proof {
                assert(ev[i as int] == (entries@[i as int].0@, node_view(entries@[i as int].1)));
            }
            match &entries[i].1 {
                Node::Null => Ok(None),
                Node::Bool(b) => Ok(Some(*b)),
                other => Err(DecodeError::Unrecognized(clone_node(other))),
            }
        },
    }
}

pub open spec fn limiter_keys() -> Seq<Seq<char>> {
    seq!["where"@, "at_most"@]
}

/// A limiter node: `{where: <clause>, at_most: <cap>}`, closed.
pub open spec fn spec_decode_limiter(n: NodeV) -> Result<LimiterV, DecodeErrV> {
    match n {
        NodeV::Mapping(es) => match first_unknown(es, limiter_keys()) {
            Some(k) => Err(DecodeErrV::UnknownField(k)),
            None => match map_get(es, "where"@) {
                None => Err(DecodeErrV::MissingField("where"@)),
                Some(wn) => match spec_decode_clause(wn) {
                    Err(e) => Err(e),
                    Ok(cl) => match map_get(es, "at_most"@) {
                        None => Err(DecodeErrV::MissingField("at_most"@)),
                        Some(NodeV::Int(i)) => if 0 <= i <= i64::MAX {
                            Ok(LimiterV { filter: cl, at_most: i as u64 })
                        } else {
                            Err(DecodeErrV::Unrecognized(NodeV::Int(i)))
                        },
                        Some(v) => Err(DecodeErrV::Unrecognized(v)),
                    },
                },
            },
        },
        _ => Err(DecodeErrV::Unrecognized(n)),
    }
}

pub fn decode_limiter(n: &Node) -> (r: Result<Limiter, DecodeError>)
    ensures
        match r {
            Ok(l) => spec_decode_limiter(node_view(*n)) == Ok::<LimiterV, DecodeErrV>(
                crate::value::limiter_view(l),
            ),
            Err(e) => spec_decode_limiter(node_view(*n)) == Err::<LimiterV, DecodeErrV>(
                decode_err_view(e),
            ),
        },
{
    match n {
        Node::Mapping(entries) => {
            let ghost ev = entry_list_view(entries@);
            let allowed: Vec<&'static str> = vec!["where", "at_most"];
            proof {
                assert(strs_view(allowed@) =~= limiter_keys());
            }
            match first_unknown_key(entries, &allowed) {
                Some(k) => Err(DecodeError::UnknownField(k)),
                None => {
                    match find_key(entries, "where") {
                        None => Err(DecodeError::MissingField(String::from_str("where"))),
                        Some(wi) => {
                            proof {
                                assert(ev[wi as int] == (
                                    entries@[wi as int].0@,
                                    node_view(entries@[wi as int].1),
                                ));
                            }
                            match decode_clause(&entries[wi].1) {
                                Err(e) => Err(e),
                                Ok(cl) => {
                                    match find_key(entries, "at_most") {
                                        None => Err(
                                            DecodeError::MissingField(String::from_str("at_most")),
                                        ),
                                        Some(ai) => {
                                            proof {
                                                assert(ev[ai as int] == (
                                                    entries@[ai as int].0@,
                                                    node_view(entries@[ai as int].1),
                                                ));
                                            }
                                            match &entries[ai].1 {
                                                Node::Int(v) => {
                                                    if *v >= 0 {
                                                        Ok(Limiter { filter: cl, at_most: *v as u64 })
                                                    } else {
                                                        Err(DecodeError::Unrecognized(Node::Int(*v)))
                                                    }
                                                },
                                                other => Err(
                                                    DecodeError::Unrecognized(clone_node(other)),
                                                ),
                                            }
                                        },
                                    }
                                },
                            }
                        },
                    }
                },
            }
        },
        _ => Err(DecodeError::Unrecognized(clone_node(n))),
    }
}

/// Limiters in document order.
pub open spec fn spec_decode_limiters(s: Seq<NodeV>, acc: Seq<LimiterV>) -> Result<
    Seq<LimiterV>,
    DecodeErrV,
>
    decreases s.len(),
{
    if s.len() == 0 {
        Ok(acc)
    } else {
        match spec_decode_limiter(s[0]) {
            Err(e) => Err(e),
            Ok(l) => spec_decode_limiters(s.drop_first(), acc.push(l)),
        }
    }
}

#[verifier::loop_isolation(false)]
pub fn decode_limiters(items: &Vec<Node>) -> (r: Result<Vec<Limiter>, DecodeError>)
    ensures
        match r {
            Ok(ls) => spec_decode_limiters(node_list_view(items@), Seq::empty()) == Ok::<
                Seq<LimiterV>,
                DecodeErrV,
            >(crate::rule::limiter_list_view(ls@)),
            Err(e) => spec_decode_limiters(node_list_view(items@), Seq::empty()) == Err::<
                Seq<LimiterV>,
                DecodeErrV,
            >(decode_err_view(e)),
        },
{
    let ghost nv = node_list_view(items@);
    let mut out: Vec<Limiter> = Vec::new();
    proof {
        assert(nv.skip(0) =~= nv);
        assert(crate::rule::limiter_list_view(out@) =~= Seq::<LimiterV>::empty());
    }
    let mut i: usize = 0;
    while i < items.len()
        invariant
            0 <= i <= items@.len(),
            out@.len() == i,
            spec_decode_limiters(nv, Seq::empty()) == spec_decode_limiters(
                nv.skip(i as int),
                crate::rule::limiter_list_view(out@),
            ),
        decreases items@.len() - i,
    {
        proof {
            assert(nv.skip(i as int).len() > 0);
            assert(nv.skip(i as int)[0] == nv[i as int]);
            assert(nv.skip(i as int).drop_first() =~= nv.skip(i as int + 1));
            assert(nv[i as int] == node_view(items@[i as int]));
        }
        match decode_limiter(&items[i]) {
            Err(e) => {
                return Err(e);
            },
            Ok(l) => {
                let ghost before = crate::rule::limiter_list_view(out@);
                out.push(l);
                proof {
                    assert(crate::rule::limiter_list_view(out@) =~= before.push(
                        crate::value::limiter_view(l),
                    ));
                }
            },
        }
        i += 1;
    }
    proof {
        assert(nv.skip(items@.len() as int) =~= Seq::<NodeV>::empty());
    }
    Ok(out)
}

/// A counter: a whole number, or the keywords `all` / `any`.
pub open spec fn spec_decode_counter(n: NodeV) -> Result<crate::rule::Counter, DecodeErrV> {
    match n {
        NodeV::Int(i) => if 0 <= i <= i64::MAX {
            Ok(crate::rule::Counter::Number(i as u64))
        } else {
            Err(DecodeErrV::Unrecognized(n))
        },
        NodeV::Str(s) => if s == "all"@ {
            Ok(crate::rule::Counter::All)
        } else if s == "any"@ {
            Ok(crate::rule::Counter::Any)
        } else {
            Err(DecodeErrV::Unrecognized(n))
        },
        _ => Err(DecodeErrV::Unrecognized(n)),
    }
}

pub fn decode_counter(n: &Node) -> (r: Result<crate::rule::Counter, DecodeError>)
    ensures
        match r {
            Ok(c) => spec_decode_counter(node_view(*n)) == Ok::<crate::rule::Counter, DecodeErrV>(
                c,
            ),
            Err(e) => spec_decode_counter(node_view(*n)) == Err::<crate::rule::Counter, DecodeErrV>(
                decode_err_view(e),
            ),
        },
{
    match n {
        Node::Int(i) => {
            if *i >= 0 {
                Ok(crate::rule::Counter::Number(*i as u64))
            } else {
                Err(DecodeError::Unrecognized(clone_node(n)))
            }
        },
        Node::Str(s) => {
            if str_eq(s.as_str(), "all") {
                Ok(crate::rule::Counter::All)
            } else if str_eq(s.as_str(), "any") {
                Ok(crate::rule::Counter::Any)
            } else {
                Err(DecodeError::Unrecognized(clone_node(n)))
            }
        },
        _ => Err(DecodeError::Unrecognized(clone_node(n))),
    }
}

/// An action operand node: `Count`, a bare literal, or a tagged one.
pub open spec fn spec_decode_operand(n: NodeV) -> Result<ValueV, DecodeErrV> {
    match n {
        NodeV::Str(s) => if s == "Count"@ {
            Ok(ValueV::Count)
        } else {
            Ok(spec_parse_literal(s))
        },
        _ => spec_decode_value_tagged(n),
    }
}

pub fn decode_operand(n: &Node) -> (r: Result<Literal, DecodeError>)
    ensures
        match r {
            Ok(v) => spec_decode_operand(node_view(*n)) == Ok::<ValueV, DecodeErrV>(
                crate::value::value_view(v),
            ),
            Err(e) => spec_decode_operand(node_view(*n)) == Err::<ValueV, DecodeErrV>(
                decode_err_view(e),
            ),
        },
{
    match n {
        Node::Str(s) => {
            if str_eq(s.as_str(), "Count") {
                Ok(Literal::Count)
            } else {
                Ok(parse_literal_text(s.as_str()))
            }
        },
        _ => decode_value_tagged(n),
    }
}

pub open spec fn action_keys() -> Seq<Seq<char>> {
    seq!["lhs"@, "op"@, "rhs"@]
}

pub open spec fn spec_decode_op_field(es: Seq<(Seq<char>, NodeV)>) -> Result<
    Option<crate::value::Operator>,
    DecodeErrV,
> {
    match map_get(es, "op"@) {
        None => Ok(None),
        Some(NodeV::Null) => Ok(None),
        Some(NodeV::Str(s)) => match spec_parse_op_token(s) {
            Some(o) => Ok(Some(o)),
            None => Err(DecodeErrV::Unrecognized(NodeV::Str(s))),
        },
        Some(v) => Err(DecodeErrV::Unrecognized(v)),
    }
}

pub fn decode_op_field(entries: &Vec<(String, Node)>) -> (r: Result<
    Option<crate::value::Operator>,
    DecodeError,
>)
    ensures
        match r {
            Ok(v) => spec_decode_op_field(entry_list_view(entries@)) == Ok::<
                Option<crate::value::Operator>,
                DecodeErrV,
            >(v),
            Err(e) => spec_decode_op_field(entry_list_view(entries@)) == Err::<
                Option<crate::value::Operator>,
                DecodeErrV,
            >(decode_err_view(e)),
        },
{
    let ghost ev = entry_list_view(entries@);
    match find_key(entries, "op") {
        None => Ok(None),
        Some(i) => {
            proof {
                assert(ev[i as int] == (entries@[i as int].0@, node_view(entries@[i as int].1)));
            }
            match &entries[i].1 {
                Node::Null => Ok(None),
                Node::Str(s) => {
                    match parse_op_token(s.as_str()) {
                        Some(o) => Ok(Some(o)),
                        None => Err(DecodeError::Unrecognized(Node::Str(s.clone()))),
                    }
                },
                other => Err(DecodeError::Unrecognized(clone_node(other))),
            }
        },
    }
}

pub open spec fn spec_decode_rhs_field(es: Seq<(Seq<char>, NodeV)>) -> Result<
    Option<ValueV>,
    DecodeErrV,
> {
    match map_get(es, "rhs"@) {
        None => Ok(None),
        Some(NodeV::Null) => Ok(None),
        Some(v) => match spec_decode_operand(v) {
            Ok(x) => Ok(Some(x)),
            Err(e) => Err(e),
        },
    }
}

pub fn decode_rhs_field(entries: &Vec<(String, Node)>) -> (r: Result<Option<Literal>, DecodeError>)
    ensures
        match r {
            Ok(v) => spec_decode_rhs_field(entry_list_view(entries@)) == Ok::<
                Option<ValueV>,
                DecodeErrV,
            >(match v {
                Some(x) => Some(crate::value::value_view(x)),
                None => None,
            }),
            Err(e) => spec_decode_rhs_field(entry_list_view(entries@)) == Err::<
                Option<ValueV>,
                DecodeErrV,
            >(decode_err_view(e)),
        },
{
    let ghost ev = entry_list_view(entries@);
    match find_key(entries, "rhs") {
        None => Ok(None),
        Some(i) => {
            proof {
                assert(ev[i as int] == (entries@[i as int].0@, node_view(entries@[i as int].1)));
            }
            match &entries[i].1 {
                Node::Null => Ok(None),
                other => match decode_operand(other) {
                    Ok(x) => Ok(Some(x)),
                    Err(e) => Err(e),
                },
            }
        },
    }
}

/// An action node: free text parsed by the action grammar, or a
/// closed `{lhs, op, rhs}` mapping; `op` and `rhs` must come
/// together.
pub open spec fn spec_decode_action_node(n: NodeV) -> Result<ActionV, DecodeErrV> {
    match n {
        NodeV::Str(s) => match spec_parse_action(s) {
            Ok(a) => Ok(a),
            Err(e) => Err(DecodeErrV::Action(e)),
        },
        NodeV::Mapping(es) => match first_unknown(es, action_keys()) {
            Some(k) => Err(DecodeErrV::UnknownField(k)),
            None => match map_get(es, "lhs"@) {
                None => Err(DecodeErrV::MissingField("lhs"@)),
                Some(lv) => match spec_decode_operand(lv) {
                    Err(e) => Err(e),
                    Ok(lhs) => match spec_decode_op_field(es) {
                        Err(e) => Err(e),
                        Ok(op) => match spec_decode_rhs_field(es) {
                            Err(e) => Err(e),
                            Ok(rhs) => if op is Some && rhs is None {
                                Err(DecodeErrV::MissingField("rhs"@))
                            } else if op is None && rhs is Some {
                                Err(DecodeErrV::MissingField("op"@))
                            } else {
                                Ok(ActionV { lhs, op, rhs })
                            },
                        },
                    },
                },
            },
        },
        _ => Err(DecodeErrV::Unrecognized(n)),
    }
}

pub fn decode_action_node(n: &Node) -> (r: Result<LhsValueAction, DecodeError>)
    ensures
        match r {
            Ok(a) => spec_decode_action_node(node_view(*n)) == Ok::<ActionV, DecodeErrV>(
                action_view(a),
            ),
            Err(e) => spec_decode_action_node(node_view(*n)) == Err::<ActionV, DecodeErrV>(
                decode_err_view(e),
            ),
        },
{
    match n {
        Node::Str(s) => match parse_action(s.as_str()) {
            Ok(a) => Ok(a),
            Err(e) => Err(DecodeError::Action(e)),
        },
        Node::Mapping(entries) => {
            let ghost ev = entry_list_view(entries@);
            let allowed: Vec<&'static str> = vec!["lhs", "op", "rhs"];
            proof {
                assert(strs_view(allowed@) =~= action_keys());
            }
            match first_unknown_key(entries, &allowed) {
                Some(k) => Err(DecodeError::UnknownField(k)),
                None => match find_key(entries, "lhs") {
                    None => Err(DecodeError::MissingField(String::from_str("lhs"))),
                    Some(li) => {
                        proof {
                            assert(ev[li as int] == (
                                entries@[li as int].0@,
                                node_view(entries@[li as int].1),
                            ));
                        }
                        match decode_operand(&entries[li].1) {
                            Err(e) => Err(e),
                            Ok(lhs) => match decode_op_field(entries) {
                                Err(e) => Err(e),
                                Ok(op) => match decode_rhs_field(entries) {
                                    Err(e) => Err(e),
                                    Ok(rhs) => {
                                        if op.is_some() && rhs.is_none() {
                                            Err(DecodeError::MissingField(String::from_str("rhs")))
                                        } else if op.is_none() && rhs.is_some() {
                                            Err(DecodeError::MissingField(String::from_str("op")))
                                        } else {
                                            Ok(LhsValueAction { lhs, op, rhs })
                                        }
                                    },
                                },
                            },
                        }
                    },
                },
            }
        },
        _ => Err(DecodeError::Unrecognized(clone_node(n))),
    }
}

pub open spec fn course_keys() -> Seq<Seq<char>> {
    seq!["course"@, "section"@, "year"@, "semester"@, "lab"@, "can_match_used"@]
}

/// A course mapping: the code plus its optional attributes, closed.
pub open spec fn spec_decode_course(es: Seq<(Seq<char>, NodeV)>) -> Result<
    crate::rule::CourseV,
    DecodeErrV,
> {
    match first_unknown(es, course_keys()) {
        Some(k) => Err(DecodeErrV::UnknownField(k)),
        None => match map_get(es, "course"@) {
            None => Err(DecodeErrV::MissingField("course"@)),
            Some(NodeV::Str(code)) => match spec_opt_str_field(es, "section"@) {
                Err(e) => Err(e),
                Ok(section) => match spec_opt_u64_field(es, "year"@) {
                    Err(e) => Err(e),
                    Ok(year) => match spec_opt_str_field(es, "semester"@) {
                        Err(e) => Err(e),
                        Ok(semester) => match spec_opt_bool_field(es, "lab"@) {
                            Err(e) => Err(e),
                            Ok(lab) => match spec_opt_bool_field(es, "can_match_used"@) {
                                Err(e) => Err(e),
                                Ok(can_match_used) => Ok(
                                    crate::rule::CourseV {
                                        course: code,
                                        section,
                                        year,
                                        semester,
                                        lab,
                                        can_match_used,
                                    },
                                ),
                            },
                        },
                    },
                },
            },
            Some(v) => Err(DecodeErrV::Unrecognized(v)),
        },
    }
}

pub fn decode_course(entries: &Vec<(String, Node)>) -> (r: Result<
    crate::rule::CourseRule,
    DecodeError,
>)
    ensures
        match r {
            Ok(c) => spec_decode_course(entry_list_view(entries@)) == Ok::<
                crate::rule::CourseV,
                DecodeErrV,
            >(crate::rule::course_view(c)),
            Err(e) => spec_decode_course(entry_list_view(entries@)) == Err::<
                crate::rule::CourseV,
                DecodeErrV,
            >(decode_err_view(e)),
        },
{
    let ghost ev = entry_list_view(entries@);
    let allowed: Vec<&'static str> = vec![
        "course",
        "section",
        "year",
        "semester",
        "lab",
        "can_match_used",
    ];
    proof {
        assert(strs_view(allowed@) =~= course_keys());
    }
    match first_unknown_key(entries, &allowed) {
        Some(k) => Err(DecodeError::UnknownField(k)),
        None => match find_key(entries, "course") {
            None => Err(DecodeError::MissingField(String::from_str("course"))),
            Some(ci) => {
                proof {
                    assert(ev[ci as int] == (
                        entries@[ci as int].0@,
                        node_view(entries@[ci as int].1),
                    ));
                }
                match &entries[ci].1 {
                    Node::Str(code) => match opt_str_field(entries, "section") {
                        Err(e) => Err(e),
                        Ok(section) => match opt_u64_field(entries, "year") {
                            Err(e) => Err(e),
                            Ok(year) => match opt_str_field(entries, "semester") {
                                Err(e) => Err(e),
                                Ok(semester) => match opt_bool_field(entries, "lab") {
                                    Err(e) => Err(e),
                                    Ok(lab) => match opt_bool_field(entries, "can_match_used") {
                                        Err(e) => Err(e),
                                        Ok(can_match_used) => Ok(
                                            crate::rule::CourseRule {
                                                course: code.clone(),
                                                section,
                                                year,
                                                semester,
                                                lab,
                                                can_match_used,
                                            },
                                        ),
                                    },
                                },
                            },
                        },
                    },
                    other => Err(DecodeError::Unrecognized(clone_node(other))),
                }
            },
        },
    }
}

pub open spec fn req_keys() -> Seq<Seq<char>> {
    seq!["requirement"@, "optional"@]
}

/// A requirement-reference mapping: the name plus an optional flag
/// that defaults to false, closed.
pub open spec fn spec_decode_req(es: Seq<(Seq<char>, NodeV)>) -> Result<
    crate::rule::ReqRefV,
    DecodeErrV,
> {
    match first_unknown(es, req_keys()) {
        Some(k) => Err(DecodeErrV::UnknownField(k)),
        None => match map_get(es, "requirement"@) {
            None => Err(DecodeErrV::MissingField("requirement"@)),
            Some(NodeV::Str(name)) => match spec_opt_bool_field(es, "optional"@) {
                Err(e) => Err(e),
                Ok(opt) => Ok(
                    crate::rule::ReqRefV {
                        requirement: name,
                        optional: match opt {
                            Some(b) => b,
                            None => false,
                        },
                    },
                ),
            },
            Some(v) => Err(DecodeErrV::Unrecognized(v)),
        },
    }
}

pub fn decode_req(entries: &Vec<(String, Node)>) -> (r: Result<
    crate::rule::RequirementRule,
    DecodeError,
>)
    ensures
        match r {
            Ok(c) => spec_decode_req(entry_list_view(entries@)) == Ok::<
                crate::rule::ReqRefV,
                DecodeErrV,
            >(crate::rule::req_ref_view(c)),
            Err(e) => spec_decode_req(entry_list_view(entries@)) == Err::<
                crate::rule::ReqRefV,
                DecodeErrV,
            >(decode_err_view(e)),
        },
{
    let ghost ev = entry_list_view(entries@);
    let allowed: Vec<&'static str> = vec!["requirement", "optional"];
    proof {
        assert(strs_view(allowed@) =~= req_keys());
    }
    match first_unknown_key(entries, &allowed) {
        Some(k) => Err(DecodeError::UnknownField(k)),
        None => match find_key(entries, "requirement") {
            None => Err(DecodeError::MissingField(String::from_str("requirement"))),
            Some(ri) => {
                proof {
                    assert(ev[ri as int] == (
                        entries@[ri as int].0@,
                        node_view(entries@[ri as int].1),
                    ));
                }
                match &entries[ri].1 {
                    Node::Str(name) => match opt_bool_field(entries, "optional") {
                        Err(e) => Err(e),
                        Ok(opt) => Ok(
                            crate::rule::RequirementRule {
                                requirement: name.clone(),
                                optional: match opt {
                                    Some(b) => b,
                                    None => false,
                                },
                            },
                        ),
                    },
                    other => Err(DecodeError::Unrecognized(clone_node(other))),
                }
            },
        },
    }
}

pub open spec fn given_keys() -> Seq<Seq<char>> {
    seq!["given"@, "what"@, "where"@, "limit"@, "do"@]
}

pub open spec fn given_save_keys() -> Seq<Seq<char>> {
    seq!["given"@, "save"@, "what"@, "where"@, "limit"@, "do"@]
}

/// A selection mapping: the selector decides the key schema (`save`
/// is recognized only for a saved-subset selector), then kind,
/// optional filter, optional limiters and the action.
pub open spec fn spec_decode_given(es: Seq<(Seq<char>, NodeV)>) -> Result<
    crate::rule::GivenRuleV,
    DecodeErrV,
> {
    match map_get(es, "given"@) {
        None => Err(DecodeErrV::MissingField("given"@)),
        Some(NodeV::Str(g)) => if g == "courses"@ {
            spec_decode_given_tail(es, crate::rule::GivenV::AllCourses, given_keys())
        } else if g == "save"@ {
            match map_get(es, "save"@) {
                None => Err(DecodeErrV::MissingField("save"@)),
                Some(NodeV::Str(sv)) => spec_decode_given_tail(
                    es,
                    crate::rule::GivenV::NamedVariable(sv),
                    given_save_keys(),
                ),
                Some(v) => Err(DecodeErrV::Unrecognized(v)),
            }
        } else {
            Err(DecodeErrV::Unrecognized(NodeV::Str(g)))
        },
        Some(v) => Err(DecodeErrV::Unrecognized(v)),
    }
}

pub open spec fn spec_decode_given_tail(
    es: Seq<(Seq<char>, NodeV)>,
    sel: crate::rule::GivenV,
    allowed: Seq<Seq<char>>,
) -> Result<crate::rule::GivenRuleV, DecodeErrV> {
    match first_unknown(es, allowed) {
        Some(k) => Err(DecodeErrV::UnknownField(k)),
        None => match map_get(es, "what"@) {
            None => Err(DecodeErrV::MissingField("what"@)),
            Some(NodeV::Str(w)) => if w == "courses"@ {
                match map_get(es, "where"@) {
                    Some(NodeV::Null) => spec_decode_given_rest(es, sel, None),
                    None => spec_decode_given_rest(es, sel, None),
                    Some(wn) => match spec_decode_clause(wn) {
                        Err(e) => Err(e),
                        Ok(cl) => spec_decode_given_rest(es, sel, Some(cl)),
                    },
                }
            } else {
                Err(DecodeErrV::Unrecognized(NodeV::Str(w)))
            },
            Some(v) => Err(DecodeErrV::Unrecognized(v)),
        },
    }
}

pub open spec fn spec_decode_given_rest(
    es: Seq<(Seq<char>, NodeV)>,
    sel: crate::rule::GivenV,
    filter: Option<Seq<(Seq<char>, WrappedValueV)>>,
) -> Result<crate::rule::GivenRuleV, DecodeErrV> {
    let lim = match map_get(es, "limit"@) {
        None => Ok(None),
        Some(NodeV::Null) => Ok(None),
        Some(NodeV::List(ls)) => match spec_decode_limiters(ls, Seq::empty()) {
            Err(e) => Err(e),
            Ok(l) => Ok(Some(l)),
        },
        Some(v) => Err(DecodeErrV::Unrecognized(v)),
    };
    match lim {
        Err(e) => Err(e),
        Ok(limit) => match map_get(es, "do"@) {
            None => Err(DecodeErrV::MissingField("do"@)),
            Some(dn) => match spec_decode_action_node(dn) {
                Err(e) => Err(e),
                Ok(action) => Ok(
                    crate::rule::GivenRuleV {
                        given: sel,
                        what: crate::rule::What::Courses,
                        filter,
                        limit,
                        action,
                    },
                ),
            },
        },
    }
}

pub fn decode_given(entries: &Vec<(String, Node)>) -> (r: Result<
    crate::rule::GivenRule,
    DecodeError,
>)
    ensures
        match r {
            Ok(g) => spec_decode_given(entry_list_view(entries@)) == Ok::<
                crate::rule::GivenRuleV,
                DecodeErrV,
            >(crate::rule::given_rule_view(g)),
            Err(e) => spec_decode_given(entry_list_view(entries@)) == Err::<
                crate::rule::GivenRuleV,
                DecodeErrV,
            >(decode_err_view(e)),
        },
{
    let ghost ev = entry_list_view(entries@);
    let sel: crate::rule::Given;
    let save_form: bool;
    match find_key(entries, "given") {
        None => {
            return Err(DecodeError::MissingField(String::from_str("given")));
        },
        Some(gi) => {
            proof {
                assert(ev[gi as int] == (entries@[gi as int].0@, node_view(entries@[gi as int].1)));
            }
            match &entries[gi].1 {
                Node::Str(g) => {
                    if str_eq(g.as_str(), "courses") {
                        sel = crate::rule::Given::AllCourses;
                        save_form = false;
                    } else if str_eq(g.as_str(), "save") {
                        match find_key(entries, "save") {
                            None => {
                                return Err(DecodeError::MissingField(String::from_str("save")));
                            },
                            Some(si) => {
                                proof {
                                    assert(ev[si as int] == (
                                        entries@[si as int].0@,
                                        node_view(entries@[si as int].1),
                                    ));
                                }
                                match &entries[si].1 {
                                    Node::Str(sv) => {
                                        sel = crate::rule::Given::NamedVariable {
                                            save: sv.clone(),
                                        };
                                        save_form = true;
                                    },
                                    other => {
                                        return Err(
                                            DecodeError::Unrecognized(clone_node(other)),
                                        );
                                    },
                                }
                            },
                        }
                    } else {
                        return Err(DecodeError::Unrecognized(Node::Str(g.clone())));
                    }
                },
                other => {
                    return Err(DecodeError::Unrecognized(clone_node(other)));
                },
            }
        },
    }
    let allowed: Vec<&'static str> = if save_form {
        vec!["given", "save", "what", "where", "limit", "do"]
    } else {
        vec!["given", "what", "where", "limit", "do"]
    };
    proof {
        if save_form {
            assert(strs_view(allowed@) =~= given_save_keys());
        } else {
            assert(strs_view(allowed@) =~= given_keys());
        }
    }
    match first_unknown_key(entries, &allowed) {
        Some(k) => {
            return Err(DecodeError::UnknownField(k));
        },
        None => {},
    }
    match find_key(entries, "what") {
        None => {
            return Err(DecodeError::MissingField(String::from_str("what")));
        },
        Some(wi) => {
            proof {
                assert(ev[wi as int] == (entries@[wi as int].0@, node_view(entries@[wi as int].1)));
            }
            match &entries[wi].1 {
                Node::Str(w) => {
                    if !str_eq(w.as_str(), "courses") {
                        return Err(DecodeError::Unrecognized(Node::Str(w.clone())));
                    }
                },
                other => {
                    return Err(DecodeError::Unrecognized(clone_node(other)));
                },
            }
        },
    }
    let filter: Option<Clause>;
    match find_key(entries, "where") {
        None => {
            filter = None;
        },
        Some(fi) => {
            proof {
                assert(ev[fi as int] == (entries@[fi as int].0@, node_view(entries@[fi as int].1)));
            }
            match &entries[fi].1 {
                Node::Null => {
                    filter = None;
                },
                other => match decode_clause(other) {
                    Err(e) => {
                        return Err(e);
                    },
                    Ok(cl) => {
                        filter = Some(cl);
                    },
                },
            }
        },
    }
    let limit: Option<Vec<Limiter>>;
    match find_key(entries, "limit") {
        None => {
            limit = None;
        },
        Some(li) => {
            proof {
                assert(ev[li as int] == (entries@[li as int].0@, node_view(entries@[li as int].1)));
            }
            match &entries[li].1 {
                Node::Null => {
                    limit = None;
                },
                Node::List(ls) => match decode_limiters(ls) {
                    Err(e) => {
                        return Err(e);
                    },
                    Ok(l) => {
                        limit = Some(l);
                    },
                },
                other => {
                    return Err(DecodeError::Unrecognized(clone_node(other)));
                },
            }
        },
    }
    match find_key(entries, "do") {
        None => Err(DecodeError::MissingField(String::from_str("do"))),
        Some(di) => {
            proof {
                assert(ev[di as int] == (entries@[di as int].0@, node_view(entries@[di as int].1)));
            }
            match decode_action_node(&entries[di].1) {
                Err(e) => Err(e),
                Ok(action) => Ok(
                    crate::rule::GivenRule {
                        given: sel,
                        what: crate::rule::What::Courses,
                        filter,
                        limit,
                        action,
                    },
                ),
            }
        },
    }
}

pub open spec fn count_keys() -> Seq<Seq<char>> {
    seq!["count"@, "of"@]
}

pub open spec fn both_keys() -> Seq<Seq<char>> {
    seq!["both"@]
}

pub open spec fn either_keys() -> Seq<Seq<char>> {
    seq!["either"@]
}

pub open spec fn do_keys() -> Seq<Seq<char>> {
    seq!["do"@]
}

/// The rule decoder: a bare text is a course shorthand; a mapping is
/// probed for its discriminating field in the fixed priority order
/// course, requirement, count, both, either, given, do; anything
/// else is refused. Every nested rule position goes through this
/// same function, so shorthands compose at any depth.
pub open spec fn spec_decode_rule(n: NodeV) -> Result<crate::rule::RuleV, DecodeErrV>
    decreases n,
    via spec_decode_rule_decreases
{
    match n {
        NodeV::Str(s) => Ok(
            crate::rule::RuleV::Course(
                crate::rule::CourseV {
                    course: s,
                    section: None,
                    year: None,
                    semester: None,
                    lab: None,
                    can_match_used: None,
                },
            ),
        ),
        NodeV::Mapping(es) => if map_get(es, "course"@) is Some {
            match spec_decode_course(es) {
                Ok(c) => Ok(crate::rule::RuleV::Course(c)),
                Err(e) => Err(e),
            }
        } else if map_get(es, "requirement"@) is Some {
            match spec_decode_req(es) {
                Ok(q) => Ok(crate::rule::RuleV::Requirement(q)),
                Err(e) => Err(e),
            }
        } else if map_get(es, "count"@) is Some {
            match first_unknown(es, count_keys()) {
                Some(k) => Err(DecodeErrV::UnknownField(k)),
                None => match spec_decode_counter(map_get(es, "count"@)->Some_0) {
                    Err(e) => Err(e),
                    Ok(cnt) => match map_get(es, "of"@) {
                        None => Err(DecodeErrV::MissingField("of"@)),
                        Some(NodeV::List(items)) => match spec_decode_rule_list(
                            items,
                            Seq::empty(),
                        ) {
                            Err(e) => Err(e),
                            Ok(rs) => Ok(crate::rule::RuleV::CountOf(cnt, rs)),
                        },
                        Some(v) => Err(DecodeErrV::Unrecognized(v)),
                    },
                },
            }
        } else if map_get(es, "both"@) is Some {
            match spec_decode_pair(es, "both"@, both_keys()) {
                Err(e) => Err(e),
                Ok(pair) => Ok(crate::rule::RuleV::Both(pair)),
            }
        } else if map_get(es, "either"@) is Some {
            match spec_decode_pair(es, "either"@, either_keys()) {
                Err(e) => Err(e),
                Ok(pair) => Ok(crate::rule::RuleV::Either(pair)),
            }
        } else if map_get(es, "given"@) is Some {
            match spec_decode_given(es) {
                Ok(g) => Ok(crate::rule::RuleV::Given(g)),
                Err(e) => Err(e),
            }
        } else if map_get(es, "do"@) is Some {
            match first_unknown(es, do_keys()) {
                Some(k) => Err(DecodeErrV::UnknownField(k)),
                None => match spec_decode_action_node(map_get(es, "do"@)->Some_0) {
                    Err(e) => Err(e),
                    Ok(a) => Ok(crate::rule::RuleV::Do(a)),
                },
            }
        } else {
            Err(DecodeErrV::Unrecognized(n))
        },
        _ => Err(DecodeErrV::Unrecognized(n)),
    }
}

/// A pair variant: the paired value must be a list of exactly two
/// rules; the mapping is closed over the variant's one key.
pub open spec fn spec_decode_pair(
    es: Seq<(Seq<char>, NodeV)>,
    key: Seq<char>,
    allowed: Seq<Seq<char>>,
) -> Result<Seq<crate::rule::RuleV>, DecodeErrV>
    decreases es,
    via spec_decode_pair_decreases
{
    match first_unknown(es, allowed) {
        Some(k) => Err(DecodeErrV::UnknownField(k)),
        None => match map_get(es, key) {
            None => Err(DecodeErrV::MissingField(key)),
            Some(NodeV::List(items)) => if items.len() != 2 {
                Err(DecodeErrV::WrongArity(key, items.len() as int))
            } else {
                match spec_decode_rule(items[0]) {
                    Err(e) => Err(e),
                    Ok(a) => match spec_decode_rule(items[1]) {
                        Err(e) => Err(e),
                        Ok(b) => Ok(seq![a, b]),
                    },
                }
            },
            Some(v) => Err(DecodeErrV::Unrecognized(v)),
        },
    }
}

/// Rules of a list, each through the full rule decoder.
pub open spec fn spec_decode_rule_list(s: Seq<NodeV>, acc: Seq<crate::rule::RuleV>) -> Result<
    Seq<crate::rule::RuleV>,
    DecodeErrV,
>
    decreases s,
{
    if s.len() == 0 {
        Ok(acc)
    } else {
        match spec_decode_rule(s[0]) {
            Err(e) => Err(e),
            Ok(r) => spec_decode_rule_list(s.drop_first(), acc.push(r)),
        }
    }
}

#[via_fn]
proof fn spec_decode_rule_decreases(n: NodeV) {
    match n {
        NodeV::Mapping(es) => {
            lemma_key_index(es, "of"@);
            let ki = key_index(es, "of"@);
            if ki >= 0 {
                assert(decreases_to!(es => es[ki]));
                match es[ki].1 {
                    NodeV::List(items) => {
                        assert(decreases_to!(n => items));
                    },
                    _ => {},
                }
            }
        },
        _ => {},
    }
}

#[via_fn]
proof fn spec_decode_pair_decreases(es: Seq<(Seq<char>, NodeV)>, key: Seq<char>, allowed: Seq<Seq<char>>) {
    lemma_key_index(es, key);
    let ki = key_index(es, key);
    if ki >= 0 {
        assert(decreases_to!(es => es[ki]));
        match es[ki].1 {
            NodeV::List(items) => {
                assert(decreases_to!(es => items));
                if items.len() == 2 {
                    assert(decreases_to!(items => items[0]));
                    assert(decreases_to!(items => items[1]));
                }
            },
            _ => {},
        }
    }
}

/// Decodes one rule node.
#[verifier::rlimit(80)]
pub fn decode_rule(n: &Node) -> (r: Result<crate::rule::Rule, DecodeError>)
    ensures
        match r {
            Ok(rule) => spec_decode_rule(node_view(*n)) == Ok::<crate::rule::RuleV, DecodeErrV>(
                crate::rule::rule_view(rule),
            ),
            Err(e) => spec_decode_rule(node_view(*n)) == Err::<crate::rule::RuleV, DecodeErrV>(
                decode_err_view(e),
            ),
        },
    decreases *n, 1int,
{
    match n {
        Node::Str(s) => {
            let mut c = crate::rule::CourseRule::default();
            c.course = s.clone();
            Ok(crate::rule::Rule::Course(c))
        },
        Node::Mapping(entries) => {
            let ghost ev = entry_list_view(entries@);
            if find_key(entries, "course").is_some() {
                match decode_course(entries) {
                    Ok(c) => Ok(crate::rule::Rule::Course(c)),
                    Err(e) => Err(e),
                }
            } else if find_key(entries, "requirement").is_some() {
                match decode_req(entries) {
                    Ok(q) => Ok(crate::rule::Rule::Requirement(q)),
                    Err(e) => Err(e),
                }
            } else if find_key(entries, "count").is_some() {
                let allowed: Vec<&'static str> = vec!["count", "of"];
                proof {
                    assert(strs_view(allowed@) =~= count_keys());
                }
                match first_unknown_key(entries, &allowed) {
                    Some(k) => Err(DecodeError::UnknownField(k)),
                    None => {
                        let ci = find_key(entries, "count").unwrap();
                        proof {
                            assert(ev[ci as int] == (
                                entries@[ci as int].0@,
                                node_view(entries@[ci as int].1),
                            ));
                        }
                        match decode_counter(&entries[ci].1) {
                            Err(e) => Err(e),
                            Ok(cnt) => match find_key(entries, "of") {
                                None => Err(DecodeError::MissingField(String::from_str("of"))),
                                Some(oi) => {
                                    proof {
                                        assert(ev[oi as int] == (
                                            entries@[oi as int].0@,
                                            node_view(entries@[oi as int].1),
                                        ));
                                    }
                                    match &entries[oi].1 {
                                        Node::List(items) => {
                                            proof {
                                                assert(decreases_to!(*n => entries@[oi as int].1));
                                            }
                                            match decode_rule_list(items) {
                                                Err(e) => Err(e),
                                                Ok(rs) => Ok(
                                                    crate::rule::Rule::CountOf(
                                                        crate::rule::CountOfRule {
                                                            count: cnt,
                                                            of: rs,
                                                        },
                                                    ),
                                                ),
                                            }
                                        },
                                        other => Err(
                                            DecodeError::Unrecognized(clone_node(other)),
                                        ),
                                    }
                                },
                            },
                        }
                    },
                }
            } else if find_key(entries, "both").is_some() {
                let allowed: Vec<&'static str> = vec!["both"];
                proof {
                    assert(strs_view(allowed@) =~= both_keys());
                }
                match decode_pair_nodes(n, entries, "both", &allowed) {
                    Err(e) => Err(e),
                    Ok(pair) => {
                        let (a, b) = pair;
                        proof {
                            assert(seq![
                                crate::rule::rule_view(a),
                                crate::rule::rule_view(b),
                            ].drop_first() =~= seq![crate::rule::rule_view(b)]);
                        }
                        Ok(
                            crate::rule::Rule::Both(
                                crate::rule::BothRule { both: (Box::new(a), Box::new(b)) },
                            ),
                        )
                    },
                }
            } else if find_key(entries, "either").is_some() {
                let allowed: Vec<&'static str> = vec!["either"];
                proof {
                    assert(strs_view(allowed@) =~= either_keys());
                }
                match decode_pair_nodes(n, entries, "either", &allowed) {
                    Err(e) => Err(e),
                    Ok(pair) => {
                        let (a, b) = pair;
                        Ok(
                            crate::rule::Rule::Either(
                                crate::rule::EitherRule { either: (Box::new(a), Box::new(b)) },
                            ),
                        )
                    },
                }
            } else if find_key(entries, "given").is_some() {
                match decode_given(entries) {
                    Ok(g) => Ok(crate::rule::Rule::Given(g)),
                    Err(e) => Err(e),
                }
            } else if find_key(entries, "do").is_some() {
                let allowed: Vec<&'static str> = vec!["do"];
                proof {
                    assert(strs_view(allowed@) =~= do_keys());
                }
                match first_unknown_key(entries, &allowed) {
                    Some(k) => Err(DecodeError::UnknownField(k)),
                    None => {
                        let di = find_key(entries, "do").unwrap();
                        proof {
                            assert(ev[di as int] == (
                                entries@[di as int].0@,
                                node_view(entries@[di as int].1),
                            ));
                        }
                        match decode_action_node(&entries[di].1) {
                            Err(e) => Err(e),
                            Ok(a) => Ok(crate::rule::Rule::Do(crate::rule::DoRule { action: a })),
                        }
                    },
                }
            } else {
                Err(DecodeError::Unrecognized(clone_node(n)))
            }
        },
        _ => Err(DecodeError::Unrecognized(clone_node(n))),
    }
}

/// The two rules of a pair variant's list.
fn decode_pair_nodes(
    n: &Node,
    entries: &Vec<(String, Node)>,
    key: &'static str,
    allowed: &Vec<&'static str>,
) -> (r: Result<(crate::rule::Rule, crate::rule::Rule), DecodeError>)
    requires
        *n matches Node::Mapping(e) && e@ == entries@,
    ensures
        ({
            let spec_r = spec_decode_pair(entry_list_view(entries@), key@, strs_view(allowed@));
            match r {
                Ok(pair) => spec_r == Ok::<Seq<crate::rule::RuleV>, DecodeErrV>(
                    seq![crate::rule::rule_view(pair.0), crate::rule::rule_view(pair.1)],
                ),
                Err(e) => spec_r == Err::<Seq<crate::rule::RuleV>, DecodeErrV>(decode_err_view(e)),
            }
        }),
    decreases *n, 0int,
{
    let ghost ev = entry_list_view(entries@);
    match first_unknown_key(entries, allowed) {
        Some(k) => Err(DecodeError::UnknownField(k)),
        None => match find_key(entries, key) {
            None => Err(DecodeError::MissingField(String::from_str(key))),
            Some(pi) => {
                proof {
                    assert(ev[pi as int] == (
                        entries@[pi as int].0@,
                        node_view(entries@[pi as int].1),
                    ));
                }
                match &entries[pi].1 {
                    Node::List(items) => {
                        if items.len() != 2 {
                            Err(DecodeError::WrongArity(String::from_str(key), items.len()))
                        } else {
                            proof {
                                assert(node_list_view(items@)[0] == node_view(items@[0]));
                                assert(node_list_view(items@)[1] == node_view(items@[1]));
                                assert(decreases_to!(*n => entries@[pi as int].1));
                                assert(decreases_to!(*n => items@[0]));
                                assert(decreases_to!(*n => items@[1]));
                            }
                            match decode_rule(&items[0]) {
                                Err(e) => Err(e),
                                Ok(a) => match decode_rule(&items[1]) {
                                    Err(e) => Err(e),
                                    Ok(b) => Ok((a, b)),
                                },
                            }
                        }
                    },
                    other => Err(DecodeError::Unrecognized(clone_node(other))),
                }
            },
        },
    }
}

/// Decodes every rule of a list node, in order.
#[verifier::loop_isolation(false)]
pub fn decode_rule_list(items: &Vec<Node>) -> (r: Result<Vec<crate::rule::Rule>, DecodeError>)
    ensures
        match r {
            Ok(rs) => spec_decode_rule_list(node_list_view(items@), Seq::empty()) == Ok::<
                Seq<crate::rule::RuleV>,
                DecodeErrV,
            >(crate::rule::rule_list_view(rs@)),
            Err(e) => spec_decode_rule_list(node_list_view(items@), Seq::empty()) == Err::<
                Seq<crate::rule::RuleV>,
                DecodeErrV,
            >(decode_err_view(e)),
        },
    decreases items@, 2int,
{
    let ghost nv = node_list_view(items@);
    let mut out: Vec<crate::rule::Rule> = Vec::new();
    proof {
        assert(nv.skip(0) =~= nv);
        assert(crate::rule::rule_list_view(out@) =~= Seq::<crate::rule::RuleV>::empty());
    }
    let mut i: usize = 0;
    while i < items.len()
        invariant
            0 <= i <= items@.len(),
            out@.len() == i,
            spec_decode_rule_list(nv, Seq::empty()) == spec_decode_rule_list(
                nv.skip(i as int),
                crate::rule::rule_list_view(out@),
            ),
        decreases items@.len() - i,
    {
        proof {
            assert(nv.skip(i as int).len() > 0);
            assert(nv.skip(i as int)[0] == nv[i as int]);
            assert(nv.skip(i as int).drop_first() =~= nv.skip(i as int + 1));
            assert(nv[i as int] == node_view(items@[i as int]));
            assert(decreases_to!(items@ => items@[i as int]));
        }
        match decode_rule(&items[i]) {
            Err(e) => {
                return Err(e);
            },
            Ok(rule) => {
                let ghost before = crate::rule::rule_list_view(out@);
                let ghost rv = crate::rule::rule_view(rule);
                out.push(rule);
                proof {
                    assert(crate::rule::rule_list_view(out@) =~= before.push(rv));
                }
            },
        }
        i += 1;
    }
    proof {
        assert(nv.skip(items@.len() as int) =~= Seq::<NodeV>::empty());
    }
    Ok(out)
}

} // verus!
