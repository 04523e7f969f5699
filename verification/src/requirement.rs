use vstd::prelude::*;
use crate::node::{
    clone_node, entry_list_view, find_key, key_index, lemma_key_index, map_get, node_list_view,
    node_view, Node, NodeV,
};
use crate::decode::{
    decode_err_view, decode_rule, opt_bool_field, opt_str_field, spec_decode_rule,
    spec_opt_bool_field, spec_opt_str_field, DecodeError, DecodeErrV,
};
use crate::encode::{encode_rule, spec_encode_rule};
use crate::rule::{opt_str_view, rule_view, rule_wf, Rule, RuleV};

verus! {

broadcast use vstd::std_specs::vec::group_vec_axioms;

/// A named save-block: a pre-computed subset that rules can refer to.
#[derive(Debug, PartialEq, Clone)]
pub struct SaveBlock {
    pub name: String,
}

/// A top-level named requirement: a message, audit and contract
/// flags, one result rule, save-blocks, and nested requirements.
#[derive(Debug, PartialEq)]
pub struct Requirement {
    pub name: String,
    pub message: Option<String>,
    pub department_audited: bool,
    pub result: Rule,
    pub contract: bool,
    pub save: Vec<SaveBlock>,
    pub requirements: Vec<Requirement>,
}

#[verifier::ext_equal]
pub struct RequirementV {
    pub name: Seq<char>,
    pub message: Option<Seq<char>>,
    pub department_audited: bool,
    pub result: RuleV,
    pub contract: bool,
    pub save: Seq<Seq<char>>,
    pub requirements: Seq<RequirementV>,
}

pub open spec fn save_list_view(s: Seq<SaveBlock>) -> Seq<Seq<char>> {
    Seq::new(s.len(), |i: int| if 0 <= i < s.len() { s[i].name@ } else { Seq::<char>::empty() })
}

pub open spec fn requirement_view(r: Requirement) -> RequirementV
    decreases r,
{
    RequirementV {
        name: r.name@,
        message: opt_str_view(r.message),
        department_audited: r.department_audited,
        result: rule_view(r.result),
        contract: r.contract,
        save: save_list_view(r.save@),
        requirements: requirement_list_view(r.requirements@),
    }
}

pub open spec fn requirement_list_view(s: Seq<Requirement>) -> Seq<RequirementV>
    decreases s,
{
    Seq::new(
        s.len(),
        |i: int|
            if 0 <= i < s.len() {
                requirement_view(s[i])
            } else {
                RequirementV {
                    name: Seq::empty(),
                    message: None,
                    department_audited: false,
                    result: RuleV::Both(Seq::empty()),
                    contract: false,
                    save: Seq::empty(),
                    requirements: Seq::empty(),
                }
            },
    )
}

pub open spec fn requirement_wf(rv: RequirementV) -> bool
    decreases rv,
{
    &&& rule_wf(rv.result)
    &&& requirement_list_wf(rv.requirements)
}

pub open spec fn requirement_list_wf(s: Seq<RequirementV>) -> bool
    decreases s,
{
    if s.len() == 0 {
        true
    } else {
        requirement_wf(s[0]) && requirement_list_wf(s.drop_first())
    }
}

pub proof fn lemma_requirement_list_wf_index(s: Seq<RequirementV>)
    ensures
        requirement_list_wf(s) <==> (forall|i: int|
            0 <= i < s.len() ==> requirement_wf(#[trigger] s[i])),
    decreases s,
{
    if s.len() > 0 {
        lemma_requirement_list_wf_index(s.drop_first());
        assert forall|j: int| 1 <= j < s.len() implies s.drop_first()[j - 1] == s[j] by {}
        if requirement_wf(s[0]) && requirement_list_wf(s.drop_first()) {
            assert forall|i: int| 0 <= i < s.len() implies requirement_wf(#[trigger] s[i]) by {
                if i >= 1 {
                    assert(requirement_wf(s.drop_first()[i - 1]));
                }
            }
        }
    }
}

/// A save-block node: a mapping whose `name` field names the subset;
/// other fields are ignored.
pub open spec fn spec_decode_save(n: NodeV) -> Result<Seq<char>, DecodeErrV> {
    match n {
        NodeV::Mapping(es) => match map_get(es, "name"@) {
            None => Err(DecodeErrV::MissingField("name"@)),
            Some(NodeV::Str(s)) => Ok(s),
            Some(v) => Err(DecodeErrV::Unrecognized(v)),
        },
        _ => Err(DecodeErrV::Unrecognized(n)),
    }
}

pub fn decode_save(n: &Node) -> (r: Result<SaveBlock, DecodeError>)
    ensures
        match r {
            Ok(s) => spec_decode_save(node_view(*n)) == Ok::<Seq<char>, DecodeErrV>(s.name@),
            Err(e) => spec_decode_save(node_view(*n)) == Err::<Seq<char>, DecodeErrV>(
                decode_err_view(e),
            ),
        },
{
    match n {
        Node::Mapping(entries) => {
            let ghost ev = entry_list_view(entries@);
            match find_key(entries, "name") {
                None => Err(DecodeError::MissingField(String::from_str("name"))),
                Some(i) => {
                    proof {
                        assert(ev[i as int] == (
                            entries@[i as int].0@,
                            node_view(entries@[i as int].1),
                        ));
                    }
                    match &entries[i].1 {
                        Node::Str(s) => Ok(SaveBlock { name: s.clone() }),
                        other => Err(DecodeError::Unrecognized(clone_node(other))),
                    }
                },
            }
        },
        _ => Err(DecodeError::Unrecognized(clone_node(n))),
    }
}

pub open spec fn spec_decode_saves(s: Seq<NodeV>, acc: Seq<Seq<char>>) -> Result<
    Seq<Seq<char>>,
    DecodeErrV,
>
    decreases s.len(),
{
    if s.len() == 0 {
        Ok(acc)
    } else {
        match spec_decode_save(s[0]) {
            Err(e) => Err(e),
            Ok(x) => spec_decode_saves(s.drop_first(), acc.push(x)),
        }
    }
}

#[verifier::loop_isolation(false)]
pub fn decode_saves(items: &Vec<Node>) -> (r: Result<Vec<SaveBlock>, DecodeError>)
    ensures
        match r {
            Ok(ss) => spec_decode_saves(node_list_view(items@), Seq::empty()) == Ok::<
                Seq<Seq<char>>,
                DecodeErrV,
            >(save_list_view(ss@)),
            Err(e) => spec_decode_saves(node_list_view(items@), Seq::empty()) == Err::<
                Seq<Seq<char>>,
                DecodeErrV,
            >(decode_err_view(e)),
        },
{
    let ghost nv = node_list_view(items@);
    let mut out: Vec<SaveBlock> = Vec::new();
    proof {
        assert(nv.skip(0) =~= nv);
        assert(save_list_view(out@) =~= Seq::<Seq<char>>::empty());
    }
    let mut i: usize = 0;
    while i < items.len()
        invariant
            0 <= i <= items@.len(),
            out@.len() == i,
            spec_decode_saves(nv, Seq::empty()) == spec_decode_saves(
                nv.skip(i as int),
                save_list_view(out@),
            ),
        decreases items@.len() - i,
    {
        proof {
            assert(nv.skip(i as int).len() > 0);
            assert(nv.skip(i as int)[0] == nv[i as int]);
            assert(nv.skip(i as int).drop_first() =~= nv.skip(i as int + 1));
            assert(nv[i as int] == node_view(items@[i as int]));
        }
        match decode_save(&items[i]) {
            Err(e) => {
                return Err(e);
            },
            Ok(sb) => {
                let ghost before = save_list_view(out@);
                let ghost sv = sb.name@;
                out.push(sb);
                proof {
                    assert(save_list_view(out@) =~= before.push(sv));
                }
            },
        }
        i += 1;
    }
    proof {
        assert(nv.skip(items@.len() as int) =~= Seq::<NodeV>::empty());
    }
    Ok(out)
}

/// A requirement node: `name` and `result` are required; the message,
/// the two flags, the save-blocks and the nested requirements default
/// when absent; fields outside the schema are ignored.
pub open spec fn spec_decode_requirement(n: NodeV) -> Result<RequirementV, DecodeErrV>
    decreases n, 1int,
    via spec_decode_requirement_decreases
{
    match n {
        NodeV::Mapping(es) => match map_get(es, "name"@) {
            None => Err(DecodeErrV::MissingField("name"@)),
            Some(NodeV::Str(name)) => match spec_opt_str_field(es, "message"@) {
                Err(e) => Err(e),
                Ok(message) => match spec_opt_bool_field(es, "department_audited"@) {
                    Err(e) => Err(e),
                    Ok(da) => match map_get(es, "result"@) {
                        None => Err(DecodeErrV::MissingField("result"@)),
                        Some(rn) => match spec_decode_rule(rn) {
                            Err(e) => Err(e),
                            Ok(result) => match spec_opt_bool_field(es, "contract"@) {
                                Err(e) => Err(e),
                                Ok(contract) => {
                                    let saves = match map_get(es, "save"@) {
                                        None => Ok(Seq::<Seq<char>>::empty()),
                                        Some(NodeV::Null) => Ok(Seq::<Seq<char>>::empty()),
                                        Some(NodeV::List(items)) => spec_decode_saves(
                                            items,
                                            Seq::empty(),
                                        ),
                                        Some(v) => Err(DecodeErrV::Unrecognized(v)),
                                    };
                                    match saves {
                                        Err(e) => Err(e),
                                        Ok(save) => {
                                            let reqs = match map_get(es, "requirements"@) {
                                                None => Ok(Seq::<RequirementV>::empty()),
                                                Some(NodeV::Null) => Ok(
                                                    Seq::<RequirementV>::empty(),
                                                ),
                                                Some(NodeV::List(items)) => spec_decode_req_list(
                                                    items,
                                                    Seq::empty(),
                                                ),
                                                Some(v) => Err(DecodeErrV::Unrecognized(v)),
                                            };
                                            match reqs {
                                                Err(e) => Err(e),
                                                Ok(requirements) => Ok(
                                                    RequirementV {
                                                        name,
                                                        message,
                                                        department_audited: match da {
                                                            Some(b) => b,
                                                            None => false,
                                                        },
                                                        result,
                                                        contract: match contract {
                                                            Some(b) => b,
                                                            None => false,
                                                        },
                                                        save,
                                                        requirements,
                                                    },
                                                ),
                                            }
                                        },
                                    }
                                },
                            },
                        },
                    },
                },
            },
            Some(v) => Err(DecodeErrV::Unrecognized(v)),
        },
        _ => Err(DecodeErrV::Unrecognized(n)),
    }
}

pub open spec fn spec_decode_req_list(s: Seq<NodeV>, acc: Seq<RequirementV>) -> Result<
    Seq<RequirementV>,
    DecodeErrV,
>
    decreases s, 2int,
{
    if s.len() == 0 {
        Ok(acc)
    } else {
        match spec_decode_requirement(s[0]) {
            Err(e) => Err(e),
            Ok(r) => spec_decode_req_list(s.drop_first(), acc.push(r)),
        }
    }
}

#[via_fn]
proof fn spec_decode_requirement_decreases(n: NodeV) {
    match n {
        NodeV::Mapping(es) => {
            lemma_key_index(es, "result"@);
            let ki = key_index(es, "result"@);
            if ki >= 0 {
                assert(decreases_to!(es => es[ki]));
                assert(decreases_to!(n => es[ki].1));
            }
            lemma_key_index(es, "save"@);
            let si = key_index(es, "save"@);
            if si >= 0 {
                assert(decreases_to!(es => es[si]));
                match es[si].1 {
                    NodeV::List(items) => {
                        assert(decreases_to!(n => items));
                    },
                    _ => {},
                }
            }
            lemma_key_index(es, "requirements"@);
            let qi = key_index(es, "requirements"@);
            if qi >= 0 {
                assert(decreases_to!(es => es[qi]));
                match es[qi].1 {
                    NodeV::List(items) => {
                        assert(decreases_to!(n => items));
                    },
                    _ => {},
                }
            }
        },
        _ => {},
    }
}

/// Decodes one requirement node.
#[verifier::rlimit(60)]
pub fn decode_requirement(n: &Node) -> (r: Result<Requirement, DecodeError>)
    ensures
        match r {
            Ok(q) => spec_decode_requirement(node_view(*n)) == Ok::<RequirementV, DecodeErrV>(
                requirement_view(q),
            ),
            Err(e) => spec_decode_requirement(node_view(*n)) == Err::<RequirementV, DecodeErrV>(
                decode_err_view(e),
            ),
        },
    decreases *n, 1int,
{
    match n {
        Node::Mapping(entries) => {
            let ghost ev = entry_list_view(entries@);
            let name: String;
            match find_key(entries, "name") {
                None => {
                    return Err(DecodeError::MissingField(String::from_str("name")));
                },
                Some(ni) => {
                    proof {
                        assert(ev[ni as int] == (
                            entries@[ni as int].0@,
                            node_view(entries@[ni as int].1),
                        ));
                    }
                    match &entries[ni].1 {
                        Node::Str(s) => {
                            name = s.clone();
                        },
                        other => {
                            return Err(DecodeError::Unrecognized(clone_node(other)));
                        },
                    }
                },
            }
            let message = match opt_str_field(entries, "message") {
                Err(e) => {
                    return Err(e);
                },
                Ok(m) => m,
            };
            let da = match opt_bool_field(entries, "department_audited") {
                Err(e) => {
                    return Err(e);
                },
                Ok(b) => b,
            };
            let result: Rule;
            match find_key(entries, "result") {
                None => {
                    return Err(DecodeError::MissingField(String::from_str("result")));
                },
                Some(ri) => {
                    proof {
                        assert(ev[ri as int] == (
                            entries@[ri as int].0@,
                            node_view(entries@[ri as int].1),
                        ));
                        assert(decreases_to!(*n => entries@[ri as int].1));
                    }
                    match decode_rule(&entries[ri].1) {
                        Err(e) => {
                            return Err(e);
                        },
                        Ok(rr) => {
                            result = rr;
                        },
                    }
                },
            }
            let contract = match opt_bool_field(entries, "contract") {
                Err(e) => {
                    return Err(e);
                },
                Ok(b) => b,
            };
            let save: Vec<SaveBlock>;
            match find_key(entries, "save") {
                None => {
                    save = Vec::new();
                    proof {
                        assert(save_list_view(save@) =~= Seq::<Seq<char>>::empty());
                    }
                },
                Some(si) => {
                    proof {
                        assert(ev[si as int] == (
                            entries@[si as int].0@,
                            node_view(entries@[si as int].1),
                        ));
                    }
                    match &entries[si].1 {
                        Node::Null => {
                            save = Vec::new();
                            proof {
                                assert(save_list_view(save@) =~= Seq::<Seq<char>>::empty());
                            }
                        },
                        Node::List(items) => match decode_saves(items) {
                            Err(e) => {
                                return Err(e);
                            },
                            Ok(ss) => {
                                save = ss;
                            },
                        },
                        other => {
                            return Err(DecodeError::Unrecognized(clone_node(other)));
                        },
                    }
                },
            }
            let requirements: Vec<Requirement>;
            match find_key(entries, "requirements") {
                None => {
                    requirements = Vec::new();
                    proof {
                        assert(requirement_list_view(requirements@) =~= Seq::<
                            RequirementV,
                        >::empty());
                    }
                },
                Some(qi) => {
                    proof {
                        assert(ev[qi as int] == (
                            entries@[qi as int].0@,
                            node_view(entries@[qi as int].1),
                        ));
                    }
                    match &entries[qi].1 {
                        Node::Null => {
                            requirements = Vec::new();
                            proof {
                                assert(requirement_list_view(requirements@) =~= Seq::<
                                    RequirementV,
                                >::empty());
                            }
                        },
                        Node::List(items) => {
                            proof {
                                assert(decreases_to!(*n => entries@[qi as int].1));
                            }
                            match decode_req_list(items) {
                                Err(e) => {
                                    return Err(e);
                                },
                                Ok(qs) => {
                                    requirements = qs;
                                },
                            }
                        },
                        other => {
                            return Err(DecodeError::Unrecognized(clone_node(other)));
                        },
                    }
                },
            }
            Ok(
                Requirement {
                    name,
                    message,
                    department_audited: match da {
                        Some(b) => b,
                        None => false,
                    },
                    result,
                    contract: match contract {
                        Some(b) => b,
                        None => false,
                    },
                    save,
                    requirements,
                },
            )
        },
        _ => Err(DecodeError::Unrecognized(clone_node(n))),
    }
}

#[verifier::loop_isolation(false)]
fn decode_req_list(items: &Vec<Node>) -> (r: Result<Vec<Requirement>, DecodeError>)
    ensures
        match r {
            Ok(qs) => spec_decode_req_list(node_list_view(items@), Seq::empty()) == Ok::<
                Seq<RequirementV>,
                DecodeErrV,
            >(requirement_list_view(qs@)),
            Err(e) => spec_decode_req_list(node_list_view(items@), Seq::empty()) == Err::<
                Seq<RequirementV>,
                DecodeErrV,
            >(decode_err_view(e)),
        },
    decreases items@, 2int,
{
    let ghost nv = node_list_view(items@);
    let mut out: Vec<Requirement> = Vec::new();
    proof {
        assert(nv.skip(0) =~= nv);
        assert(requirement_list_view(out@) =~= Seq::<RequirementV>::empty());
    }
    let mut i: usize = 0;
    while i < items.len()
        invariant
            0 <= i <= items@.len(),
            out@.len() == i,
            spec_decode_req_list(nv, Seq::empty()) == spec_decode_req_list(
                nv.skip(i as int),
                requirement_list_view(out@),
            ),
        decreases items@.len() - i,
    {
        proof {
            assert(nv.skip(i as int).len() > 0);
            assert(nv.skip(i as int)[0] == nv[i as int]);
            assert(nv.skip(i as int).drop_first() =~= nv.skip(i as int + 1));
            assert(nv[i as int] == node_view(items@[i as int]));
            assert(decreases_to!(items@ => items@[i as int]));
        }
        match decode_requirement(&items[i]) {
            Err(e) => {
                return Err(e);
            },
            Ok(q) => {
                let ghost before = requirement_list_view(out@);
                let ghost qv = requirement_view(q);
                out.push(q);
                proof {
                    assert(requirement_list_view(out@) =~= before.push(qv));
                }
            },
        }
        i += 1;
    }
    proof {
        assert(nv.skip(items@.len() as int) =~= Seq::<NodeV>::empty());
    }
    Ok(out)
}

/// The canonical requirement encoding: every field explicit, in the
/// fixed order name, message, department_audited, result, contract,
/// save, requirements.
pub open spec fn spec_encode_requirement(rv: RequirementV) -> NodeV
    decreases rv,
{
    NodeV::Mapping(
        seq![
            ("name"@, NodeV::Str(rv.name)),
            (
                "message"@,
                match rv.message {
                    Some(m) => NodeV::Str(m),
                    None => NodeV::Null,
                },
            ),
            ("department_audited"@, NodeV::Bool(rv.department_audited)),
            ("result"@, spec_encode_rule(rv.result)),
            ("contract"@, NodeV::Bool(rv.contract)),
            ("save"@, NodeV::List(spec_encode_saves(rv.save))),
            ("requirements"@, NodeV::List(spec_encode_req_list(rv.requirements))),
        ],
    )
}

pub open spec fn spec_encode_saves(s: Seq<Seq<char>>) -> Seq<NodeV> {
    Seq::new(
        s.len(),
        |i: int|
            if 0 <= i < s.len() {
                NodeV::Mapping(seq![("name"@, NodeV::Str(s[i]))])
            } else {
                NodeV::Null
            },
    )
}

pub open spec fn spec_encode_req_list(s: Seq<RequirementV>) -> Seq<NodeV>
    decreases s,
{
    Seq::new(
        s.len(),
        |i: int| if 0 <= i < s.len() { spec_encode_requirement(s[i]) } else { NodeV::Null },
    )
}

/// Encodes one requirement canonically.
#[verifier::loop_isolation(false)]
pub fn encode_requirement(r: &Requirement) -> (out: Node)
    requires
        requirement_wf(requirement_view(*r)),
    ensures
        node_view(out) == spec_encode_requirement(requirement_view(*r)),
    decreases *r, 1int,
{
    let ghost rv = requirement_view(*r);
    let message = match &r.message {
        Some(m) => Node::Str(m.clone()),
        None => Node::Null,
    };
    let result = encode_rule(&r.result);
    let mut saves: Vec<Node> = Vec::new();
    let mut i: usize = 0;
    while i < r.save.len()
        invariant
            0 <= i <= r.save@.len(),
            saves@.len() == i,
            forall|j: int| 0 <= j < i ==> #[trigger] node_list_view(saves@)[j]
                == spec_encode_saves(rv.save)[j],
        decreases r.save@.len() - i,
    {
        let es = vec![(String::from_str("name"), Node::Str(r.save[i].name.clone()))];
        proof {
            assert(entry_list_view(es@) =~= seq![("name"@, NodeV::Str(r.save@[i as int].name@))]);
        }
        let ghost prev = saves@;
        saves.push(Node::Mapping(es));
        proof {
            assert forall|j: int| 0 <= j <= i implies #[trigger] node_list_view(saves@)[j]
                == spec_encode_saves(rv.save)[j] by {
                if j < i {
                    assert(saves@[j] == prev[j]);
                    assert(node_list_view(prev)[j] == spec_encode_saves(rv.save)[j]);
                }
            }
        }
        i += 1;
    }
    proof {
        assert(node_list_view(saves@) =~= spec_encode_saves(rv.save));
        lemma_requirement_list_wf_index(rv.requirements);
    }
    let mut reqs: Vec<Node> = Vec::new();
    let mut k: usize = 0;
    while k < r.requirements.len()
        invariant
            0 <= k <= r.requirements@.len(),
            reqs@.len() == k,
            forall|j: int| 0 <= j < k ==> #[trigger] node_list_view(reqs@)[j]
                == spec_encode_req_list(rv.requirements)[j],
        decreases r.requirements@.len() - k,
    {
        proof {
            assert(decreases_to!(*r => r.requirements@[k as int]));
            assert(rv.requirements[k as int] == requirement_view(r.requirements@[k as int]));
        }
        let ghost prev = reqs@;
        reqs.push(encode_requirement(&r.requirements[k]));
        proof {
            assert forall|j: int| 0 <= j <= k implies #[trigger] node_list_view(reqs@)[j]
                == spec_encode_req_list(rv.requirements)[j] by {
                if j < k {
                    assert(reqs@[j] == prev[j]);
                    assert(node_list_view(prev)[j] == spec_encode_req_list(rv.requirements)[j]);
                }
            }
        }
        k += 1;
    }
    proof {
        assert(node_list_view(reqs@) =~= spec_encode_req_list(rv.requirements));
    }
    let es = vec![
        (String::from_str("name"), Node::Str(r.name.clone())),
        (String::from_str("message"), message),
        (String::from_str("department_audited"), Node::Bool(r.department_audited)),
        (String::from_str("result"), result),
        (String::from_str("contract"), Node::Bool(r.contract)),
        (String::from_str("save"), Node::List(saves)),
        (String::from_str("requirements"), Node::List(reqs)),
    ];
    proof {
        assert(entry_list_view(es@) =~= seq![
            ("name"@, NodeV::Str(rv.name)),
            (
                "message"@,
                match rv.message {
                    Some(m) => NodeV::Str(m),
                    None => NodeV::Null,
                },
            ),
            ("department_audited"@, NodeV::Bool(rv.department_audited)),
            ("result"@, spec_encode_rule(rv.result)),
            ("contract"@, NodeV::Bool(rv.contract)),
            ("save"@, NodeV::List(spec_encode_saves(rv.save))),
            ("requirements"@, NodeV::List(spec_encode_req_list(rv.requirements))),
        ]);
    }
    Node::Mapping(es)
}

} // verus!
