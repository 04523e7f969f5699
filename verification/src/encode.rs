use vstd::prelude::*;
use crate::node::{entry_list_view, node_list_view, node_view, Node, NodeV};
use crate::value::{
    clause_view, clause_wf, limiter_view, limiter_wf, value_view, value_wf, wrapped_view,
    wrapped_wf, Clause, Limiter, LimiterV, Literal, ValueV, WrappedValue, WrappedValueV,
};
use crate::action::{action_view, action_wf, op_name, spec_op_name, ActionV, LhsValueAction};
use crate::rule::{
    course_view, given_rule_view, given_sel_view, lemma_rule_list_wf_index, limiter_list_view,
    opt_str_view, req_ref_view, rule_list_view, rule_list_wf, rule_view, rule_wf, Counter,
    CourseRule, CourseV, Given, GivenRule, GivenRuleV, GivenV, ReqRefV, RequirementRule, Rule,
    RuleV, What,
};

verus! {

broadcast use vstd::std_specs::vec::group_vec_axioms;

/// The canonical tagged encoding of a literal.
pub open spec fn spec_encode_value(v: ValueV) -> NodeV {
    match v {
        ValueV::Integer(n) => NodeV::Mapping(seq![("Integer"@, NodeV::Int(n))]),
        ValueV::Str(s) => NodeV::Mapping(seq![("String"@, NodeV::Str(s))]),
        ValueV::Count => NodeV::Str("Count"@),
    }
}

pub fn encode_value(v: &Literal) -> (r: Node)
    requires
        value_wf(value_view(*v)),
    ensures
        node_view(r) == spec_encode_value(value_view(*v)),
{
    match v {
        Literal::Integer(n) => {
            let es = vec![(String::from_str("Integer"), Node::Int(*n as i64))];
            proof {
                assert(entry_list_view(es@) =~= seq![("Integer"@, NodeV::Int(*n as int))]);
            }
            Node::Mapping(es)
        },
        Literal::Str(s) => {
            let es = vec![(String::from_str("String"), Node::Str(s.clone()))];
            proof {
                assert(entry_list_view(es@) =~= seq![("String"@, NodeV::Str(s@))]);
            }
            Node::Mapping(es)
        },
        Literal::Count => Node::Str(String::from_str("Count")),
    }
}

/// The canonical predicate encoding, always the `{Single: {tag: v}}`
/// structured form.
pub open spec fn spec_encode_wrapped(w: WrappedValueV) -> NodeV {
    match w {
        WrappedValueV::EqualTo(v) => NodeV::Mapping(
            seq![
                ("Single"@, NodeV::Mapping(seq![("EqualTo"@, spec_encode_value(v))])),
            ],
        ),
        WrappedValueV::NotEqualTo(v) => NodeV::Mapping(
            seq![
                ("Single"@, NodeV::Mapping(seq![("NotEqualTo"@, spec_encode_value(v))])),
            ],
        ),
    }
}

pub fn encode_wrapped(w: &WrappedValue) -> (r: Node)
    requires
        wrapped_wf(wrapped_view(*w)),
    ensures
        node_view(r) == spec_encode_wrapped(wrapped_view(*w)),
{
    match w {
        WrappedValue::EqualTo(v) => {
            let ies = vec![(String::from_str("EqualTo"), encode_value(v))];
            proof {
                assert(entry_list_view(ies@) =~= seq![
                    ("EqualTo"@, spec_encode_value(value_view(*v))),
                ]);
            }
            let inner = Node::Mapping(ies);
            let es = vec![(String::from_str("Single"), inner)];
            proof {
                assert(entry_list_view(es@) =~= seq![
                    (
                        "Single"@,
                        NodeV::Mapping(seq![("EqualTo"@, spec_encode_value(value_view(*v)))]),
                    ),
                ]);
            }
            Node::Mapping(es)
        },
        WrappedValue::NotEqualTo(v) => {
            let ies = vec![(String::from_str("NotEqualTo"), encode_value(v))];
            proof {
                assert(entry_list_view(ies@) =~= seq![
                    ("NotEqualTo"@, spec_encode_value(value_view(*v))),
                ]);
            }
            let inner = Node::Mapping(ies);
            let es = vec![(String::from_str("Single"), inner)];
            proof {
                assert(entry_list_view(es@) =~= seq![
                    (
                        "Single"@,
                        NodeV::Mapping(seq![("NotEqualTo"@, spec_encode_value(value_view(*v)))]),
                    ),
                ]);
            }
            Node::Mapping(es)
        },
    }
}

/// The canonical clause encoding: one mapping entry per clause entry,
/// in the clause's stored order.
pub open spec fn spec_encode_clause_entries(cv: Seq<(Seq<char>, WrappedValueV)>) -> Seq<
    (Seq<char>, NodeV),
> {
    Seq::new(
        cv.len(),
        |i: int|
            if 0 <= i < cv.len() {
                (cv[i].0, spec_encode_wrapped(cv[i].1))
            } else {
                (Seq::<char>::empty(), NodeV::Null)
            },
    )
}

pub open spec fn spec_encode_clause(cv: Seq<(Seq<char>, WrappedValueV)>) -> NodeV {
    NodeV::Mapping(spec_encode_clause_entries(cv))
}

#[verifier::loop_isolation(false)]
pub fn encode_clause(c: &Clause) -> (r: Node)
    requires
        clause_wf(clause_view(*c)),
    ensures
        node_view(r) == spec_encode_clause(clause_view(*c)),
{
    let ghost cv = clause_view(*c);
    let mut out: Vec<(String, Node)> = Vec::new();
    let n = c.len();
    let mut i: usize = 0;
    while i < n
        invariant
            0 <= i <= cv.len(),
            n == cv.len(),
            out@.len() == i,
            forall|j: int| 0 <= j < i ==> #[trigger] entry_list_view(out@)[j] == (
                cv[j].0,
                spec_encode_wrapped(cv[j].1),
            ),
        decreases n - i,
    {
        let key = c.key_at(i).clone();
        let val = encode_wrapped(c.value_at(i));
        let ghost prev = out@;
        out.push((key, val));
        proof {
            assert forall|j: int| 0 <= j <= i implies #[trigger] entry_list_view(out@)[j] == (
                cv[j].0,
                spec_encode_wrapped(cv[j].1),
            ) by {
                if j < i {
                    assert(out@[j] == prev[j]);
                    assert(entry_list_view(prev)[j] == (cv[j].0, spec_encode_wrapped(cv[j].1)));
                }
            }
        }
        i += 1;
    }
    proof {
        assert(entry_list_view(out@) =~= spec_encode_clause_entries(cv));
    }
    Node::Mapping(out)
}

/// The canonical limiter encoding: `where`, then `at_most`.
pub open spec fn spec_encode_limiter(l: LimiterV) -> NodeV {
    NodeV::Mapping(
        seq![
            ("where"@, spec_encode_clause(l.filter)),
            ("at_most"@, NodeV::Int(l.at_most as int)),
        ],
    )
}

pub fn encode_limiter(l: &Limiter) -> (r: Node)
    requires
        limiter_wf(limiter_view(*l)),
    ensures
        node_view(r) == spec_encode_limiter(limiter_view(*l)),
{
    let w = encode_clause(&l.filter);
    let es = vec![
        (String::from_str("where"), w),
        (String::from_str("at_most"), Node::Int(l.at_most as i64)),
    ];
    proof {
        assert(entry_list_view(es@) =~= seq![
            ("where"@, spec_encode_clause(clause_view(l.filter))),
            ("at_most"@, NodeV::Int(l.at_most as int)),
        ]);
    }
    Node::Mapping(es)
}

pub open spec fn spec_encode_limiters(ls: Seq<LimiterV>) -> Seq<NodeV> {
    Seq::new(
        ls.len(),
        |i: int| if 0 <= i < ls.len() { spec_encode_limiter(ls[i]) } else { NodeV::Null },
    )
}

#[verifier::loop_isolation(false)]
pub fn encode_limiters(ls: &Vec<Limiter>) -> (r: Node)
    requires
        forall|i: int| 0 <= i < ls@.len() ==> limiter_wf(#[trigger] limiter_list_view(ls@)[i]),
    ensures
        node_view(r) == NodeV::List(spec_encode_limiters(limiter_list_view(ls@))),
{
    let ghost lv = limiter_list_view(ls@);
    let mut out: Vec<Node> = Vec::new();
    let mut i: usize = 0;
    while i < ls.len()
        invariant
            0 <= i <= ls@.len(),
            out@.len() == i,
            forall|j: int| 0 <= j < i ==> #[trigger] node_list_view(out@)[j]
                == spec_encode_limiter(lv[j]),
        decreases ls@.len() - i,
    {
        proof {
            assert(lv[i as int] == limiter_view(ls@[i as int]));
        }
        let ghost prev = out@;
        out.push(encode_limiter(&ls[i]));
        proof {
            assert forall|j: int| 0 <= j <= i implies #[trigger] node_list_view(out@)[j]
                == spec_encode_limiter(lv[j]) by {
                if j < i {
                    assert(out@[j] == prev[j]);
                    assert(node_list_view(prev)[j] == spec_encode_limiter(lv[j]));
                }
            }
        }
        i += 1;
    }
    proof {
        assert(node_list_view(out@) =~= spec_encode_limiters(lv));
    }
    Node::List(out)
}

/// The canonical action encoding: `lhs`, `op`, `rhs`, with explicit
/// nulls for an absent comparison.
pub open spec fn spec_encode_action(a: ActionV) -> NodeV {
    NodeV::Mapping(
        seq![
            ("lhs"@, spec_encode_value(a.lhs)),
            (
                "op"@,
                match a.op {
                    Some(o) => NodeV::Str(spec_op_name(o)),
                    None => NodeV::Null,
                },
            ),
            (
                "rhs"@,
                match a.rhs {
                    Some(v) => spec_encode_value(v),
                    None => NodeV::Null,
                },
            ),
        ],
    )
}

pub fn encode_action(a: &LhsValueAction) -> (r: Node)
    requires
        action_wf(action_view(*a)),
    ensures
        node_view(r) == spec_encode_action(action_view(*a)),
{
    let lhs = encode_value(&a.lhs);
    let op = match &a.op {
        Some(o) => Node::Str(String::from_str(op_name(o))),
        None => Node::Null,
    };
    let rhs = match &a.rhs {
        Some(v) => encode_value(v),
        None => Node::Null,
    };
    let ghost av = action_view(*a);
    let es = vec![
        (String::from_str("lhs"), lhs),
        (String::from_str("op"), op),
        (String::from_str("rhs"), rhs),
    ];
    proof {
        assert(entry_list_view(es@) =~= seq![
            ("lhs"@, spec_encode_value(av.lhs)),
            (
                "op"@,
                match av.op {
                    Some(o) => NodeV::Str(spec_op_name(o)),
                    None => NodeV::Null,
                },
            ),
            (
                "rhs"@,
                match av.rhs {
                    Some(v) => spec_encode_value(v),
                    None => NodeV::Null,
                },
            ),
        ]);
    }
    Node::Mapping(es)
}

pub open spec fn spec_encode_counter(c: Counter) -> NodeV {
    match c {
        Counter::Number(n) => NodeV::Int(n as int),
        Counter::All => NodeV::Str("all"@),
        Counter::Any => NodeV::Str("any"@),
    }
}

pub fn encode_counter(c: &Counter) -> (r: Node)
    requires
        c matches Counter::Number(n) ==> n <= i64::MAX,
    ensures
        node_view(r) == spec_encode_counter(*c),
{
    match c {
        Counter::Number(n) => Node::Int(*n as i64),
        Counter::All => Node::Str(String::from_str("all")),
        Counter::Any => Node::Str(String::from_str("any")),
    }
}

pub open spec fn opt_str_node(s: Option<Seq<char>>) -> NodeV {
    match s {
        Some(x) => NodeV::Str(x),
        None => NodeV::Null,
    }
}

pub open spec fn opt_bool_node(b: Option<bool>) -> NodeV {
    match b {
        Some(x) => NodeV::Bool(x),
        None => NodeV::Null,
    }
}

/// The canonical course encoding: every recognized field emitted
/// explicitly, with a null for each absent optional attribute.
pub open spec fn spec_encode_course(c: CourseV) -> NodeV {
    NodeV::Mapping(
        seq![
            ("course"@, NodeV::Str(c.course)),
            ("section"@, opt_str_node(c.section)),
            (
                "year"@,
                match c.year {
                    Some(y) => NodeV::Int(y as int),
                    None => NodeV::Null,
                },
            ),
            ("semester"@, opt_str_node(c.semester)),
            ("lab"@, opt_bool_node(c.lab)),
            ("can_match_used"@, opt_bool_node(c.can_match_used)),
        ],
    )
}

pub fn encode_course(c: &CourseRule) -> (r: Node)
    requires
        rule_wf(RuleV::Course(course_view(*c))),
    ensures
        node_view(r) == spec_encode_course(course_view(*c)),
{
    let section = match &c.section {
        Some(s) => Node::Str(s.clone()),
        None => Node::Null,
    };
    let year = match &c.year {
        Some(y) => Node::Int(*y as i64),
        None => Node::Null,
    };
    let semester = match &c.semester {
        Some(s) => Node::Str(s.clone()),
        None => Node::Null,
    };
    let lab = match &c.lab {
        Some(b) => Node::Bool(*b),
        None => Node::Null,
    };
    let cmu = match &c.can_match_used {
        Some(b) => Node::Bool(*b),
        None => Node::Null,
    };
    let ghost cv = course_view(*c);
    let es = vec![
        (String::from_str("course"), Node::Str(c.course.clone())),
        (String::from_str("section"), section),
        (String::from_str("year"), year),
        (String::from_str("semester"), semester),
        (String::from_str("lab"), lab),
        (String::from_str("can_match_used"), cmu),
    ];
    proof {
        assert(entry_list_view(es@) =~= seq![
            ("course"@, NodeV::Str(cv.course)),
            ("section"@, opt_str_node(cv.section)),
            (
                "year"@,
                match cv.year {
                    Some(y) => NodeV::Int(y as int),
                    None => NodeV::Null,
                },
            ),
            ("semester"@, opt_str_node(cv.semester)),
            ("lab"@, opt_bool_node(cv.lab)),
            ("can_match_used"@, opt_bool_node(cv.can_match_used)),
        ]);
    }
    Node::Mapping(es)
}

/// The canonical reference encoding: always both fields.
pub open spec fn spec_encode_req(q: ReqRefV) -> NodeV {
    NodeV::Mapping(
        seq![
            ("requirement"@, NodeV::Str(q.requirement)),
            ("optional"@, NodeV::Bool(q.optional)),
        ],
    )
}

pub fn encode_req(q: &RequirementRule) -> (r: Node)
    ensures
        node_view(r) == spec_encode_req(req_ref_view(*q)),
{
    let es = vec![
        (String::from_str("requirement"), Node::Str(q.requirement.clone())),
        (String::from_str("optional"), Node::Bool(q.optional)),
    ];
    proof {
        assert(entry_list_view(es@) =~= seq![
            ("requirement"@, NodeV::Str(q.requirement@)),
            ("optional"@, NodeV::Bool(q.optional)),
        ]);
    }
    Node::Mapping(es)
}

/// The canonical selection encoding: selector (with its save name),
/// then limit, filter, kind and action, with explicit nulls.
pub open spec fn spec_encode_given(g: GivenRuleV) -> NodeV {
    let head = match g.given {
        GivenV::AllCourses => seq![("given"@, NodeV::Str("courses"@))],
        GivenV::NamedVariable(s) => seq![
            ("given"@, NodeV::Str("save"@)),
            ("save"@, NodeV::Str(s)),
        ],
    };
    let tail = seq![
        (
            "limit"@,
            match g.limit {
                Some(ls) => NodeV::List(spec_encode_limiters(ls)),
                None => NodeV::Null,
            },
        ),
        (
            "where"@,
            match g.filter {
                Some(cv) => spec_encode_clause(cv),
                None => NodeV::Null,
            },
        ),
        ("what"@, NodeV::Str("courses"@)),
        ("do"@, spec_encode_action(g.action)),
    ];
    NodeV::Mapping(head + tail)
}

pub fn encode_given(g: &GivenRule) -> (r: Node)
    requires
        rule_wf(RuleV::Given(given_rule_view(*g))),
    ensures
        node_view(r) == spec_encode_given(given_rule_view(*g)),
{
    let mut out: Vec<(String, Node)> = Vec::new();
    match &g.given {
        Given::AllCourses => {
            out.push((String::from_str("given"), Node::Str(String::from_str("courses"))));
        },
        Given::NamedVariable { save } => {
            out.push((String::from_str("given"), Node::Str(String::from_str("save"))));
            out.push((String::from_str("save"), Node::Str(save.clone())));
        },
    }
    let limit = match &g.limit {
        Some(ls) => encode_limiters(ls),
        None => Node::Null,
    };
    out.push((String::from_str("limit"), limit));
    let filter = match &g.filter {
        Some(c) => encode_clause(c),
        None => Node::Null,
    };
    out.push((String::from_str("where"), filter));
    out.push((String::from_str("what"), Node::Str(String::from_str("courses"))));
    out.push((String::from_str("do"), encode_action(&g.action)));
    proof {
        let gv = given_rule_view(*g);
        let head = match gv.given {
            GivenV::AllCourses => seq![("given"@, NodeV::Str("courses"@))],
            GivenV::NamedVariable(s) => seq![
                ("given"@, NodeV::Str("save"@)),
                ("save"@, NodeV::Str(s)),
            ],
        };
        let tail = seq![
            (
                "limit"@,
                match gv.limit {
                    Some(ls) => NodeV::List(spec_encode_limiters(ls)),
                    None => NodeV::Null,
                },
            ),
            (
                "where"@,
                match gv.filter {
                    Some(fv) => spec_encode_clause(fv),
                    None => NodeV::Null,
                },
            ),
            ("what"@, NodeV::Str("courses"@)),
            ("do"@, spec_encode_action(gv.action)),
        ];
        assert(entry_list_view(out@) =~= head + tail);
    }
    Node::Mapping(out)
}

/// The canonical rule encoding, the exact inverse of the decoder's
/// canonical forms: every recognized field explicit.
pub open spec fn spec_encode_rule(rv: RuleV) -> NodeV
    decreases rv,
{
    match rv {
        RuleV::Course(c) => spec_encode_course(c),
        RuleV::Requirement(q) => spec_encode_req(q),
        RuleV::CountOf(cnt, of) => NodeV::Mapping(
            seq![
                ("count"@, spec_encode_counter(cnt)),
                ("of"@, NodeV::List(spec_encode_rule_list(of))),
            ],
        ),
        RuleV::Both(pair) => NodeV::Mapping(
            seq![("both"@, NodeV::List(spec_encode_rule_list(pair)))],
        ),
        RuleV::Either(pair) => NodeV::Mapping(
            seq![("either"@, NodeV::List(spec_encode_rule_list(pair)))],
        ),
        RuleV::Given(g) => spec_encode_given(g),
        RuleV::Do(a) => NodeV::Mapping(seq![("do"@, spec_encode_action(a))]),
    }
}

pub open spec fn spec_encode_rule_list(s: Seq<RuleV>) -> Seq<NodeV>
    decreases s,
{
    Seq::new(
        s.len(),
        |i: int| if 0 <= i < s.len() { spec_encode_rule(s[i]) } else { NodeV::Null },
    )
}

/// Encodes one rule canonically.
#[verifier::loop_isolation(false)]
pub fn encode_rule(r: &Rule) -> (out: Node)
    requires
        rule_wf(rule_view(*r)),
    ensures
        node_view(out) == spec_encode_rule(rule_view(*r)),
    decreases *r,
{
    match r {
        Rule::Course(c) => encode_course(c),
        Rule::Requirement(q) => encode_req(q),
        Rule::CountOf(c) => {
            let ghost ov = rule_list_view(c.of@);
            proof {
                lemma_rule_list_wf_index(ov);
            }
            let cnt = encode_counter(&c.count);
            let mut items: Vec<Node> = Vec::new();
            let mut i: usize = 0;
            while i < c.of.len()
                invariant
                    0 <= i <= c.of@.len(),
                    items@.len() == i,
                    forall|j: int| 0 <= j < i ==> #[trigger] node_list_view(items@)[j]
                        == spec_encode_rule(ov[j]),
                decreases c.of@.len() - i,
            {
                proof {
                    assert(decreases_to!(*r => c.of@[i as int]));
                    assert(ov[i as int] == rule_view(c.of@[i as int]));
                }
                let ghost prev = items@;
                items.push(encode_rule(&c.of[i]));
                proof {
                    assert forall|j: int| 0 <= j <= i implies #[trigger] node_list_view(items@)[j]
                        == spec_encode_rule(ov[j]) by {
                        if j < i {
                            assert(items@[j] == prev[j]);
                            assert(node_list_view(prev)[j] == spec_encode_rule(ov[j]));
                        }
                    }
                }
                i += 1;
            }
            proof {
                assert(node_list_view(items@) =~= spec_encode_rule_list(ov));
            }
            let es = vec![
                (String::from_str("count"), cnt),
                (String::from_str("of"), Node::List(items)),
            ];
            proof {
                assert(entry_list_view(es@) =~= seq![
                    ("count"@, spec_encode_counter(c.count)),
                    ("of"@, NodeV::List(spec_encode_rule_list(ov))),
                ]);
            }
            Node::Mapping(es)
        },
        Rule::Both(b) => {
            let ghost pair = seq![rule_view(*b.both.0), rule_view(*b.both.1)];
            proof {
                lemma_rule_list_wf_index(pair);
                assert(pair[0] == rule_view(*b.both.0));
                assert(pair[1] == rule_view(*b.both.1));
            }
            let ea = encode_rule(&b.both.0);
            let eb = encode_rule(&b.both.1);
            let items: Vec<Node> = vec![ea, eb];
            proof {
                assert(node_list_view(items@) =~= spec_encode_rule_list(pair));
            }
            let es = vec![(String::from_str("both"), Node::List(items))];
            proof {
                assert(entry_list_view(es@) =~= seq![
                    ("both"@, NodeV::List(spec_encode_rule_list(pair))),
                ]);
            }
            Node::Mapping(es)
        },
        Rule::Either(e) => {
            let ghost pair = seq![rule_view(*e.either.0), rule_view(*e.either.1)];
            proof {
                lemma_rule_list_wf_index(pair);
                assert(pair[0] == rule_view(*e.either.0));
                assert(pair[1] == rule_view(*e.either.1));
            }
            let ea = encode_rule(&e.either.0);
            let eb = encode_rule(&e.either.1);
            let items: Vec<Node> = vec![ea, eb];
            proof {
                assert(node_list_view(items@) =~= spec_encode_rule_list(pair));
            }
            let es = vec![(String::from_str("either"), Node::List(items))];
            proof {
                assert(entry_list_view(es@) =~= seq![
                    ("either"@, NodeV::List(spec_encode_rule_list(pair))),
                ]);
            }
            Node::Mapping(es)
        },
        Rule::Given(g) => encode_given(g),
        Rule::Do(d) => {
            let a = encode_action(&d.action);
            let es = vec![(String::from_str("do"), a)];
            proof {
                assert(entry_list_view(es@) =~= seq![
                    ("do"@, spec_encode_action(action_view(d.action))),
                ]);
            }
            Node::Mapping(es)
        },
    }
}

/// Encodes a list of rules as one list node.
#[verifier::loop_isolation(false)]
pub fn encode_rules(rs: &Vec<Rule>) -> (out: Node)
    requires
        rule_list_wf(rule_list_view(rs@)),
    ensures
        node_view(out) == NodeV::List(spec_encode_rule_list(rule_list_view(rs@))),
{
    let ghost rv = rule_list_view(rs@);
    proof {
        lemma_rule_list_wf_index(rv);
    }
    let mut items: Vec<Node> = Vec::new();
    let mut i: usize = 0;
    while i < rs.len()
        invariant
            0 <= i <= rs@.len(),
            items@.len() == i,
            forall|j: int| 0 <= j < i ==> #[trigger] node_list_view(items@)[j] == spec_encode_rule(
                rv[j],
            ),
        decreases rs@.len() - i,
    {
        proof {
            assert(rv[i as int] == rule_view(rs@[i as int]));
        }
        let ghost prev = items@;
        items.push(encode_rule(&rs[i]));
        proof {
            assert forall|j: int| 0 <= j <= i implies #[trigger] node_list_view(items@)[j]
                == spec_encode_rule(rv[j]) by {
                if j < i {
                    assert(items@[j] == prev[j]);
                    assert(node_list_view(prev)[j] == spec_encode_rule(rv[j]));
                }
            }
        }
        i += 1;
    }
    proof {
        assert(node_list_view(items@) =~= spec_encode_rule_list(rv));
    }
    Node::List(items)
}


} // verus!
