use vstd::prelude::*;
use crate::node::{first_unknown, key_in, key_index, lemma_key_index, map_get, NodeV};
use crate::value::{
    ckey_index, clause_sorted, clause_wf, key_lt, lemma_ckey_index, lemma_clause_insert_append,
    lemma_key_lt_irrefl, limiter_wf, value_wf, wrapped_wf, LimiterV, ValueV, WrappedValueV,
};
use crate::action::{action_wf, spec_op_name, spec_parse_op_token, ActionV};
use crate::value::Operator;
use crate::decode::{
    action_keys, both_keys, count_keys, course_keys, do_keys, either_keys, given_keys,
    given_save_keys, limiter_keys, req_keys, spec_decode_action_node, spec_decode_clause,
    spec_decode_clause_entries, spec_decode_counter, spec_decode_course, spec_decode_given,
    spec_decode_limiter, spec_decode_limiters, spec_decode_operand, spec_decode_op_field,
    spec_decode_req, spec_decode_rhs_field, spec_decode_rule, spec_decode_rule_list,
    spec_decode_value_tagged, spec_opt_bool_field, spec_opt_str_field, spec_opt_u64_field,
    DecodeErrV,
};
use crate::encode::{
    spec_encode_action, spec_encode_clause, spec_encode_clause_entries, spec_encode_counter,
    spec_encode_course, spec_encode_given, spec_encode_limiter, spec_encode_limiters,
    spec_encode_req, spec_encode_rule, spec_encode_rule_list, spec_encode_value,
    spec_encode_wrapped,
};
use crate::rule::{rule_list_wf, rule_wf, Counter, CourseV, GivenV, ReqRefV, RuleV, What};

verus! {

broadcast use vstd::string::group_string_axioms;

/// A tagged literal encoding decodes back to the same literal.
pub proof fn lemma_literal_rt(v: ValueV)
    requires
        value_wf(v),
        !(v is Count),
    ensures
        spec_decode_value_tagged(spec_encode_value(v)) == Ok::<ValueV, DecodeErrV>(v),
{
    reveal_strlit("Integer");
    reveal_strlit("String");
    assert("Integer"@.len() == 7);
    assert("String"@.len() == 6);
    match v {
        ValueV::Integer(n) => {
            let es = seq![("Integer"@, NodeV::Int(n))];
            assert(es[0].0 == "Integer"@);
        },
        ValueV::Str(s) => {
            let es = seq![("String"@, NodeV::Str(s))];
            assert(es[0].0 != "Integer"@);
            assert(es[0].0 == "String"@);
        },
        ValueV::Count => {},
    }
}

/// A canonical operand encoding decodes back to the same literal.
pub proof fn lemma_operand_rt(v: ValueV)
    requires
        value_wf(v),
    ensures
        spec_decode_operand(spec_encode_value(v)) == Ok::<ValueV, DecodeErrV>(v),
{
    match v {
        ValueV::Count => {
            reveal_strlit("Count");
        },
        _ => {
            lemma_literal_rt(v);
        },
    }
}

/// A canonical predicate encoding decodes back to the same predicate.
pub proof fn lemma_wrapped_rt(w: WrappedValueV)
    requires
        wrapped_wf(w),
    ensures
        crate::decode::spec_decode_wrapped(spec_encode_wrapped(w)) == Ok::<
            WrappedValueV,
            DecodeErrV,
        >(w),
{
    reveal_strlit("Single");
    reveal_strlit("EqualTo");
    reveal_strlit("NotEqualTo");
    assert("Single"@.len() == 6);
    assert("EqualTo"@.len() == 7);
    assert("NotEqualTo"@.len() == 10);
    match w {
        WrappedValueV::EqualTo(v) => {
            lemma_literal_rt(v);
            let inner = NodeV::Mapping(seq![("EqualTo"@, spec_encode_value(v))]);
            let es = seq![("Single"@, inner)];
            assert(es[0].0 == "Single"@);
            assert(seq![("EqualTo"@, spec_encode_value(v))][0].0 == "EqualTo"@);
        },
        WrappedValueV::NotEqualTo(v) => {
            lemma_literal_rt(v);
            let inner = NodeV::Mapping(seq![("NotEqualTo"@, spec_encode_value(v))]);
            let es = seq![("Single"@, inner)];
            assert(es[0].0 == "Single"@);
            assert(seq![("NotEqualTo"@, spec_encode_value(v))][0].0 != "EqualTo"@);
            assert(seq![("NotEqualTo"@, spec_encode_value(v))][0].0 == "NotEqualTo"@);
        },
    }
}

proof fn lemma_clause_entries_rt(cv: Seq<(Seq<char>, WrappedValueV)>, acc: Seq<
    (Seq<char>, WrappedValueV),
>)
    requires
        clause_sorted(acc + cv),
        forall|i: int| 0 <= i < cv.len() ==> wrapped_wf(#[trigger] cv[i].1),
    ensures
        spec_decode_clause_entries(spec_encode_clause_entries(cv), acc) == Ok::<
            Seq<(Seq<char>, WrappedValueV)>,
            DecodeErrV,
        >(acc + cv),
    decreases cv.len(),
{
    let enc = spec_encode_clause_entries(cv);
    if cv.len() == 0 {
        assert(enc.len() == 0);
        assert(acc + cv =~= acc);
    } else {
        assert(enc[0] == (cv[0].0, spec_encode_wrapped(cv[0].1)));
        lemma_wrapped_rt(cv[0].1);
        let key = cv[0].0;
        assert forall|j: int| 0 <= j < acc.len() implies key_lt(#[trigger] acc[j].0, key) by {
            assert((acc + cv)[j] == acc[j]);
            assert((acc + cv)[acc.len() as int] == cv[0]);
        }
        assert forall|j: int| 0 <= j < acc.len() implies acc[j].0 != key by {
            if acc[j].0 == key {
                lemma_key_lt_irrefl(key);
            }
        }
        lemma_ckey_index(acc, key);
        if ckey_index(acc, key) >= 0 {
            assert(acc[ckey_index(acc, key)].0 == key);
            assert(false);
        }
        lemma_clause_insert_append(acc, key, cv[0].1);
        let acc2 = acc.push(cv[0]);
        assert(acc2 + cv.drop_first() =~= acc + cv);
        assert forall|i: int| 0 <= i < cv.drop_first().len() implies wrapped_wf(
            #[trigger] cv.drop_first()[i].1,
        ) by {
            assert(cv.drop_first()[i] == cv[i + 1]);
        }
        lemma_clause_entries_rt(cv.drop_first(), acc2);
        assert(enc.drop_first() =~= spec_encode_clause_entries(cv.drop_first()));
    }
}

/// A canonical clause encoding decodes back to the same clause.
pub proof fn lemma_clause_rt(cv: Seq<(Seq<char>, WrappedValueV)>)
    requires
        clause_wf(cv),
    ensures
        spec_decode_clause(spec_encode_clause(cv)) == Ok::<
            Seq<(Seq<char>, WrappedValueV)>,
            DecodeErrV,
        >(cv),
{
    assert(Seq::<(Seq<char>, WrappedValueV)>::empty() + cv =~= cv);
    assert(clause_sorted(Seq::<(Seq<char>, WrappedValueV)>::empty() + cv));
    lemma_clause_entries_rt(cv, Seq::empty());
}

/// A canonical limiter encoding decodes back to the same limiter.
pub proof fn lemma_limiter_rt(l: LimiterV)
    requires
        limiter_wf(l),
    ensures
        spec_decode_limiter(spec_encode_limiter(l)) == Ok::<LimiterV, DecodeErrV>(l),
{
    reveal_strlit("where");
    reveal_strlit("at_most");
    assert("where"@.len() == 5);
    assert("at_most"@.len() == 7);
    reveal_with_fuel(first_unknown, 5);
    reveal_with_fuel(key_index, 5);
    let es = seq![
        ("where"@, spec_encode_clause(l.filter)),
        ("at_most"@, NodeV::Int(l.at_most as int)),
    ];
    assert(es[0].0 == "where"@);
    assert(es.drop_first()[0] == es[1]);
    assert("at_most"@ != "where"@);
    assert(key_in("where"@, limiter_keys())) by {
        assert(limiter_keys()[0] == "where"@);
    }
    assert(key_in("at_most"@, limiter_keys())) by {
        assert(limiter_keys()[1] == "at_most"@);
    }
    assert(first_unknown(es, limiter_keys()) is None) by {
        assert(es.drop_first().drop_first() =~= Seq::<(Seq<char>, NodeV)>::empty());
    }
    assert(key_index(es, "where"@) == 0);
    assert(key_index(es.drop_first(), "at_most"@) == 0);
    assert(key_index(es, "at_most"@) == 1);
    lemma_clause_rt(l.filter);
    assert(l.at_most as int <= i64::MAX);
}

proof fn lemma_limiters_rt_aux(ls: Seq<LimiterV>, acc: Seq<LimiterV>)
    requires
        forall|i: int| 0 <= i < ls.len() ==> limiter_wf(#[trigger] ls[i]),
    ensures
        spec_decode_limiters(spec_encode_limiters(ls), acc) == Ok::<Seq<LimiterV>, DecodeErrV>(
            acc + ls,
        ),
    decreases ls.len(),
{
    let enc = spec_encode_limiters(ls);
    if ls.len() == 0 {
        assert(acc + ls =~= acc);
    } else {
        assert(enc[0] == spec_encode_limiter(ls[0]));
        lemma_limiter_rt(ls[0]);
        let acc2 = acc.push(ls[0]);
        assert(acc2 + ls.drop_first() =~= acc + ls);
        assert forall|i: int| 0 <= i < ls.drop_first().len() implies limiter_wf(
            #[trigger] ls.drop_first()[i],
        ) by {
            assert(ls.drop_first()[i] == ls[i + 1]);
        }
        lemma_limiters_rt_aux(ls.drop_first(), acc2);
        assert(enc.drop_first() =~= spec_encode_limiters(ls.drop_first()));
    }
}

/// A canonical limiter-list encoding decodes back to the same list.
pub proof fn lemma_limiters_rt(ls: Seq<LimiterV>)
    requires
        forall|i: int| 0 <= i < ls.len() ==> limiter_wf(#[trigger] ls[i]),
    ensures
        spec_decode_limiters(spec_encode_limiters(ls), Seq::empty()) == Ok::<
            Seq<LimiterV>,
            DecodeErrV,
        >(ls),
{
    assert(Seq::<LimiterV>::empty() + ls =~= ls);
    lemma_limiters_rt_aux(ls, Seq::empty());
}

/// Every operator's canonical name parses back to the operator.
pub proof fn lemma_op_name_rt(o: Operator)
    ensures
        spec_parse_op_token(spec_op_name(o)) == Some(o),
{
    reveal_strlit("==");
    reveal_strlit("!=");
    reveal_strlit("<");
    reveal_strlit("<=");
    reveal_strlit(">");
    reveal_strlit(">=");
    reveal_strlit("EqualTo");
    reveal_strlit("NotEqualTo");
    reveal_strlit("LessThan");
    reveal_strlit("LessThanEqualTo");
    reveal_strlit("GreaterThan");
    reveal_strlit("GreaterThanEqualTo");
    assert("=="@.len() == 2);
    assert("!="@.len() == 2);
    assert("<"@.len() == 1);
    assert("<="@.len() == 2);
    assert(">"@.len() == 1);
    assert(">="@.len() == 2);
    assert("EqualTo"@.len() == 7);
    assert("NotEqualTo"@.len() == 10);
    assert("LessThan"@.len() == 8);
    assert("LessThanEqualTo"@.len() == 15);
    assert("GreaterThan"@.len() == 11);
    assert("GreaterThanEqualTo"@.len() == 18);
}

/// A canonical action encoding decodes back to the same action.
pub proof fn lemma_action_rt(a: ActionV)
    requires
        action_wf(a),
    ensures
        spec_decode_action_node(spec_encode_action(a)) == Ok::<ActionV, DecodeErrV>(a),
{
    reveal_strlit("lhs");
    reveal_strlit("op");
    reveal_strlit("rhs");
    assert("lhs"@.len() == 3);
    assert("op"@.len() == 2);
    assert("rhs"@.len() == 3);
    assert("lhs"@[0] == 'l');
    assert("rhs"@[0] == 'r');
    reveal_with_fuel(first_unknown, 6);
    reveal_with_fuel(key_index, 6);
    let opn: NodeV = match a.op {
        Some(o) => NodeV::Str(spec_op_name(o)),
        None => NodeV::Null,
    };
    let rhn: NodeV = match a.rhs {
        Some(v) => spec_encode_value(v),
        None => NodeV::Null,
    };
    let es = seq![("lhs"@, spec_encode_value(a.lhs)), ("op"@, opn), ("rhs"@, rhn)];
    assert("op"@ != "lhs"@);
    assert("rhs"@ != "lhs"@);
    assert("rhs"@ != "op"@);
    assert(es.drop_first()[0] == es[1]);
    assert(es.drop_first().drop_first()[0] == es[2]);
    assert(es.drop_first().drop_first().drop_first() =~= Seq::<(Seq<char>, NodeV)>::empty());
    assert(key_in("lhs"@, action_keys())) by {
        assert(action_keys()[0] == "lhs"@);
    }
    assert(key_in("op"@, action_keys())) by {
        assert(action_keys()[1] == "op"@);
    }
    assert(key_in("rhs"@, action_keys())) by {
        assert(action_keys()[2] == "rhs"@);
    }
    assert(first_unknown(es, action_keys()) is None);
    assert(key_index(es, "lhs"@) == 0);
    assert(key_index(es, "op"@) == 1);
    assert(key_index(es, "rhs"@) == 2);
    lemma_operand_rt(a.lhs);
    match a.op {
        Some(o) => {
            lemma_op_name_rt(o);
            // an operator name is never a null or a mapping, so the
            // `op` field reads back as exactly this operator
            assert(spec_decode_op_field(es) == Ok::<Option<Operator>, DecodeErrV>(a.op));
        },
        None => {
            assert(spec_decode_op_field(es) == Ok::<Option<Operator>, DecodeErrV>(a.op));
        },
    }
    match a.rhs {
        Some(v) => {
            lemma_operand_rt(v);
            assert(!(spec_encode_value(v) is Null));
            assert(spec_decode_rhs_field(es) == Ok::<Option<ValueV>, DecodeErrV>(a.rhs));
        },
        None => {
            assert(spec_decode_rhs_field(es) == Ok::<Option<ValueV>, DecodeErrV>(a.rhs));
        },
    }
}

/// A canonical course encoding decodes back to the same course.
#[verifier::rlimit(100)]
pub proof fn lemma_course_rt(c: CourseV)
    requires
        rule_wf(RuleV::Course(c)),
    ensures
        spec_encode_course(c) matches NodeV::Mapping(es) && key_index(es, "course"@) >= 0
            && spec_decode_course(es) == Ok::<CourseV, DecodeErrV>(c),
{
    reveal_strlit("course");
    reveal_strlit("section");
    reveal_strlit("year");
    reveal_strlit("semester");
    reveal_strlit("lab");
    reveal_strlit("can_match_used");
    assert("course"@.len() == 6);
    assert("section"@.len() == 7);
    assert("year"@.len() == 4);
    assert("semester"@.len() == 8);
    assert("lab"@.len() == 3);
    assert("can_match_used"@.len() == 14);
    reveal_with_fuel(first_unknown, 8);
    reveal_with_fuel(key_index, 8);
    assert(key_in("course"@, course_keys())) by {
        assert(course_keys()[0] == "course"@);
    }
    assert(key_in("section"@, course_keys())) by {
        assert(course_keys()[1] == "section"@);
    }
    assert(key_in("year"@, course_keys())) by {
        assert(course_keys()[2] == "year"@);
    }
    assert(key_in("semester"@, course_keys())) by {
        assert(course_keys()[3] == "semester"@);
    }
    assert(key_in("lab"@, course_keys())) by {
        assert(course_keys()[4] == "lab"@);
    }
    assert(key_in("can_match_used"@, course_keys())) by {
        assert(course_keys()[5] == "can_match_used"@);
    }
    let es = match spec_encode_course(c) {
        NodeV::Mapping(es) => es,
        _ => Seq::empty(),
    };
    assert(es.len() == 6);
    assert(es.drop_first()[0] == es[1]);
    assert(es.drop_first().drop_first()[0] == es[2]);
    assert(es.drop_first().drop_first().drop_first()[0] == es[3]);
    assert(es.drop_first().drop_first().drop_first().drop_first()[0] == es[4]);
    assert(es.drop_first().drop_first().drop_first().drop_first().drop_first()[0] == es[5]);
    assert(es.drop_first().drop_first().drop_first().drop_first().drop_first().drop_first()
        =~= Seq::<(Seq<char>, NodeV)>::empty());
    assert(first_unknown(es, course_keys()) is None);
    assert(key_index(es, "course"@) == 0);
    assert(key_index(es, "section"@) == 1);
    assert(key_index(es, "year"@) == 2);
    assert(key_index(es, "semester"@) == 3);
    assert(key_index(es, "lab"@) == 4);
    assert(key_index(es, "can_match_used"@) == 5);
    assert(spec_opt_str_field(es, "section"@) == Ok::<Option<Seq<char>>, DecodeErrV>(
        c.section,
    ));
    assert(spec_opt_u64_field(es, "year"@) == Ok::<Option<u64>, DecodeErrV>(c.year));
    assert(spec_opt_str_field(es, "semester"@) == Ok::<Option<Seq<char>>, DecodeErrV>(
        c.semester,
    ));
    assert(spec_opt_bool_field(es, "lab"@) == Ok::<Option<bool>, DecodeErrV>(c.lab));
    assert(spec_opt_bool_field(es, "can_match_used"@) == Ok::<Option<bool>, DecodeErrV>(
        c.can_match_used,
    ));
    assert(spec_decode_course(es) =~~= Ok::<CourseV, DecodeErrV>(c));
}

/// A canonical reference encoding decodes back to the same reference.
pub proof fn lemma_req_rt(q: ReqRefV)
    ensures
        spec_encode_req(q) matches NodeV::Mapping(es) && key_index(es, "requirement"@) >= 0
            && spec_decode_req(es) == Ok::<ReqRefV, DecodeErrV>(q),
{
    reveal_strlit("requirement");
    reveal_strlit("optional");
    assert("requirement"@.len() == 11);
    assert("optional"@.len() == 8);
    reveal_with_fuel(first_unknown, 4);
    reveal_with_fuel(key_index, 4);
    let es = seq![("requirement"@, NodeV::Str(q.requirement)), ("optional"@, NodeV::Bool(q.optional))];
    assert(es.drop_first()[0] == es[1]);
    assert(es.drop_first().drop_first() =~= Seq::<(Seq<char>, NodeV)>::empty());
    assert(key_in("requirement"@, req_keys())) by {
        assert(req_keys()[0] == "requirement"@);
    }
    assert(key_in("optional"@, req_keys())) by {
        assert(req_keys()[1] == "optional"@);
    }
    assert(first_unknown(es, req_keys()) is None);
    assert(key_index(es, "requirement"@) == 0);
    assert(key_index(es, "optional"@) == 1);
}

/// A canonical counter encoding decodes back to the same counter.
pub proof fn lemma_counter_rt(c: Counter)
    requires
        c matches Counter::Number(n) ==> n <= i64::MAX,
    ensures
        spec_decode_counter(spec_encode_counter(c)) == Ok::<Counter, DecodeErrV>(c),
{
    reveal_strlit("all");
    reveal_strlit("any");
    assert("all"@.len() == 3);
    assert("any"@.len() == 3);
    assert("all"@[1] == 'l');
    assert("any"@[1] == 'n');
}

/// A canonical selection encoding decodes back to the same selection.
#[verifier::rlimit(100)]
pub proof fn lemma_given_rt(g: crate::rule::GivenRuleV)
    requires
        rule_wf(RuleV::Given(g)),
    ensures
        spec_encode_given(g) matches NodeV::Mapping(es) && key_index(es, "given"@) >= 0
            && spec_decode_given(es) == Ok::<crate::rule::GivenRuleV, DecodeErrV>(g),
{
    reveal_strlit("given");
    reveal_strlit("save");
    reveal_strlit("limit");
    reveal_strlit("where");
    reveal_strlit("what");
    reveal_strlit("do");
    reveal_strlit("courses");
    assert("given"@.len() == 5);
    assert("save"@.len() == 4);
    assert("limit"@.len() == 5);
    assert("where"@.len() == 5);
    assert("what"@.len() == 4);
    assert("do"@.len() == 2);
    assert("courses"@.len() == 7);
    assert("given"@[0] == 'g');
    assert("limit"@[0] == 'l');
    assert("where"@[0] == 'w');
    assert("save"@[0] == 's');
    assert("what"@[0] == 'w');
    assert("save"@[1] == 'a');
    assert("what"@[1] == 'h');
    reveal_with_fuel(first_unknown, 8);
    reveal_with_fuel(key_index, 8);
    let es = match spec_encode_given(g) {
        NodeV::Mapping(m) => m,
        _ => Seq::empty(),
    };
    match g.limit {
        Some(ls) => {
            lemma_limiters_rt(ls);
        },
        None => {},
    }
    match g.filter {
        Some(cv) => {
            lemma_clause_rt(cv);
        },
        None => {},
    }
    lemma_action_rt(g.action);
    match g.given {
        GivenV::AllCourses => {
            assert(es.len() == 5);
            assert(es[0] == ("given"@, NodeV::Str("courses"@)));
            assert(es.drop_first()[0] == es[1]);
            assert(es.drop_first().drop_first()[0] == es[2]);
            assert(es.drop_first().drop_first().drop_first()[0] == es[3]);
            assert(es.drop_first().drop_first().drop_first().drop_first()[0] == es[4]);
            assert(es.drop_first().drop_first().drop_first().drop_first().drop_first() =~= Seq::<
                (Seq<char>, NodeV),
            >::empty());
            assert(key_in("given"@, given_keys())) by {
                assert(given_keys()[0] == "given"@);
            }
            assert(key_in("what"@, given_keys())) by {
                assert(given_keys()[1] == "what"@);
            }
            assert(key_in("where"@, given_keys())) by {
                assert(given_keys()[2] == "where"@);
            }
            assert(key_in("limit"@, given_keys())) by {
                assert(given_keys()[3] == "limit"@);
            }
            assert(key_in("do"@, given_keys())) by {
                assert(given_keys()[4] == "do"@);
            }
            assert(first_unknown(es, given_keys()) is None);
            assert(key_index(es, "given"@) == 0);
            assert(key_index(es, "limit"@) == 1);
            assert(key_index(es, "where"@) == 2);
            assert(key_index(es, "what"@) == 3);
            assert(key_index(es, "do"@) == 4);
            assert(spec_decode_given(es) =~~= Ok::<crate::rule::GivenRuleV, DecodeErrV>(g));
        },
        GivenV::NamedVariable(sv) => {
            assert(es.len() == 6);
            assert(es[0] == ("given"@, NodeV::Str("save"@)));
            assert(es[1] == ("save"@, NodeV::Str(sv)));
            assert(es.drop_first()[0] == es[1]);
            assert(es.drop_first().drop_first()[0] == es[2]);
            assert(es.drop_first().drop_first().drop_first()[0] == es[3]);
            assert(es.drop_first().drop_first().drop_first().drop_first()[0] == es[4]);
            assert(es.drop_first().drop_first().drop_first().drop_first().drop_first()[0] == es[5]);
            assert(es.drop_first().drop_first().drop_first().drop_first().drop_first().drop_first()
                =~= Seq::<(Seq<char>, NodeV)>::empty());
            assert(key_in("given"@, given_save_keys())) by {
                assert(given_save_keys()[0] == "given"@);
            }
            assert(key_in("save"@, given_save_keys())) by {
                assert(given_save_keys()[1] == "save"@);
            }
            assert(key_in("what"@, given_save_keys())) by {
                assert(given_save_keys()[2] == "what"@);
            }
            assert(key_in("where"@, given_save_keys())) by {
                assert(given_save_keys()[3] == "where"@);
            }
            assert(key_in("limit"@, given_save_keys())) by {
                assert(given_save_keys()[4] == "limit"@);
            }
            assert(key_in("do"@, given_save_keys())) by {
                assert(given_save_keys()[5] == "do"@);
            }
            assert("save"@ != "courses"@);
            assert(first_unknown(es, given_save_keys()) is None);
            assert(key_index(es, "given"@) == 0);
            assert(key_index(es, "save"@) == 1);
            assert(key_index(es, "limit"@) == 2);
            assert(key_index(es, "where"@) == 3);
            assert(key_index(es, "what"@) == 4);
            assert(key_index(es, "do"@) == 5);
            assert(spec_decode_given(es) =~~= Ok::<crate::rule::GivenRuleV, DecodeErrV>(g));
        },
    }
}

/// Helper: the dispatch keys that a canonical encoding never holds.
proof fn lemma_dispatch_keys()
    ensures
        "course"@.len() == 6,
        "requirement"@.len() == 11,
        "count"@.len() == 5,
        "of"@.len() == 2,
        "both"@.len() == 4,
        "either"@.len() == 6,
        "given"@.len() == 5,
        "save"@.len() == 4,
        "what"@.len() == 4,
        "where"@.len() == 5,
        "limit"@.len() == 5,
        "do"@.len() == 2,
        "section"@.len() == 7,
        "year"@.len() == 4,
        "semester"@.len() == 8,
        "lab"@.len() == 3,
        "can_match_used"@.len() == 14,
        "optional"@.len() == 8,
        "course"@[0] == 'c',
        "count"@[0] == 'c',
        "given"@[0] == 'g',
        "limit"@[0] == 'l',
        "where"@[0] == 'w',
        "both"@[0] == 'b',
        "save"@[0] == 's',
        "what"@[0] == 'w',
        "year"@[0] == 'y',
        "of"@[0] == 'o',
        "do"@[0] == 'd',
        "either"@[0] == 'e',
        "count"@[1] == 'o',
        "of"@[1] == 'f',
        "do"@[1] == 'o',
{
    reveal_strlit("course");
    reveal_strlit("requirement");
    reveal_strlit("count");
    reveal_strlit("of");
    reveal_strlit("both");
    reveal_strlit("either");
    reveal_strlit("given");
    reveal_strlit("save");
    reveal_strlit("what");
    reveal_strlit("where");
    reveal_strlit("limit");
    reveal_strlit("do");
    reveal_strlit("section");
    reveal_strlit("year");
    reveal_strlit("semester");
    reveal_strlit("lab");
    reveal_strlit("can_match_used");
    reveal_strlit("optional");
}

/// Round trip: decoding the canonical encoding of any well-formed
/// rule shape reproduces that shape exactly.
pub proof fn lemma_rule_rt(rv: RuleV)
    requires
        rule_wf(rv),
    ensures
        spec_decode_rule(spec_encode_rule(rv)) == Ok::<RuleV, DecodeErrV>(rv),
    decreases rv, 1int,
{
    match rv {
        RuleV::Course(c) => {
            lemma_course_rt(c);
        },
        RuleV::Requirement(q) => {
            lemma_rt_requirement_arm(q);
        },
        RuleV::CountOf(cnt, of) => {
            lemma_rule_list_rt(of, Seq::empty());
            assert(Seq::<RuleV>::empty() + of =~= of);
            lemma_rt_countof_arm(cnt, of);
        },
        RuleV::Both(pair) => {
            crate::rule::lemma_rule_list_wf_index(pair);
            lemma_rule_rt(pair[0]);
            lemma_rule_rt(pair[1]);
            lemma_rt_pair_arm(pair);
        },
        RuleV::Either(pair) => {
            crate::rule::lemma_rule_list_wf_index(pair);
            lemma_rule_rt(pair[0]);
            lemma_rule_rt(pair[1]);
            lemma_rt_pair_arm(pair);
        },
        RuleV::Given(g) => {
            lemma_given_rt(g);
            lemma_rt_given_arm(g);
        },
        RuleV::Do(a) => {
            lemma_action_rt(a);
            lemma_rt_do_arm(a);
        },
    }
}

#[verifier::rlimit(100)]
proof fn lemma_rt_requirement_arm(q: ReqRefV)
    ensures
        spec_decode_rule(spec_encode_rule(RuleV::Requirement(q))) == Ok::<RuleV, DecodeErrV>(
            RuleV::Requirement(q),
        ),
{
    lemma_dispatch_keys();
    reveal_with_fuel(key_index, 8);
    reveal_with_fuel(first_unknown, 8);
    lemma_req_rt(q);
    let es = match spec_encode_rule(RuleV::Requirement(q)) {
        NodeV::Mapping(m) => m,
        _ => Seq::empty(),
    };
    assert(es.drop_first()[0] == es[1]);
    assert(es.drop_first().drop_first() =~= Seq::<(Seq<char>, NodeV)>::empty());
    assert(key_index(es, "course"@) < 0);
}

#[verifier::rlimit(100)]
proof fn lemma_rt_countof_arm(cnt: Counter, of: Seq<RuleV>)
    requires
        rule_wf(RuleV::CountOf(cnt, of)),
        spec_decode_rule_list(spec_encode_rule_list(of), Seq::empty()) == Ok::<
            Seq<RuleV>,
            DecodeErrV,
        >(of),
    ensures
        spec_decode_rule(spec_encode_rule(RuleV::CountOf(cnt, of))) == Ok::<RuleV, DecodeErrV>(
            RuleV::CountOf(cnt, of),
        ),
{
    lemma_dispatch_keys();
    reveal_with_fuel(key_index, 8);
    reveal_with_fuel(first_unknown, 8);
    let items = spec_encode_rule_list(of);
    let es = seq![("count"@, spec_encode_counter(cnt)), ("of"@, NodeV::List(items))];
    assert(spec_encode_rule(RuleV::CountOf(cnt, of)) == NodeV::Mapping(es));
    assert(es.drop_first()[0] == es[1]);
    assert(es.drop_first().drop_first() =~= Seq::<(Seq<char>, NodeV)>::empty());
    assert(key_index(es, "course"@) < 0);
    assert(key_index(es, "requirement"@) < 0);
    assert(key_index(es, "count"@) == 0);
    assert(key_index(es, "of"@) == 1);
    assert(key_in("count"@, count_keys())) by {
        assert(count_keys()[0] == "count"@);
    }
    assert(key_in("of"@, count_keys())) by {
        assert(count_keys()[1] == "of"@);
    }
    assert(first_unknown(es, count_keys()) is None);
    lemma_counter_rt(cnt);
}

#[verifier::rlimit(100)]
proof fn lemma_rt_pair_arm(pair: Seq<RuleV>)
    requires
        pair.len() == 2,
        spec_decode_rule(spec_encode_rule(pair[0])) == Ok::<RuleV, DecodeErrV>(pair[0]),
        spec_decode_rule(spec_encode_rule(pair[1])) == Ok::<RuleV, DecodeErrV>(pair[1]),
    ensures
        spec_decode_rule(spec_encode_rule(RuleV::Both(pair))) == Ok::<RuleV, DecodeErrV>(
            RuleV::Both(pair),
        ),
        spec_decode_rule(spec_encode_rule(RuleV::Either(pair))) == Ok::<RuleV, DecodeErrV>(
            RuleV::Either(pair),
        ),
{
    lemma_dispatch_keys();
    reveal_with_fuel(key_index, 8);
    reveal_with_fuel(first_unknown, 8);
    let items = spec_encode_rule_list(pair);
    assert(items.len() == 2);
    assert(items[0] == spec_encode_rule(pair[0]));
    assert(items[1] == spec_encode_rule(pair[1]));
    assert(seq![pair[0], pair[1]] =~= pair);
    let esb = seq![("both"@, NodeV::List(items))];
    assert(spec_encode_rule(RuleV::Both(pair)) == NodeV::Mapping(esb));
    assert(esb.drop_first() =~= Seq::<(Seq<char>, NodeV)>::empty());
    assert(key_index(esb, "course"@) < 0);
    assert(key_index(esb, "requirement"@) < 0);
    assert(key_index(esb, "count"@) < 0);
    assert(key_index(esb, "both"@) == 0);
    assert(key_in("both"@, both_keys())) by {
        assert(both_keys()[0] == "both"@);
    }
    assert(first_unknown(esb, both_keys()) is None);
    let ese = seq![("either"@, NodeV::List(items))];
    assert(spec_encode_rule(RuleV::Either(pair)) == NodeV::Mapping(ese));
    assert(ese.drop_first() =~= Seq::<(Seq<char>, NodeV)>::empty());
    assert(key_index(ese, "course"@) < 0);
    assert(key_index(ese, "requirement"@) < 0);
    assert(key_index(ese, "count"@) < 0);
    assert(key_index(ese, "both"@) < 0);
    assert(key_index(ese, "either"@) == 0);
    assert(key_in("either"@, either_keys())) by {
        assert(either_keys()[0] == "either"@);
    }
    assert(first_unknown(ese, either_keys()) is None);
}

#[verifier::rlimit(100)]
proof fn lemma_rt_given_arm(g: crate::rule::GivenRuleV)
    requires
        spec_encode_given(g) matches NodeV::Mapping(es0) && spec_decode_given(es0) == Ok::<
            crate::rule::GivenRuleV,
            DecodeErrV,
        >(g),
    ensures
        spec_decode_rule(spec_encode_rule(RuleV::Given(g))) == Ok::<RuleV, DecodeErrV>(
            RuleV::Given(g),
        ),
{
    lemma_dispatch_keys();
    reveal_with_fuel(key_index, 8);
    reveal_with_fuel(first_unknown, 8);
    let es = match spec_encode_given(g) {
        NodeV::Mapping(m) => m,
        _ => Seq::empty(),
    };
    match g.given {
        GivenV::AllCourses => {
            assert(es.len() == 5);
            assert(es[0] == ("given"@, NodeV::Str("courses"@)));
            assert(es.drop_first()[0] == es[1]);
            assert(es.drop_first().drop_first()[0] == es[2]);
            assert(es.drop_first().drop_first().drop_first()[0] == es[3]);
            assert(es.drop_first().drop_first().drop_first().drop_first()[0] == es[4]);
            assert(es.drop_first().drop_first().drop_first().drop_first().drop_first() =~= Seq::<
                (Seq<char>, NodeV),
            >::empty());
        },
        GivenV::NamedVariable(_) => {
            assert(es.len() == 6);
            assert(es.drop_first()[0] == es[1]);
            assert(es.drop_first().drop_first()[0] == es[2]);
            assert(es.drop_first().drop_first().drop_first()[0] == es[3]);
            assert(es.drop_first().drop_first().drop_first().drop_first()[0] == es[4]);
            assert(es.drop_first().drop_first().drop_first().drop_first().drop_first()[0] == es[5]);
            assert(es.drop_first().drop_first().drop_first().drop_first().drop_first().drop_first()
                =~= Seq::<(Seq<char>, NodeV)>::empty());
        },
    }
    assert(key_index(es, "course"@) < 0);
    assert(key_index(es, "requirement"@) < 0);
    assert(key_index(es, "count"@) < 0);
    assert(key_index(es, "both"@) < 0);
    assert(key_index(es, "either"@) < 0);
    assert(key_index(es, "given"@) == 0);
}

#[verifier::rlimit(100)]
proof fn lemma_rt_do_arm(a: ActionV)
    requires
        spec_decode_action_node(spec_encode_action(a)) == Ok::<ActionV, DecodeErrV>(a),
    ensures
        spec_decode_rule(spec_encode_rule(RuleV::Do(a))) == Ok::<RuleV, DecodeErrV>(RuleV::Do(a)),
{
    lemma_dispatch_keys();
    reveal_with_fuel(key_index, 8);
    reveal_with_fuel(first_unknown, 8);
    let es = seq![("do"@, spec_encode_action(a))];
    assert(spec_encode_rule(RuleV::Do(a)) == NodeV::Mapping(es));
    assert(es.drop_first() =~= Seq::<(Seq<char>, NodeV)>::empty());
    assert(key_index(es, "course"@) < 0);
    assert(key_index(es, "requirement"@) < 0);
    assert(key_index(es, "count"@) < 0);
    assert(key_index(es, "both"@) < 0);
    assert(key_index(es, "either"@) < 0);
    assert(key_index(es, "given"@) < 0);
    assert(key_index(es, "do"@) == 0);
    assert(key_in("do"@, do_keys())) by {
        assert(do_keys()[0] == "do"@);
    }
    assert(first_unknown(es, do_keys()) is None);
}

proof fn lemma_rule_list_rt(s: Seq<RuleV>, acc: Seq<RuleV>)
    requires
        rule_list_wf(s),
    ensures
        spec_decode_rule_list(spec_encode_rule_list(s), acc) == Ok::<Seq<RuleV>, DecodeErrV>(
            acc + s,
        ),
    decreases s, 0int,
{
    let enc = spec_encode_rule_list(s);
    if s.len() == 0 {
        assert(acc + s =~= acc);
    } else {
        assert(enc[0] == spec_encode_rule(s[0]));
        lemma_rule_rt(s[0]);
        let acc2 = acc.push(s[0]);
        assert(acc2 + s.drop_first() =~= acc + s);
        lemma_rule_list_rt(s.drop_first(), acc2);
        assert(enc.drop_first() =~= spec_encode_rule_list(s.drop_first()));
    }
}

/// Shorthand equivalence: a bare text and the one-field course
/// mapping decode to the same course.
pub proof fn lemma_shorthand_equivalence(code: Seq<char>)
    ensures
        spec_decode_rule(NodeV::Str(code)) == spec_decode_rule(
            NodeV::Mapping(seq![("course"@, NodeV::Str(code))]),
        ),
        spec_decode_rule(NodeV::Str(code)) == Ok::<RuleV, DecodeErrV>(
            RuleV::Course(
                CourseV {
                    course: code,
                    section: None,
                    year: None,
                    semester: None,
                    lab: None,
                    can_match_used: None,
                },
            ),
        ),
{
    lemma_dispatch_keys();
    reveal_with_fuel(key_index, 8);
    reveal_with_fuel(first_unknown, 8);
    let es = seq![("course"@, NodeV::Str(code))];
    assert(es.drop_first() =~= Seq::<(Seq<char>, NodeV)>::empty());
    assert(key_index(es, "course"@) == 0);
    assert(key_in("course"@, course_keys())) by {
        assert(course_keys()[0] == "course"@);
    }
    assert(first_unknown(es, course_keys()) is None);
    assert(key_index(es, "section"@) < 0);
    assert(key_index(es, "year"@) < 0);
    assert(key_index(es, "semester"@) < 0);
    assert(key_index(es, "lab"@) < 0);
    assert(key_index(es, "can_match_used"@) < 0);
}

/// Arity law: a pair variant's list decodes only at exactly two
/// elements; any other length is an arity error.
pub proof fn lemma_pair_arity(items: Seq<NodeV>)
    ensures
        items.len() != 2 ==> spec_decode_rule(
            NodeV::Mapping(seq![("both"@, NodeV::List(items))]),
        ) == Err::<RuleV, DecodeErrV>(DecodeErrV::WrongArity("both"@, items.len() as int)),
        items.len() != 2 ==> spec_decode_rule(
            NodeV::Mapping(seq![("either"@, NodeV::List(items))]),
        ) == Err::<RuleV, DecodeErrV>(DecodeErrV::WrongArity("either"@, items.len() as int)),
        items.len() == 2 ==> spec_decode_rule(
            NodeV::Mapping(seq![("both"@, NodeV::List(items))]),
        ) == (match spec_decode_rule(items[0]) {
            Err(e) => Err::<RuleV, DecodeErrV>(e),
            Ok(a) => match spec_decode_rule(items[1]) {
                Err(e) => Err::<RuleV, DecodeErrV>(e),
                Ok(b) => Ok::<RuleV, DecodeErrV>(RuleV::Both(seq![a, b])),
            },
        }),
{
    lemma_dispatch_keys();
    reveal_with_fuel(key_index, 8);
    reveal_with_fuel(first_unknown, 8);
    let esb = seq![("both"@, NodeV::List(items))];
    let ese = seq![("either"@, NodeV::List(items))];
    assert(esb.drop_first() =~= Seq::<(Seq<char>, NodeV)>::empty());
    assert(ese.drop_first() =~= Seq::<(Seq<char>, NodeV)>::empty());
    assert(key_index(esb, "course"@) < 0);
    assert(key_index(esb, "requirement"@) < 0);
    assert(key_index(esb, "count"@) < 0);
    assert(key_index(esb, "both"@) == 0);
    assert(key_in("both"@, both_keys())) by {
        assert(both_keys()[0] == "both"@);
    }
    assert(first_unknown(esb, both_keys()) is None);
    assert(key_index(ese, "course"@) < 0);
    assert(key_index(ese, "requirement"@) < 0);
    assert(key_index(ese, "count"@) < 0);
    assert(key_index(ese, "both"@) < 0);
    assert(key_index(ese, "either"@) == 0);
    assert(key_in("either"@, either_keys())) by {
        assert(either_keys()[0] == "either"@);
    }
    assert(first_unknown(ese, either_keys()) is None);
}

/// Schema strictness: once a mapping's discriminating field picks a
/// variant, any field outside that variant's schema is refused, and
/// the first such field is named in the error.
pub proof fn lemma_schema_strictness(es: Seq<(Seq<char>, NodeV)>, k: Seq<char>)
    ensures
        map_get(es, "course"@) is Some && first_unknown(es, course_keys()) == Some(k)
            ==> spec_decode_rule(NodeV::Mapping(es)) == Err::<RuleV, DecodeErrV>(
            DecodeErrV::UnknownField(k),
        ),
        map_get(es, "course"@) is None && map_get(es, "requirement"@) is Some && first_unknown(
            es,
            req_keys(),
        ) == Some(k) ==> spec_decode_rule(NodeV::Mapping(es)) == Err::<RuleV, DecodeErrV>(
            DecodeErrV::UnknownField(k),
        ),
        map_get(es, "course"@) is None && map_get(es, "requirement"@) is None && map_get(
            es,
            "count"@,
        ) is Some && first_unknown(es, count_keys()) == Some(k) ==> spec_decode_rule(
            NodeV::Mapping(es),
        ) == Err::<RuleV, DecodeErrV>(DecodeErrV::UnknownField(k)),
        map_get(es, "course"@) is None && map_get(es, "requirement"@) is None && map_get(
            es,
            "count"@,
        ) is None && map_get(es, "both"@) is Some && first_unknown(es, both_keys()) == Some(k)
            ==> spec_decode_rule(NodeV::Mapping(es)) == Err::<RuleV, DecodeErrV>(
            DecodeErrV::UnknownField(k),
        ),
        map_get(es, "course"@) is None && map_get(es, "requirement"@) is None && map_get(
            es,
            "count"@,
        ) is None && map_get(es, "both"@) is None && map_get(es, "either"@) is Some
            && first_unknown(es, either_keys()) == Some(k) ==> spec_decode_rule(
            NodeV::Mapping(es),
        ) == Err::<RuleV, DecodeErrV>(DecodeErrV::UnknownField(k)),
        map_get(es, "course"@) is None && map_get(es, "requirement"@) is None && map_get(
            es,
            "count"@,
        ) is None && map_get(es, "both"@) is None && map_get(es, "either"@) is None && map_get(
            es,
            "given"@,
        ) == Some(NodeV::Str("courses"@)) && first_unknown(es, given_keys()) == Some(k)
            ==> spec_decode_rule(NodeV::Mapping(es)) == Err::<RuleV, DecodeErrV>(
            DecodeErrV::UnknownField(k),
        ),
        map_get(es, "course"@) is None && map_get(es, "requirement"@) is None && map_get(
            es,
            "count"@,
        ) is None && map_get(es, "both"@) is None && map_get(es, "either"@) is None && map_get(
            es,
            "given"@,
        ) == Some(NodeV::Str("save"@)) && (map_get(es, "save"@) matches Some(NodeV::Str(_)))
            && first_unknown(es, given_save_keys()) == Some(k) ==> spec_decode_rule(
            NodeV::Mapping(es),
        ) == Err::<RuleV, DecodeErrV>(DecodeErrV::UnknownField(k)),
        map_get(es, "course"@) is None && map_get(es, "requirement"@) is None && map_get(
            es,
            "count"@,
        ) is None && map_get(es, "both"@) is None && map_get(es, "either"@) is None && map_get(
            es,
            "given"@,
        ) is None && map_get(es, "do"@) is Some && first_unknown(es, do_keys()) == Some(k)
            ==> spec_decode_rule(NodeV::Mapping(es)) == Err::<RuleV, DecodeErrV>(
            DecodeErrV::UnknownField(k),
        ),
{
    reveal_strlit("courses");
    reveal_strlit("save");
    assert("courses"@.len() == 7);
    assert("save"@.len() == 4);
}

} // verus!
