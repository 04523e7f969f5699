use vstd::prelude::*;
use crate::value::{value_view, Operator, Literal, ValueV};
use crate::action::ActionV;
use crate::rule::{
    course_view, rule_list_view, rule_view, Counter, CourseRule, CourseV, Rule, RuleV,
};
use crate::traits::PrettyPrint;

verus! {

broadcast use vstd::std_specs::vec::group_vec_axioms;

/// Rendering failed: no canned phrase covers the rule's combination.
#[derive(Debug, PartialEq, Eq, Structural, Clone, Copy)]
pub struct RenderError;

pub open spec fn digit_char(d: int) -> char {
    if d == 0 {
        '0'
    } else if d == 1 {
        '1'
    } else if d == 2 {
        '2'
    } else if d == 3 {
        '3'
    } else if d == 4 {
        '4'
    } else if d == 5 {
        '5'
    } else if d == 6 {
        '6'
    } else if d == 7 {
        '7'
    } else if d == 8 {
        '8'
    } else {
        '9'
    }
}

/// The decimal digits of a whole number.
pub open spec fn spec_digits(n: u64) -> Seq<char>
    decreases n,
{
    if n < 10 {
        seq![digit_char(n as int)]
    } else {
        spec_digits(n / 10) + seq![digit_char((n % 10) as int)]
    }
}

fn digit_str(d: u64) -> (r: &'static str)
    requires
        d < 10,
    ensures
        r@ == seq![digit_char(d as int)],
{
    if d == 0 {
        let r = "0";
        proof {
            reveal_strlit("0");
            assert(r@ =~= seq![digit_char(d as int)]);
        }
        r
    } else if d == 1 {
        let r = "1";
        proof {
            reveal_strlit("1");
            assert(r@ =~= seq![digit_char(d as int)]);
        }
        r
    } else if d == 2 {
        let r = "2";
        proof {
            reveal_strlit("2");
            assert(r@ =~= seq![digit_char(d as int)]);
        }
        r
    } else if d == 3 {
        let r = "3";
        proof {
            reveal_strlit("3");
            assert(r@ =~= seq![digit_char(d as int)]);
        }
        r
    } else if d == 4 {
        let r = "4";
        proof {
            reveal_strlit("4");
            assert(r@ =~= seq![digit_char(d as int)]);
        }
        r
    } else if d == 5 {
        let r = "5";
        proof {
            reveal_strlit("5");
            assert(r@ =~= seq![digit_char(d as int)]);
        }
        r
    } else if d == 6 {
        let r = "6";
        proof {
            reveal_strlit("6");
            assert(r@ =~= seq![digit_char(d as int)]);
        }
        r
    } else if d == 7 {
        let r = "7";
        proof {
            reveal_strlit("7");
            assert(r@ =~= seq![digit_char(d as int)]);
        }
        r
    } else if d == 8 {
        let r = "8";
        proof {
            reveal_strlit("8");
            assert(r@ =~= seq![digit_char(d as int)]);
        }
        r
    } else {
        let r = "9";
        proof {
            reveal_strlit("9");
            assert(r@ =~= seq![digit_char(d as int)]);
        }
        r
    }
}

/// The decimal text of a whole number.
pub fn digits_string(n: u64) -> (r: String)
    ensures
        r@ == spec_digits(n),
    decreases n,
{
    if n < 10 {
        String::from_str(digit_str(n))
    } else {
        let mut s = digits_string(n / 10);
        s.append(digit_str(n % 10));
        s
    }
}

/// Small whole numbers spelled out as words, larger ones as digits.
pub open spec fn spec_number_phrase(n: u64) -> Seq<char> {
    if n == 0 {
        "zero"@
    } else if n == 1 {
        "one"@
    } else if n == 2 {
        "two"@
    } else if n == 3 {
        "three"@
    } else if n == 4 {
        "four"@
    } else if n == 5 {
        "five"@
    } else if n == 6 {
        "six"@
    } else if n == 7 {
        "seven"@
    } else if n == 8 {
        "eight"@
    } else if n == 9 {
        "nine"@
    } else if n == 10 {
        "ten"@
    } else {
        spec_digits(n)
    }
}

pub fn number_phrase(n: u64) -> (r: String)
    ensures
        r@ == spec_number_phrase(n),
{
    if n == 0 {
        String::from_str("zero")
    } else if n == 1 {
        String::from_str("one")
    } else if n == 2 {
        String::from_str("two")
    } else if n == 3 {
        String::from_str("three")
    } else if n == 4 {
        String::from_str("four")
    } else if n == 5 {
        String::from_str("five")
    } else if n == 6 {
        String::from_str("six")
    } else if n == 7 {
        String::from_str("seven")
    } else if n == 8 {
        String::from_str("eight")
    } else if n == 9 {
        String::from_str("nine")
    } else if n == 10 {
        String::from_str("ten")
    } else {
        digits_string(n)
    }
}

/// A course's short label: the code, with the term and year in
/// parentheses when either is present.
pub open spec fn spec_course_label(c: CourseV) -> Seq<char> {
    match (c.semester, c.year) {
        (Some(sem), Some(y)) => c.course + " ("@ + sem + " "@ + spec_digits(y) + ")"@,
        (Some(sem), None) => c.course + " ("@ + sem + ")"@,
        (None, Some(y)) => c.course + " ("@ + spec_digits(y) + ")"@,
        (None, None) => c.course,
    }
}

pub fn course_label(c: &CourseRule) -> (r: String)
    ensures
        r@ == spec_course_label(course_view(*c)),
{
    let mut s = c.course.clone();
    match (&c.semester, &c.year) {
        (Some(sem), Some(y)) => {
            s.append(" (");
            s.append(sem.as_str());
            s.append(" ");
            let d = digits_string(*y);
            s.append(d.as_str());
            s.append(")");
        },
        (Some(sem), None) => {
            s.append(" (");
            s.append(sem.as_str());
            s.append(")");
        },
        (None, Some(y)) => {
            s.append(" (");
            let d = digits_string(*y);
            s.append(d.as_str());
            s.append(")");
        },
        (None, None) => {},
    }
    s
}

/// The label of a rule standing inside a pair phrase; only a course
/// has one.
pub open spec fn spec_child_label(rv: RuleV) -> Result<Seq<char>, RenderError> {
    match rv {
        RuleV::Course(c) => Ok(spec_course_label(c)),
        _ => Err(RenderError),
    }
}

pub open spec fn spec_cmp_phrase(op: Operator) -> Seq<char> {
    match op {
        Operator::EqualTo => "equal to"@,
        Operator::NotEqualTo => "not equal to"@,
        Operator::LessThan => "less than"@,
        Operator::LessThanEqualTo => "less than or equal to"@,
        Operator::GreaterThan => "greater than"@,
        Operator::GreaterThanEqualTo => "greater than or equal to"@,
    }
}

pub fn cmp_phrase(op: &Operator) -> (r: &'static str)
    ensures
        r@ == spec_cmp_phrase(*op),
{
    match op {
        Operator::EqualTo => "equal to",
        Operator::NotEqualTo => "not equal to",
        Operator::LessThan => "less than",
        Operator::LessThanEqualTo => "less than or equal to",
        Operator::GreaterThan => "greater than",
        Operator::GreaterThanEqualTo => "greater than or equal to",
    }
}

/// How an action operand reads inside a `do` sentence: a text names a
/// saved subset, a number reads as digits, the sentinel as the count.
pub open spec fn spec_operand_phrase(v: ValueV) -> Result<Seq<char>, RenderError> {
    match v {
        ValueV::Str(s) => Ok("the computed result of the subset “"@ + s + "”"@),
        ValueV::Integer(n) => if 0 <= n <= i64::MAX {
            Ok(spec_digits(n as u64))
        } else {
            Err(RenderError)
        },
        ValueV::Count => Ok("the count"@),
    }
}

pub fn operand_phrase(v: &Literal) -> (r: Result<String, RenderError>)
    ensures
        match r {
            Ok(s) => spec_operand_phrase(value_view(*v)) == Ok::<Seq<char>, RenderError>(s@),
            Err(e) => spec_operand_phrase(value_view(*v)) == Err::<Seq<char>, RenderError>(e),
        },
{
    match v {
        Literal::Str(s) => {
            let mut out = String::from_str("the computed result of the subset “");
            out.append(s.as_str());
            out.append("”");
            Ok(out)
        },
        Literal::Integer(n) => {
            if *n <= (i64::MAX as u64) {
                Ok(digits_string(*n))
            } else {
                Err(RenderError)
            }
        },
        Literal::Count => Ok(String::from_str("the count")),
    }
}

/// The canned phrase of a selection's pass condition: a comparison of
/// the count against a whole number.
pub open spec fn spec_given_phrase(a: ActionV) -> Result<Seq<char>, RenderError> {
    match (a.lhs, a.op, a.rhs) {
        (ValueV::Count, Some(op), Some(ValueV::Integer(n))) => if 0 <= n <= i64::MAX {
            let unit: Seq<char> = if n == 1 {
                " course"@
            } else {
                " courses"@
            };
            match op {
                Operator::EqualTo => Ok("have exactly "@ + spec_number_phrase(n as u64) + unit),
                Operator::LessThan => Ok(
                    "have fewer than "@ + spec_number_phrase(n as u64) + unit,
                ),
                Operator::LessThanEqualTo => Ok(
                    "have at most "@ + spec_number_phrase(n as u64) + unit,
                ),
                Operator::GreaterThan => Ok(
                    "have more than "@ + spec_number_phrase(n as u64) + unit,
                ),
                Operator::GreaterThanEqualTo => Ok(
                    "have at least "@ + spec_number_phrase(n as u64) + unit,
                ),
                Operator::NotEqualTo => Err(RenderError),
            }
        } else {
            Err(RenderError)
        },
        _ => Err(RenderError),
    }
}

/// The sentence of a bare action: both sides rendered as operand
/// phrases around the comparison.
pub open spec fn spec_do_phrase(a: ActionV) -> Result<Seq<char>, RenderError> {
    match (a.op, a.rhs) {
        (Some(op), Some(rhs)) => match spec_operand_phrase(a.lhs) {
            Err(e) => Err(e),
            Ok(lp) => match spec_operand_phrase(rhs) {
                Err(e) => Err(e),
                Ok(rp) => Ok(
                    "ensure that "@ + lp + " is "@ + spec_cmp_phrase(op) + " "@ + rp,
                ),
            },
        },
        _ => Err(RenderError),
    }
}

/// English prose for a rule tree. A one-of-one counted choice reads
/// as its only child; a failure to find a canned phrase propagates.
pub open spec fn spec_print_rule(rv: RuleV) -> Result<Seq<char>, RenderError>
    decreases rv,
{
    match rv {
        RuleV::Course(c) => Ok("take "@ + spec_course_label(c)),
        RuleV::Requirement(q) => Ok(
            "complete the “"@ + q.requirement + "”"@ + (if q.optional {
                " (optional)"@
            } else {
                Seq::<char>::empty()
            }) + " requirement"@,
        ),
        RuleV::CountOf(cnt, of) => if cnt == (Counter::Number(1u64)) && of.len() == 1 {
            spec_print_rule(of[0])
        } else {
            let head = match cnt {
                Counter::All => "complete all of the following: "@,
                Counter::Any => "complete any of the following: "@,
                Counter::Number(n) => "complete "@ + spec_number_phrase(n)
                    + " of the following: "@,
            };
            match spec_print_list(of) {
                Err(e) => Err(e),
                Ok(t) => Ok(head + t),
            }
        },
        RuleV::Both(pair) => if pair.len() == 2 {
            match spec_child_label(pair[0]) {
                Err(e) => Err(e),
                Ok(la) => match spec_child_label(pair[1]) {
                    Err(e) => Err(e),
                    Ok(lb) => Ok("take both "@ + la + " and "@ + lb),
                },
            }
        } else {
            Err(RenderError)
        },
        RuleV::Either(pair) => if pair.len() == 2 {
            match spec_child_label(pair[0]) {
                Err(e) => Err(e),
                Ok(la) => match spec_child_label(pair[1]) {
                    Err(e) => Err(e),
                    Ok(lb) => Ok("take either "@ + la + " or "@ + lb),
                },
            }
        } else {
            Err(RenderError)
        },
        RuleV::Given(g) => spec_given_phrase(g.action),
        RuleV::Do(a) => spec_do_phrase(a),
    }
}

/// Children's sentences joined by semicolons.
pub open spec fn spec_print_list(s: Seq<RuleV>) -> Result<Seq<char>, RenderError>
    decreases s,
{
    if s.len() == 0 {
        Ok(Seq::<char>::empty())
    } else if s.len() == 1 {
        spec_print_rule(s[0])
    } else {
        match spec_print_rule(s[0]) {
            Err(e) => Err(e),
            Ok(h) => match spec_print_list(s.drop_first()) {
                Err(e) => Err(e),
                Ok(t) => Ok(h + "; "@ + t),
            },
        }
    }
}

/// Renders one rule as an English sentence.
#[verifier::loop_isolation(false)]
pub fn print_rule(r: &Rule) -> (out: Result<String, RenderError>)
    ensures
        match out {
            Ok(s) => spec_print_rule(rule_view(*r)) == Ok::<Seq<char>, RenderError>(s@),
            Err(e) => spec_print_rule(rule_view(*r)) == Err::<Seq<char>, RenderError>(e),
        },
    decreases *r, 1int,
{
    match r {
        Rule::Course(c) => {
            let mut s = String::from_str("take ");
            let lab = course_label(c);
            s.append(lab.as_str());
            Ok(s)
        },
        Rule::Requirement(q) => {
            let mut s = String::from_str("complete the “");
            s.append(q.requirement.as_str());
            s.append("”");
            if q.optional {
                s.append(" (optional)");
            }
            s.append(" requirement");
            Ok(s)
        },
        Rule::CountOf(c) => {
            let one = match &c.count {
                Counter::Number(n) => *n == 1,
                _ => false,
            };
            if one && c.of.len() == 1 {
                proof {
                    assert(decreases_to!(*r => c.of@[0]));
                    assert(rule_list_view(c.of@)[0] == rule_view(c.of@[0]));
                }
                print_rule(&c.of[0])
            } else {
                let mut s = match &c.count {
                    Counter::All => String::from_str("complete all of the following: "),
                    Counter::Any => String::from_str("complete any of the following: "),
                    Counter::Number(n) => {
                        let mut h = String::from_str("complete ");
                        let p = number_phrase(*n);
                        h.append(p.as_str());
                        h.append(" of the following: ");
                        h
                    },
                };
                proof {
                    assert(rule_list_view(c.of@).skip(0) =~= rule_list_view(c.of@));
                }
                match print_list_from(&c.of, 0) {
                    Err(e) => Err(e),
                    Ok(t) => {
                        s.append(t.as_str());
                        Ok(s)
                    },
                }
            }
        },
        Rule::Both(b) => {
            proof {
                let pair = seq![rule_view(*b.both.0), rule_view(*b.both.1)];
                assert(pair[0] == rule_view(*b.both.0));
                assert(pair[1] == rule_view(*b.both.1));
            }
            match child_label(&b.both.0) {
                Err(e) => Err(e),
                Ok(la) => match child_label(&b.both.1) {
                    Err(e) => Err(e),
                    Ok(lb) => {
                        let mut s = String::from_str("take both ");
                        s.append(la.as_str());
                        s.append(" and ");
                        s.append(lb.as_str());
                        Ok(s)
                    },
                },
            }
        },
        Rule::Either(e) => {
            proof {
                let pair = seq![rule_view(*e.either.0), rule_view(*e.either.1)];
                assert(pair[0] == rule_view(*e.either.0));
                assert(pair[1] == rule_view(*e.either.1));
            }
            match child_label(&e.either.0) {
                Err(er) => Err(er),
                Ok(la) => match child_label(&e.either.1) {
                    Err(er) => Err(er),
                    Ok(lb) => {
                        let mut s = String::from_str("take either ");
                        s.append(la.as_str());
                        s.append(" or ");
                        s.append(lb.as_str());
                        Ok(s)
                    },
                },
            }
        },
        Rule::Given(g) => {
            match (&g.action.lhs, &g.action.op, &g.action.rhs) {
                (Literal::Count, Some(op), Some(Literal::Integer(n))) => {
                    if *n <= (i64::MAX as u64) {
                        let unit: &'static str = if *n == 1 {
                            " course"
                        } else {
                            " courses"
                        };
                        let head: &'static str = match op {
                            Operator::EqualTo => "have exactly ",
                            Operator::LessThan => "have fewer than ",
                            Operator::LessThanEqualTo => "have at most ",
                            Operator::GreaterThan => "have more than ",
                            Operator::GreaterThanEqualTo => "have at least ",
                            Operator::NotEqualTo => {
                                return Err(RenderError);
                            },
                        };
                        let mut s = String::from_str(head);
                        let p = number_phrase(*n);
                        s.append(p.as_str());
                        s.append(unit);
                        Ok(s)
                    } else {
                        Err(RenderError)
                    }
                },
                _ => Err(RenderError),
            }
        },
        Rule::Do(d) => {
            match (&d.action.op, &d.action.rhs) {
                (Some(op), Some(rhs)) => match operand_phrase(&d.action.lhs) {
                    Err(e) => Err(e),
                    Ok(lp) => match operand_phrase(rhs) {
                        Err(e) => Err(e),
                        Ok(rp) => {
                            let mut s = String::from_str("ensure that ");
                            s.append(lp.as_str());
                            s.append(" is ");
                            s.append(cmp_phrase(op));
                            s.append(" ");
                            s.append(rp.as_str());
                            Ok(s)
                        },
                    },
                },
                _ => Err(RenderError),
            }
        },
    }
}

fn child_label(r: &Rule) -> (out: Result<String, RenderError>)
    ensures
        match out {
            Ok(s) => spec_child_label(rule_view(*r)) == Ok::<Seq<char>, RenderError>(s@),
            Err(e) => spec_child_label(rule_view(*r)) == Err::<Seq<char>, RenderError>(e),
        },
{
    match r {
        Rule::Course(c) => Ok(course_label(c)),
        _ => Err(RenderError),
    }
}

/// Renders the tail of a rule list from position `i`, semicolon-joined.
fn print_list_from(of: &Vec<Rule>, i: usize) -> (out: Result<String, RenderError>)
    requires
        i <= of@.len(),
    ensures
        ({
            let s = rule_list_view(of@).skip(i as int);
            match out {
                Ok(t) => spec_print_list(s) == Ok::<Seq<char>, RenderError>(t@),
                Err(e) => spec_print_list(s) == Err::<Seq<char>, RenderError>(e),
            }
        }),
    decreases of@, of@.len() - i,
{
    let ghost s = rule_list_view(of@).skip(i as int);
    if i >= of.len() {
        proof {
            assert(s =~= Seq::<RuleV>::empty());
        }
        Ok(String::new())
    } else {
        proof {
            assert(s[0] == rule_list_view(of@)[i as int]);
            assert(rule_list_view(of@)[i as int] == rule_view(of@[i as int]));
            assert(decreases_to!(of@ => of@[i as int]));
        }
        match print_rule(&of[i]) {
            Err(e) => Err(e),
            Ok(h) => {
                if i + 1 == of.len() {
                    proof {
                        assert(s.len() == 1);
                    }
                    Ok(h)
                } else {
                    proof {
                        assert(s.drop_first() =~= rule_list_view(of@).skip(i as int + 1));
                    }
                    match print_list_from(of, i + 1) {
                        Err(e) => Err(e),
                        Ok(t) => {
                            let mut out = h;
                            out.append("; ");
                            out.append(t.as_str());
                            Ok(out)
                        },
                    }
                }
            },
        }
    }
}

impl PrettyPrint for Rule {
    open spec fn print_spec(&self) -> Result<Seq<char>, RenderError> {
        spec_print_rule(rule_view(*self))
    }

    fn print(&self) -> (r: Result<String, RenderError>) {
        print_rule(self)
    }
}

/// Rendering is a function of the rule's value alone: equal rules
/// render to equal text, or fail alike.
pub proof fn lemma_render_deterministic(a: RuleV, b: RuleV)
    requires
        a == b,
    ensures
        spec_print_rule(a) == spec_print_rule(b),
{
}

/// A one-of-one counted choice reads exactly as its only child.
pub proof fn lemma_count_of_one_collapses(child: RuleV)
    ensures
        spec_print_rule(RuleV::CountOf(Counter::Number(1u64), seq![child])) == spec_print_rule(
            child,
        ),
{
    assert(seq![child][0] == child);
}

} // verus!
