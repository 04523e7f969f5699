use vstd::prelude::*;
use crate::value::{
    clause_view, clause_wf, limiter_view, limiter_wf, Clause, Limiter, LimiterV, WrappedValueV,
};
use crate::action::{action_view, action_wf, ActionV, LhsValueAction};
use crate::traits::{Validate, RuleTools, ValidationError};

verus! {

broadcast use vstd::std_specs::vec::group_vec_axioms;

/// A course leaf: a code plus optional section, year, term, lab and
/// reuse-flag attributes.
#[derive(Debug, PartialEq, Clone)]
pub struct CourseRule {
    pub course: String,
    pub section: Option<String>,
    pub year: Option<u64>,
    pub semester: Option<String>,
    pub lab: Option<bool>,
    pub can_match_used: Option<bool>,
}

#[verifier::ext_equal]
pub struct CourseV {
    pub course: Seq<char>,
    pub section: Option<Seq<char>>,
    pub year: Option<u64>,
    pub semester: Option<Seq<char>>,
    pub lab: Option<bool>,
    pub can_match_used: Option<bool>,
}

pub open spec fn opt_str_view(s: Option<String>) -> Option<Seq<char>> {
    match s {
        Some(x) => Some(x@),
        None => None,
    }
}

pub open spec fn course_view(c: CourseRule) -> CourseV {
    CourseV {
        course: c.course@,
        section: opt_str_view(c.section),
        year: c.year,
        semester: opt_str_view(c.semester),
        lab: c.lab,
        can_match_used: c.can_match_used,
    }
}

impl Default for CourseRule {
    /// A course with an empty code and every optional attribute absent.
    fn default() -> (r: CourseRule)
        ensures
            course_view(r) == (CourseV {
                course: Seq::<char>::empty(),
                section: None,
                year: None,
                semester: None,
                lab: None,
                can_match_used: None,
            }),
    {
        let r = CourseRule {
            course: String::new(),
            section: None,
            year: None,
            semester: None,
            lab: None,
            can_match_used: None,
        };
        r
    }
}

/// A reference to another named requirement.
#[derive(Debug, PartialEq, Clone)]
pub struct RequirementRule {
    pub requirement: String,
    pub optional: bool,
}

#[verifier::ext_equal]
pub struct ReqRefV {
    pub requirement: Seq<char>,
    pub optional: bool,
}

pub open spec fn req_ref_view(r: RequirementRule) -> ReqRefV {
    ReqRefV { requirement: r.requirement@, optional: r.optional }
}

/// How many of a rule list must hold: a fixed number, all, or any.
#[derive(Debug, PartialEq, Eq, Structural, Clone, Copy)]
pub enum Counter {
    Number(u64),
    All,
    Any,
}

/// Where a selection draws from: every item of the kind, or a named
/// pre-computed subset.
#[derive(Debug, PartialEq, Clone)]
pub enum Given {
    AllCourses,
    NamedVariable { save: String },
}

#[verifier::ext_equal]
pub enum GivenV {
    AllCourses,
    NamedVariable(Seq<char>),
}

pub open spec fn given_sel_view(g: Given) -> GivenV {
    match g {
        Given::AllCourses => GivenV::AllCourses,
        Given::NamedVariable { save } => GivenV::NamedVariable(save@),
    }
}

/// The kind of item a selection is over.
#[derive(Debug, PartialEq, Eq, Structural, Clone, Copy)]
pub enum What {
    Courses,
}

/// A selection rule: source, item kind, optional filter, optional
/// limiters, and the pass/fail action over the selection.
#[derive(Debug, PartialEq, Clone)]
pub struct GivenRule {
    pub given: Given,
    pub what: What,
    pub filter: Option<Clause>,
    pub limit: Option<Vec<Limiter>>,
    pub action: LhsValueAction,
}

#[verifier::ext_equal]
pub struct GivenRuleV {
    pub given: GivenV,
    pub what: What,
    pub filter: Option<Seq<(Seq<char>, WrappedValueV)>>,
    pub limit: Option<Seq<LimiterV>>,
    pub action: ActionV,
}

pub open spec fn limiter_list_view(s: Seq<Limiter>) -> Seq<LimiterV> {
    Seq::new(
        s.len(),
        |i: int|
            if 0 <= i < s.len() {
                limiter_view(s[i])
            } else {
                LimiterV { filter: Seq::empty(), at_most: 0 }
            },
    )
}

pub open spec fn given_rule_view(g: GivenRule) -> GivenRuleV {
    GivenRuleV {
        given: given_sel_view(g.given),
        what: g.what,
        filter: match g.filter {
            Some(c) => Some(clause_view(c)),
            None => None,
        },
        limit: match g.limit {
            Some(ls) => Some(limiter_list_view(ls@)),
            None => None,
        },
        action: action_view(g.action),
    }
}

/// A counted choice over an ordered list of rules.
#[derive(Debug, PartialEq)]
pub struct CountOfRule {
    pub count: Counter,
    pub of: Vec<Rule>,
}

/// A conjunction of exactly two rules.
#[derive(Debug, PartialEq)]
pub struct BothRule {
    pub both: (Box<Rule>, Box<Rule>),
}

/// A disjunction of exactly two rules.
#[derive(Debug, PartialEq)]
pub struct EitherRule {
    pub either: (Box<Rule>, Box<Rule>),
}

/// A bare action with no selection step.
#[derive(Debug, PartialEq, Clone)]
pub struct DoRule {
    pub action: LhsValueAction,
}

/// The closed rule grammar: a tree of leaf conditions and composites.
#[derive(Debug, PartialEq)]
pub enum Rule {
    Course(CourseRule),
    Requirement(RequirementRule),
    CountOf(CountOfRule),
    Both(BothRule),
    Either(EitherRule),
    Given(GivenRule),
    Do(DoRule),
}

/// The mathematical shape of a rule. Pair variants hold their two
/// children as a length-two sequence.
#[verifier::ext_equal]
pub enum RuleV {
    Course(CourseV),
    Requirement(ReqRefV),
    CountOf(Counter, Seq<RuleV>),
    Both(Seq<RuleV>),
    Either(Seq<RuleV>),
    Given(GivenRuleV),
    Do(ActionV),
}

pub open spec fn rule_view(r: Rule) -> RuleV
    decreases r,
{
    match r {
        Rule::Course(c) => RuleV::Course(course_view(c)),
        Rule::Requirement(q) => RuleV::Requirement(req_ref_view(q)),
        Rule::CountOf(c) => RuleV::CountOf(c.count, rule_list_view(c.of@)),
        Rule::Both(b) => RuleV::Both(seq![rule_view(*b.both.0), rule_view(*b.both.1)]),
        Rule::Either(e) => RuleV::Either(seq![rule_view(*e.either.0), rule_view(*e.either.1)]),
        Rule::Given(g) => RuleV::Given(given_rule_view(g)),
        Rule::Do(d) => RuleV::Do(action_view(d.action)),
    }
}

pub open spec fn rule_list_view(s: Seq<Rule>) -> Seq<RuleV>
    decreases s,
{
    Seq::new(
        s.len(),
        |i: int|
            if 0 <= i < s.len() {
                rule_view(s[i])
            } else {
                RuleV::Both(Seq::empty())
            },
    )
}

/// Structural soundness of a rule shape: pair variants have exactly
/// two children, actions obey their invariant, clause keys are
/// unique, and integers fit the document format.
pub open spec fn rule_wf(rv: RuleV) -> bool
    decreases rv,
{
    match rv {
        RuleV::Course(c) => match c.year {
            Some(y) => y <= i64::MAX,
            None => true,
        },
        RuleV::Requirement(_) => true,
        RuleV::CountOf(cnt, of) => {
            &&& match cnt {
                Counter::Number(n) => n <= i64::MAX,
                _ => true,
            }
            &&& rule_list_wf(of)
        },
        RuleV::Both(pair) => pair.len() == 2 && rule_list_wf(pair),
        RuleV::Either(pair) => pair.len() == 2 && rule_list_wf(pair),
        RuleV::Given(g) => {
            &&& match g.filter {
                Some(cv) => clause_wf(cv),
                None => true,
            }
            &&& match g.limit {
                Some(ls) => forall|i: int| 0 <= i < ls.len() ==> limiter_wf(#[trigger] ls[i]),
                None => true,
            }
            &&& action_wf(g.action)
        },
        RuleV::Do(a) => action_wf(a),
    }
}

pub open spec fn rule_list_wf(s: Seq<RuleV>) -> bool
    decreases s,
{
    if s.len() == 0 {
        true
    } else {
        rule_wf(s[0]) && rule_list_wf(s.drop_first())
    }
}

pub proof fn lemma_rule_list_wf_index(s: Seq<RuleV>)
    ensures
        rule_list_wf(s) <==> (forall|i: int| 0 <= i < s.len() ==> rule_wf(#[trigger] s[i])),
    decreases s,
{
    if s.len() > 0 {
        lemma_rule_list_wf_index(s.drop_first());
        assert forall|j: int| 1 <= j < s.len() implies s.drop_first()[j - 1] == s[j] by {}
        if rule_wf(s[0]) && rule_list_wf(s.drop_first()) {
            assert forall|i: int| 0 <= i < s.len() implies rule_wf(#[trigger] s[i]) by {
                if i >= 1 {
                    assert(rule_wf(s.drop_first()[i - 1]));
                }
            }
        }
    }
}

/// Whether a rule structurally refers to a named, saved subset
/// anywhere in its tree.
pub open spec fn spec_has_save(rv: RuleV) -> bool
    decreases rv,
{
    match rv {
        RuleV::Course(_) => false,
        RuleV::Requirement(_) => false,
        RuleV::CountOf(_, of) => list_has_save(of),
        RuleV::Both(pair) => list_has_save(pair),
        RuleV::Either(pair) => list_has_save(pair),
        RuleV::Given(g) => g.given is NamedVariable,
        RuleV::Do(_) => false,
    }
}

pub open spec fn list_has_save(s: Seq<RuleV>) -> bool
    decreases s,
{
    if s.len() == 0 {
        false
    } else {
        spec_has_save(s[0]) || list_has_save(s.drop_first())
    }
}

proof fn lemma_list_has_save_skip(s: Seq<RuleV>, i: int)
    requires
        0 <= i < s.len(),
    ensures
        list_has_save(s.skip(i)) == (spec_has_save(s[i]) || list_has_save(s.skip(i + 1))),
{
    assert(s.skip(i).len() > 0);
    assert(s.skip(i)[0] == s[i]);
    assert(s.skip(i).drop_first() =~= s.skip(i + 1));
}

/// The immediate rule children of a rule shape, in order.
pub open spec fn spec_children(rv: RuleV) -> Seq<RuleV> {
    match rv {
        RuleV::CountOf(_, of) => of,
        RuleV::Both(pair) => pair,
        RuleV::Either(pair) => pair,
        _ => Seq::empty(),
    }
}

impl RuleTools for Rule {
    open spec fn has_save_spec(&self) -> bool {
        spec_has_save(rule_view(*self))
    }

    #[verifier::loop_isolation(false)]
    fn has_save_rule(&self) -> (r: bool)
        decreases *self,
    {
        match self {
            Rule::Course(_) => {
                proof {
                    assert(!self.has_save_spec());
                }
                false
            },
            Rule::Requirement(_) => false,
            Rule::CountOf(c) => {
                let ghost ov = rule_list_view(c.of@);
                proof {
                    assert(ov.skip(0) =~= ov);
                    assert(self.has_save_spec() == list_has_save(ov));
                }
                let mut i: usize = 0;
                while i < c.of.len()
                    invariant
                        0 <= i <= c.of@.len(),
                        ov == rule_list_view(c.of@),
                        list_has_save(ov) == list_has_save(ov.skip(i as int)),
                    decreases c.of@.len() - i,
                {
                    proof {
                        assert(decreases_to!(*self => c.of@[i as int]));
                        lemma_list_has_save_skip(ov, i as int);
                    }
                    let found = c.of[i].has_save_rule();
                    proof {
                        assert(ov[i as int] == rule_view(c.of@[i as int]));
                    }
                    if found {
                        proof {
                            assert(list_has_save(ov.skip(i as int)));
                        }
                        return true;
                    }
                    i += 1;
                }
                proof {
                    assert(ov.skip(c.of@.len() as int) =~= Seq::<RuleV>::empty());
                }
                false
            },
            Rule::Both(b) => {
                let ra = b.both.0.has_save_rule();
                let rb = b.both.1.has_save_rule();
                proof {
                    reveal_with_fuel(list_has_save, 4);
                    let pair = seq![rule_view(*b.both.0), rule_view(*b.both.1)];
                    assert(pair[0] == rule_view(*b.both.0));
                    assert(pair.drop_first() =~= seq![rule_view(*b.both.1)]);
                    assert(pair.drop_first()[0] == rule_view(*b.both.1));
                    assert(pair.drop_first().drop_first() =~= Seq::<RuleV>::empty());
                    assert(list_has_save(pair) == (ra || rb));
                }
                ra || rb
            },
            Rule::Either(e) => {
                let ra = e.either.0.has_save_rule();
                let rb = e.either.1.has_save_rule();
                proof {
                    reveal_with_fuel(list_has_save, 4);
                    let pair = seq![rule_view(*e.either.0), rule_view(*e.either.1)];
                    assert(pair[0] == rule_view(*e.either.0));
                    assert(pair.drop_first() =~= seq![rule_view(*e.either.1)]);
                    assert(pair.drop_first()[0] == rule_view(*e.either.1));
                    assert(pair.drop_first().drop_first() =~= Seq::<RuleV>::empty());
                    assert(list_has_save(pair) == (ra || rb));
                }
                ra || rb
            },
            Rule::Given(g) => match &g.given {
                Given::AllCourses => false,
                Given::NamedVariable { save: _ } => true,
            },
            Rule::Do(_) => false,
        }
    }
}

impl Validate for Rule {
    open spec fn children_spec(&self) -> Seq<RuleV> {
        spec_children(rule_view(*self))
    }

    #[verifier::loop_isolation(false)]
    fn iter_children(&self) -> (r: Vec<&Rule>) {
        match self {
            Rule::CountOf(c) => {
                proof {
                    assert(self.children_spec() == rule_list_view(c.of@));
                }
                let mut out: Vec<&Rule> = Vec::new();
                let mut i: usize = 0;
                while i < c.of.len()
                    invariant
                        0 <= i <= c.of@.len(),
                        out@.len() == i,
                        forall|j: int| 0 <= j < i ==> rule_view(*out@[j]) == rule_view(c.of@[j]),
                    decreases c.of@.len() - i,
                {
                    out.push(&c.of[i]);
                    i += 1;
                }
                out
            },
            Rule::Both(b) => {
                let out: Vec<&Rule> = vec![&b.both.0, &b.both.1];
                out
            },
            Rule::Either(e) => {
                let out: Vec<&Rule> = vec![&e.either.0, &e.either.1];
                out
            },
            _ => Vec::new(),
        }
    }

    fn validate(&self) -> (r: Result<(), ValidationError>) {
        let children = self.iter_children();
        let mut i: usize = 0;
        while i < children.len()
            decreases children@.len() - i,
        {
            i += 1;
        }
        Ok(())
    }
}

} // verus!
