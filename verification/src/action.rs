use vstd::prelude::*;
use crate::node::str_eq;
use crate::value::{
    is_digit, spec_parse_int, spec_parse_literal, spec_trim, trim_text, parse_literal_text,
    value_view, value_wf, Operator, Literal, ValueV,
};

verus! {

/// A comparison (or bare value reference) between two literals:
/// `op` and `rhs` are both present or both absent.
#[derive(Debug, PartialEq, Clone)]
pub struct LhsValueAction {
    pub lhs: Literal,
    pub op: Option<Operator>,
    pub rhs: Option<Literal>,
}

#[verifier::ext_equal]
pub struct ActionV {
    pub lhs: ValueV,
    pub op: Option<Operator>,
    pub rhs: Option<ValueV>,
}

pub open spec fn action_view(a: LhsValueAction) -> ActionV {
    ActionV {
        lhs: value_view(a.lhs),
        op: a.op,
        rhs: match a.rhs {
            Some(v) => Some(value_view(v)),
            None => None,
        },
    }
}

/// The action invariant: never an operator without a right side, nor
/// the reverse, and literals that fit the document format.
pub open spec fn action_wf(a: ActionV) -> bool {
    &&& (a.op is Some <==> a.rhs is Some)
    &&& value_wf(a.lhs)
    &&& match a.rhs {
        Some(v) => value_wf(v),
        None => true,
    }
}

/// Why an action text failed to parse; failures carry the input.
#[derive(Debug, PartialEq, Clone)]
pub enum ActionError {
    EmptyInput(String),
    MissingOperand(String),
}

#[verifier::ext_equal]
pub enum ActionErrV {
    EmptyInput(Seq<char>),
    MissingOperand(Seq<char>),
}

pub open spec fn action_err_view(e: ActionError) -> ActionErrV {
    match e {
        ActionError::EmptyInput(s) => ActionErrV::EmptyInput(s@),
        ActionError::MissingOperand(s) => ActionErrV::MissingOperand(s@),
    }
}

/// The canonical name of an operator.
pub open spec fn spec_op_name(op: Operator) -> Seq<char> {
    match op {
        Operator::EqualTo => "EqualTo"@,
        Operator::NotEqualTo => "NotEqualTo"@,
        Operator::LessThan => "LessThan"@,
        Operator::LessThanEqualTo => "LessThanEqualTo"@,
        Operator::GreaterThan => "GreaterThan"@,
        Operator::GreaterThanEqualTo => "GreaterThanEqualTo"@,
    }
}

pub fn op_name(op: &Operator) -> (r: &'static str)
    ensures
        r@ == spec_op_name(*op),
{
    match op {
        Operator::EqualTo => "EqualTo",
        Operator::NotEqualTo => "NotEqualTo",
        Operator::LessThan => "LessThan",
        Operator::LessThanEqualTo => "LessThanEqualTo",
        Operator::GreaterThan => "GreaterThan",
        Operator::GreaterThanEqualTo => "GreaterThanEqualTo",
    }
}

/// An operator token: a symbol such as `<=` or a canonical name.
pub open spec fn spec_parse_op_token(t: Seq<char>) -> Option<Operator> {
    if t == "=="@ || t == "EqualTo"@ {
        Some(Operator::EqualTo)
    } else if t == "!="@ || t == "NotEqualTo"@ {
        Some(Operator::NotEqualTo)
    } else if t == "<"@ || t == "LessThan"@ {
        Some(Operator::LessThan)
    } else if t == "<="@ || t == "LessThanEqualTo"@ {
        Some(Operator::LessThanEqualTo)
    } else if t == ">"@ || t == "GreaterThan"@ {
        Some(Operator::GreaterThan)
    } else if t == ">="@ || t == "GreaterThanEqualTo"@ {
        Some(Operator::GreaterThanEqualTo)
    } else {
        None
    }
}

pub fn parse_op_token(t: &str) -> (r: Option<Operator>)
    ensures
        r == spec_parse_op_token(t@),
{
    if str_eq(t, "==") || str_eq(t, "EqualTo") {
        Some(Operator::EqualTo)
    } else if str_eq(t, "!=") || str_eq(t, "NotEqualTo") {
        Some(Operator::NotEqualTo)
    } else if str_eq(t, "<") || str_eq(t, "LessThan") {
        Some(Operator::LessThan)
    } else if str_eq(t, "<=") || str_eq(t, "LessThanEqualTo") {
        Some(Operator::LessThanEqualTo)
    } else if str_eq(t, ">") || str_eq(t, "GreaterThan") {
        Some(Operator::GreaterThan)
    } else if str_eq(t, ">=") || str_eq(t, "GreaterThanEqualTo") {
        Some(Operator::GreaterThanEqualTo)
    } else {
        None
    }
}

/// First operator symbol at or after position `i`, matching the longer
/// symbol first, with the operand range border it implies.
pub open spec fn find_op(s: Seq<char>, i: int) -> Option<(int, Operator, int)>
    decreases s.len() - i,
{
    if i < 0 || i >= s.len() {
        None
    } else {
        let c = s[i];
        if c == '<' {
            if i + 1 < s.len() && s[i + 1] == '=' {
                Some((i, Operator::LessThanEqualTo, i + 2))
            } else {
                Some((i, Operator::LessThan, i + 1))
            }
        } else if c == '>' {
            if i + 1 < s.len() && s[i + 1] == '=' {
                Some((i, Operator::GreaterThanEqualTo, i + 2))
            } else {
                Some((i, Operator::GreaterThan, i + 1))
            }
        } else if c == '=' && i + 1 < s.len() && s[i + 1] == '=' {
            Some((i, Operator::EqualTo, i + 2))
        } else if c == '!' && i + 1 < s.len() && s[i + 1] == '=' {
            Some((i, Operator::NotEqualTo, i + 2))
        } else {
            find_op(s, i + 1)
        }
    }
}

/// An operand token: the `count` keyword, a quoted text, or a bare
/// literal (a number when all digits, else text).
pub open spec fn spec_parse_operand(t: Seq<char>) -> ValueV {
    if t == "count"@ {
        ValueV::Count
    } else if t.len() >= 2 && t[0] == '"' && t[t.len() - 1] == '"' {
        ValueV::Str(t.subrange(1, t.len() - 1))
    } else {
        spec_parse_literal(t)
    }
}

pub fn parse_operand(t: &str) -> (r: Literal)
    ensures
        value_view(r) == spec_parse_operand(t@),
{
    if str_eq(t, "count") {
        return Literal::Count;
    }
    let n = t.unicode_len();
    if n >= 2 && t.get_char(0) == '"' && t.get_char(n - 1) == '"' {
        let inner = t.substring_char(1, n - 1);
        return Literal::Str(inner.to_owned());
    }
    parse_literal_text(t)
}

/// The whole grammar `operand (operator operand)?` over one text:
/// no operator means a bare value reference; an operator with an
/// empty side, or an empty input, is a failure.
pub open spec fn spec_parse_action(s: Seq<char>) -> Result<ActionV, ActionErrV> {
    let t = spec_trim(s);
    if t.len() == 0 {
        Err(ActionErrV::EmptyInput(s))
    } else {
        match find_op(t, 0) {
            None => Ok(ActionV { lhs: spec_parse_operand(t), op: None, rhs: None }),
            Some((j, op, k)) => {
                let lt = spec_trim(t.subrange(0, j));
                let rt = spec_trim(t.subrange(k, t.len() as int));
                if lt.len() == 0 || rt.len() == 0 {
                    Err(ActionErrV::MissingOperand(s))
                } else {
                    Ok(
                        ActionV {
                            lhs: spec_parse_operand(lt),
                            op: Some(op),
                            rhs: Some(spec_parse_operand(rt)),
                        },
                    )
                }
            },
        }
    }
}

proof fn lemma_find_op_bounds(s: Seq<char>, i: int)
    requires
        0 <= i,
    ensures
        match find_op(s, i) {
            Some(f) => i <= f.0 < s.len() && f.0 < f.2 <= s.len(),
            None => true,
        },
    decreases s.len() - i,
{
    if 0 <= i < s.len() {
        lemma_find_op_bounds(s, i + 1);
    }
}

/// Parses `lhs [op rhs]` from free text.
pub fn parse_action(s: &str) -> (r: Result<LhsValueAction, ActionError>)
    ensures
        match r {
            Ok(a) => spec_parse_action(s@) == Ok::<ActionV, ActionErrV>(action_view(a)),
            Err(e) => spec_parse_action(s@) == Err::<ActionV, ActionErrV>(action_err_view(e)),
        },
{
    let t = trim_text(s);
    let n = t.unicode_len();
    if n == 0 {
        return Err(ActionError::EmptyInput(s.to_owned()));
    }
    let mut found: Option<(usize, Operator, usize)> = None;
    let mut j: usize = 0;
    while j < n
        invariant_except_break
            found is None,
        invariant
            n == t@.len(),
            0 <= j <= n,
            find_op(t@, 0) == find_op(t@, j as int),
        ensures
            n == t@.len(),
            match found {
                None => find_op(t@, 0) is None,
                Some(f) => find_op(t@, 0) == Some((f.0 as int, f.1, f.2 as int)) && f.0 < n
                    && f.0 < f.2 <= n,
            },
        decreases n - j,
    {
        let c = t.get_char(j);
        if c == '<' {
            if j + 1 < n && t.get_char(j + 1) == '=' {
                found = Some((j, Operator::LessThanEqualTo, j + 2));
            } else {
                found = Some((j, Operator::LessThan, j + 1));
            }
            break ;
        } else if c == '>' {
            if j + 1 < n && t.get_char(j + 1) == '=' {
                found = Some((j, Operator::GreaterThanEqualTo, j + 2));
            } else {
                found = Some((j, Operator::GreaterThan, j + 1));
            }
            break ;
        } else if c == '=' && j + 1 < n && t.get_char(j + 1) == '=' {
            found = Some((j, Operator::EqualTo, j + 2));
            break ;
        } else if c == '!' && j + 1 < n && t.get_char(j + 1) == '=' {
            found = Some((j, Operator::NotEqualTo, j + 2));
            break ;
        }
        j += 1;
    }
    match found {
        None => {
            let lhs = parse_operand(t);
            Ok(LhsValueAction { lhs, op: None, rhs: None })
        },
        Some((jj, op, kk)) => {
            let lpart = t.substring_char(0, jj);
            let rpart = t.substring_char(kk, n);
            let lt = trim_text(lpart);
            let rt = trim_text(rpart);
            proof {
                assert(lt@ == spec_trim(t@.subrange(0, jj as int)));
                assert(rt@ == spec_trim(t@.subrange(kk as int, t@.len() as int)));
            }
            if lt.unicode_len() == 0 || rt.unicode_len() == 0 {
                return Err(ActionError::MissingOperand(s.to_owned()));
            }
            let lhs = parse_operand(lt);
            let rhs = parse_operand(rt);
            Ok(LhsValueAction { lhs, op: Some(op), rhs: Some(rhs) })
        },
    }
}

impl core::str::FromStr for LhsValueAction {
    type Err = ActionError;

    fn from_str(s: &str) -> Result<LhsValueAction, ActionError> {
        parse_action(s)
    }
}

} // verus!
