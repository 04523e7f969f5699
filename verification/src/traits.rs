use vstd::prelude::*;
use crate::rule::{Rule, RuleV};
use crate::rule::rule_view;
use crate::render::RenderError;

verus! {

/// A structural fault found while walking a rule tree. The current
/// walk enforces nothing beyond the traversal itself; the type is the
/// extension point for future invariants.
#[derive(Debug, PartialEq, Eq, Structural, Clone, Copy)]
pub struct ValidationError;

/// Structural validation over a rule's immediate children.
pub trait Validate {
    spec fn children_spec(&self) -> Seq<RuleV>;

    /// The immediate children, in declaration order; empty for leaves.
    fn iter_children(&self) -> (r: Vec<&Rule>)
        ensures
            r@.len() == self.children_spec().len(),
            forall|i: int|
                0 <= i < r@.len() ==> rule_view(*#[trigger] r@[i]) == self.children_spec()[i],
    ;

    /// Walks the children; the default structural check never fails.
    fn validate(&self) -> (r: Result<(), ValidationError>)
        ensures
            r is Ok,
    ;
}

/// English prose for a rule tree.
pub trait PrettyPrint {
    spec fn print_spec(&self) -> Result<Seq<char>, RenderError>;

    fn print(&self) -> (r: Result<String, RenderError>)
        ensures
            match r {
                Ok(s) => self.print_spec() == Ok::<Seq<char>, RenderError>(s@),
                Err(e) => self.print_spec() == Err::<Seq<char>, RenderError>(e),
            },
    ;
}

/// Structural queries that callers outside the grammar need.
pub trait RuleTools {
    spec fn has_save_spec(&self) -> bool;

    /// Whether the rule refers to a named, saved subset anywhere.
    fn has_save_rule(&self) -> (r: bool)
        ensures
            r == self.has_save_spec(),
    ;
}

} // verus!
