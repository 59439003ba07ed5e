//! The expression kinds of [`ConditionExpr`](super::types::ConditionExpr).
use vstd::prelude::*;
use super::types::{CompoundCondition, IdentifierCondition, NotCondition, Predicate};

verus! {

/// One kind of condition expression.
#[derive(Debug, PartialEq)]
pub enum Expr {
    Predicate(Predicate),
    Not(Box<NotCondition>),
    Compound(Box<CompoundCondition>),
    Identifier(IdentifierCondition),
}

} // verus!
