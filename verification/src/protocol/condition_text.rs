//! Human-readable text of condition expressions and their operators.
use vstd::prelude::*;
use super::condition_expr::Expr;
use super::types::{
    comparison_value, cond_view, logical_value, opt_cond_view, ComparisonOperator, CondV, ConditionExpr,
    LogicalOperator,
};

verus! {

/// The symbol of a comparison operator given by its wire value; `?` for
/// an unknown value.
pub open spec fn comparison_symbol(v: i32) -> Seq<char> {
    if v == 1 {
        ">"@
    } else if v == 2 {
        "<"@
    } else if v == 3 {
        "=="@
    } else if v == 4 {
        "!="@
    } else if v == 5 {
        ">="@
    } else if v == 6 {
        "<="@
    } else {
        "?"@
    }
}

/// The symbol of a logical operator given by its wire value; `?` for an
/// unknown value.
pub open spec fn logical_symbol(v: i32) -> Seq<char> {
    if v == 1 {
        "&&"@
    } else if v == 2 {
        "||"@
    } else {
        "?"@
    }
}

/// The text of a condition: `left op right` for a predicate, `!(inner)`
/// for a negation, `(left op right)` for a compound, the identifier for an
/// identifier, `?` for a missing operand and `<empty>` for no expression.
pub open spec fn cond_text(c: CondV) -> Seq<char>
    decreases c,
{
    match c {
        CondV::Empty => "<empty>"@,
        CondV::Identifier(v) => v,
        CondV::Predicate(l, op, r) => l + " "@ + comparison_symbol(op) + " "@ + r,
        CondV::Not(inner) => match inner {
            None => "!(?)"@,
            Some(b) => "!("@ + cond_text(*b) + ")"@,
        },
        CondV::Compound(l, op, r) => "("@ + operand_text(l) + " "@ + logical_symbol(op) + " "@ + operand_text(r) + ")"@,
    }
}

/// The text of an operand of a compound condition.
pub open spec fn operand_text(o: Option<Box<CondV>>) -> Seq<char>
    decreases o,
{
    match o {
        None => "?"@,
        Some(b) => cond_text(*b),
    }
}

/// The symbol of a comparison operator given by its wire value.
fn comparison_str(v: i32) -> (r: &'static str)
    ensures
        r@ == comparison_symbol(v),
{
    if v == 1 {
        ">"
    } else if v == 2 {
        "<"
    } else if v == 3 {
        "=="
    } else if v == 4 {
        "!="
    } else if v == 5 {
        ">="
    } else if v == 6 {
        "<="
    } else {
        "?"
    }
}

/// The symbol of a logical operator given by its wire value.
fn logical_str(v: i32) -> (r: &'static str)
    ensures
        r@ == logical_symbol(v),
{
    if v == 1 {
        "&&"
    } else if v == 2 {
        "||"
    } else {
        "?"
    }
}

impl ComparisonOperator {
    /// The operator's symbol (`>`, `<`, `==`, `!=`, `>=`, `<=`, or `?` when
    /// unspecified).
    pub fn to_string(self) -> (r: String)
        ensures
            r@ == comparison_symbol(comparison_value(self)),
    {
        String::from_str(comparison_str(self.value()))
    }
}

impl LogicalOperator {
    /// The operator's symbol (`&&`, `||`, or `?` when unspecified).
    pub fn to_string(self) -> (r: String)
        ensures
            r@ == logical_symbol(logical_value(self)),
    {
        String::from_str(logical_str(self.value()))
    }
}

impl ConditionExpr {
    /// The condition as text (see [`cond_text`]).
    pub fn to_string(&self) -> (r: String)
        ensures
            r@ == cond_text(cond_view(*self)),
        decreases self,
    {
        match &self.expr {
            None => String::from_str("<empty>"),
            Some(Expr::Identifier(id)) => id.value.clone(),
            Some(Expr::Predicate(p)) => String::from_str(p.left.as_str()).concat(" ").concat(
                comparison_str(p.operator),
            ).concat(" ").concat(p.right.as_str()),
            Some(Expr::Not(n)) => match &n.condition {
                None => String::from_str("!(?)"),
                Some(inner) => {
                    let t = inner.to_string();
                    String::from_str("!(").concat(t.as_str()).concat(")")
                },
            },
            Some(Expr::Compound(c)) => {
                let l = operand_string(&c.left);
                let r = operand_string(&c.right);
                String::from_str("(").concat(l.as_str()).concat(" ").concat(logical_str(c.op)).concat(" ").concat(
                    r.as_str(),
                ).concat(")")
            },
        }
    }
}

/// The text of an operand of a compound condition.
fn operand_string(o: &Option<Box<ConditionExpr>>) -> (r: String)
    ensures
        r@ == operand_text(opt_cond_view(*o)),
    decreases o,
{
    match o {
        None => String::from_str("?"),
        Some(b) => b.to_string(),
    }
}

/// Each comparison operator reads as its own symbol between its operands:
/// `left > right` for greater-than, `left < right` for less-than, then
/// `==`, `!=`, `>=` and `<=`; and each logical operator as its own symbol,
/// `&&` for and, `||` for or.
pub proof fn lemma_operator_symbols(l: Seq<char>, r: Seq<char>)
    ensures
        comparison_symbol(comparison_value(ComparisonOperator::GreaterThan)) == ">"@,
        comparison_symbol(comparison_value(ComparisonOperator::LessThan)) == "<"@,
        comparison_symbol(comparison_value(ComparisonOperator::Equal)) == "=="@,
        comparison_symbol(comparison_value(ComparisonOperator::NotEqual)) == "!="@,
        comparison_symbol(comparison_value(ComparisonOperator::GreaterThanOrEqual)) == ">="@,
        comparison_symbol(comparison_value(ComparisonOperator::LessThanOrEqual)) == "<="@,
        cond_text(CondV::Predicate(l, comparison_value(ComparisonOperator::GreaterThan), r)) == l + " > "@ + r,
        cond_text(CondV::Predicate(l, comparison_value(ComparisonOperator::LessThan), r)) == l + " < "@ + r,
        cond_text(CondV::Predicate(l, comparison_value(ComparisonOperator::Equal), r)) == l + " == "@ + r,
        cond_text(CondV::Predicate(l, comparison_value(ComparisonOperator::NotEqual), r)) == l + " != "@ + r,
        cond_text(CondV::Predicate(l, comparison_value(ComparisonOperator::GreaterThanOrEqual), r)) == l + " >= "@ + r,
        cond_text(CondV::Predicate(l, comparison_value(ComparisonOperator::LessThanOrEqual), r)) == l + " <= "@ + r,
        logical_symbol(logical_value(LogicalOperator::And)) == "&&"@,
        logical_symbol(logical_value(LogicalOperator::Or)) == "||"@,
{
    reveal_strlit(" ");
    reveal_strlit(">");
    reveal_strlit("<");
    reveal_strlit("==");
    reveal_strlit("!=");
    reveal_strlit(">=");
    reveal_strlit("<=");
    reveal_strlit(" > ");
    reveal_strlit(" < ");
    reveal_strlit(" == ");
    reveal_strlit(" != ");
    reveal_strlit(" >= ");
    reveal_strlit(" <= ");
    assert(l + " "@ + ">"@ + " "@ + r =~= l + " > "@ + r);
    assert(l + " "@ + "<"@ + " "@ + r =~= l + " < "@ + r);
    assert(l + " "@ + "=="@ + " "@ + r =~= l + " == "@ + r);
    assert(l + " "@ + "!="@ + " "@ + r =~= l + " != "@ + r);
    assert(l + " "@ + ">="@ + " "@ + r =~= l + " >= "@ + r);
    assert(l + " "@ + "<="@ + " "@ + r =~= l + " <= "@ + r);
}

/// Conditions over identifiers read as written: `(a && b)` for a
/// conjunction, `(a || b)` for a disjunction, `!(a)` for a negation, the
/// identifier itself, and `<empty>` for no expression.
pub proof fn lemma_condition_text_shapes(a: Seq<char>, b: Seq<char>)
    ensures
        cond_text(CondV::Compound(
            Some(Box::new(CondV::Identifier(a))),
            logical_value(LogicalOperator::And),
            Some(Box::new(CondV::Identifier(b))),
        )) == "("@ + a + " && "@ + b + ")"@,
        cond_text(CondV::Compound(
            Some(Box::new(CondV::Identifier(a))),
            logical_value(LogicalOperator::Or),
            Some(Box::new(CondV::Identifier(b))),
        )) == "("@ + a + " || "@ + b + ")"@,
        cond_text(CondV::Not(Some(Box::new(CondV::Identifier(a))))) == "!("@ + a + ")"@,
        cond_text(CondV::Identifier(a)) == a,
        cond_text(CondV::Empty) == "<empty>"@,
{
    reveal_strlit(" ");
    reveal_strlit("&&");
    reveal_strlit("||");
    reveal_strlit(" && ");
    reveal_strlit(" || ");
    assert(cond_text(CondV::Identifier(a)) == a);
    assert(cond_text(CondV::Identifier(b)) == b);
    assert(operand_text(Some(Box::new(CondV::Identifier(a)))) == a);
    assert(operand_text(Some(Box::new(CondV::Identifier(b)))) == b);
    assert("("@ + a + " "@ + "&&"@ + " "@ + b + ")"@ =~= "("@ + a + " && "@ + b + ")"@);
    assert("("@ + a + " "@ + "||"@ + " "@ + b + ")"@ =~= "("@ + a + " || "@ + b + ")"@);
}

} // verus!
