//! Expressions: one variant per grammar production.
use vstd::prelude::*;

use crate::token::Lit;
use crate::token::Token;

verus! {

/// An expression node.  Each node owns its children exclusively; the tree
/// is never shared or cyclic.  Operators keep the token they came from, so
/// diagnostics can name the offending lexeme and line.
#[derive(Debug)]
#[allow(inconsistent_fields)]
pub enum Expr {
    Literal { value: Lit },
    Grouping { expression: Box<Expr> },
    Unary { operator: Token, right: Box<Expr> },
    Binary { left: Box<Expr>, operator: Token, right: Box<Expr> },
    Logical { left: Box<Expr>, operator: Token, right: Box<Expr> },
    Variable { name: Token },
    Assign { name: Token, value: Box<Expr> },
    Call { callee: Box<Expr>, paren: Token, arguments: Vec<Expr> },
}

/// A structural size for expressions, used as a termination measure by the
/// semantics and the evaluator.
pub open spec fn expr_size(e: Expr) -> nat
    decreases e,
{
    match e {
        Expr::Literal { value } => 1,
        Expr::Grouping { expression } => 1 + expr_size(*expression),
        Expr::Unary { operator, right } => 1 + expr_size(*right),
        Expr::Binary { left, operator, right } => 1 + expr_size(*left) + expr_size(*right),
        Expr::Logical { left, operator, right } => 1 + expr_size(*left) + expr_size(*right),
        Expr::Variable { name } => 1,
        Expr::Assign { name, value } => 1 + expr_size(*value),
        Expr::Call { callee, paren, arguments } => 1 + expr_size(*callee) + exprs_size(arguments@),
    }
}

/// The combined size of a sequence of expressions.
pub open spec fn exprs_size(es: Seq<Expr>) -> nat
    decreases es,
{
    if es.len() == 0 {
        1
    } else {
        1 + expr_size(es[0]) + exprs_size(es.subrange(1, es.len() as int))
    }
}

} // verus!
