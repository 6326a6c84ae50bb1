//! Statements: one variant per grammar production.
use vstd::prelude::*;

use std::rc::Rc;

use crate::expr::Expr;
use crate::expr::expr_size;
use crate::token::Token;

verus! {

/// A function declaration: its name token, the ordered parameter tokens
/// and the ordered body statements.  Declarations are shared by reference
/// count so that a closure value can keep its declaration alive without
/// copying the tree.
#[derive(Debug)]
pub struct FunDecl {
    pub name: Token,
    pub params: Vec<Token>,
    pub body: Vec<Stmt>,
}

/// A statement node.  Statements own their nested trees exclusively,
/// except for function declarations, which are shared (see `FunDecl`).
#[derive(Debug)]
pub enum Stmt {
    Expression { expression: Expr },
    Print { expression: Expr },
    Var { name: Token, initializer: Option<Expr> },
    Block { statements: Vec<Stmt> },
    If { condition: Expr, then_branch: Box<Stmt>, else_branch: Option<Box<Stmt>> },
    While { condition: Expr, body: Box<Stmt> },
    Function { decl: Rc<FunDecl> },
    Return { keyword: Token, value: Option<Expr> },
}

/// A structural size for statements, used as a termination measure by
/// the semantics, the interpreter and the static scope check.  A
/// function declaration counts its body: the scope check walks into it,
/// though the semantics only runs it when the function is called, paid
/// for with fuel.
pub open spec fn stmt_size(s: Stmt) -> nat
    decreases s,
{
    match s {
        Stmt::Expression { expression } => 1 + expr_size(expression),
        Stmt::Print { expression } => 1 + expr_size(expression),
        Stmt::Var { name, initializer } => match initializer {
            Some(e) => 1 + expr_size(e),
            None => 1,
        },
        Stmt::Block { statements } => 1 + stmts_size(statements@),
        Stmt::If { condition, then_branch, else_branch } => match else_branch {
            Some(e) => 1 + expr_size(condition) + stmt_size(*then_branch) + stmt_size(*e),
            None => 1 + expr_size(condition) + stmt_size(*then_branch),
        },
        Stmt::While { condition, body } => 1 + expr_size(condition) + stmt_size(*body),
        Stmt::Function { decl } => 1 + stmts_size((*decl).body@),
        Stmt::Return { keyword, value } => match value {
            Some(e) => 1 + expr_size(e),
            None => 1,
        },
    }
}

/// The combined size of a sequence of statements.
pub open spec fn stmts_size(ss: Seq<Stmt>) -> nat
    decreases ss,
{
    if ss.len() == 0 {
        1
    } else {
        1 + stmt_size(ss[0]) + stmts_size(ss.subrange(1, ss.len() as int))
    }
}

} // verus!
