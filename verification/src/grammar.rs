//! The grammar, as relations between token spans and syntax trees.
//!
//! `is_x(ts, i, j, e)` says that the tokens `ts[i..j)` form exactly the
//! production `x` with `e` as its tree — operator tiers from low to high
//! precedence, every binary tier left-associative, assignment
//! right-associative, and the `for` statement present only as its
//! desugaring into a while loop.  The parser's contracts state that
//! whatever it returns stands in these relations with the tokens it
//! consumed.
use vstd::prelude::*;

use crate::expr::Expr;
use crate::stmt::Stmt;
use crate::token::Lit;
use crate::token::Token;
use crate::token::TokenType;

verus! {

/// The kind of the token at `i`.
pub open spec fn tok(ts: Seq<Token>, i: int) -> TokenType {
    ts[i].token_type
}

/// A token sequence fit for parsing: nonempty and ending in the
/// end-of-input token.
pub open spec fn toks_wf(ts: Seq<Token>) -> bool {
    ts.len() >= 1 && ts[ts.len() - 1].token_type == TokenType::Eof
}

/// Marks a split point between grammar regions.  Always true; it exists
/// so that the existential split points in the relations below have a
/// trigger that does not involve the recursive relations themselves.
pub open spec fn cut(k: int) -> bool {
    true
}

/// primary: literals, identifiers and parenthesised groupings.
pub open spec fn is_primary(ts: Seq<Token>, i: int, j: int, e: Expr) -> bool
    decreases j - i, 2nat,
{
    ||| (tok(ts, i) == TokenType::False && j == i + 1 && e == (Expr::Literal { value: Lit::False }))
    ||| (tok(ts, i) == TokenType::True && j == i + 1 && e == (Expr::Literal { value: Lit::True }))
    ||| (tok(ts, i) == TokenType::Nil && j == i + 1 && e == (Expr::Literal { value: Lit::Nil }))
    ||| ((tok(ts, i) == TokenType::Num || tok(ts, i) == TokenType::Str) && j == i + 1 && e == (
    Expr::Literal { value: ts[i].literal }))
    ||| (tok(ts, i) == TokenType::Identifier && j == i + 1 && e == (Expr::Variable {
        name: ts[i],
    }))
    ||| (tok(ts, i) == TokenType::LeftParen && tok(ts, j - 1) == TokenType::RightParen && j >= i
        + 3 && (e matches Expr::Grouping { expression } && is_expression(
        ts,
        i + 1,
        j - 1,
        *expression,
    )))
}

/// call: a primary followed by any number of argument lists.
pub open spec fn is_call(ts: Seq<Token>, i: int, j: int, e: Expr) -> bool
    decreases j - i, 3nat,
{
    ||| is_primary(ts, i, j, e)
    ||| (e matches Expr::Call { callee, paren, arguments } && (exists|k: int|
        #[trigger] cut(k) && i < k && k + 1 <= j - 1 && tok(ts, k) == TokenType::LeftParen && is_call(
            ts,
            i,
            k,
            *callee,
        ) && tok(ts, j - 1) == TokenType::RightParen && paren == ts[j - 1] && args_match(
            ts,
            k + 1,
            j - 1,
            arguments@,
        )))
}

/// A comma-separated argument list filling exactly `ts[a..b)`.
pub open spec fn args_match(ts: Seq<Token>, a: int, b: int, es: Seq<Expr>) -> bool
    decreases b - a, 13nat,
{
    if es.len() == 0 {
        a == b
    } else if es.len() == 1 {
        a < b && is_expression(ts, a, b, es[0])
    } else {
        exists|k: int|
            #[trigger] cut(k) && a <= k && k + 1 < b && is_expression(ts, k + 1, b, es.last())
                && tok(ts, k) == TokenType::Comma && args_match(ts, a, k, es.drop_last())
    }
}

/// unary: `!` and `-` prefixes over calls.
pub open spec fn is_unary(ts: Seq<Token>, i: int, j: int, e: Expr) -> bool
    decreases j - i, 4nat,
{
    ||| ((tok(ts, i) == TokenType::Bang || tok(ts, i) == TokenType::Minus) && i + 1 <= j && (
    e matches Expr::Unary { operator, right } && operator == ts[i] && is_unary(
        ts,
        i + 1,
        j,
        *right,
    )))
    ||| is_call(ts, i, j, e)
}

/// factor: `*` and `/`, left-associative over unary.
pub open spec fn is_factor(ts: Seq<Token>, i: int, j: int, e: Expr) -> bool
    decreases j - i, 5nat,
{
    ||| is_unary(ts, i, j, e)
    ||| (e matches Expr::Binary { left, operator, right } && (exists|k: int|
        #[trigger] cut(k) && i < k && k + 1 <= j && (tok(ts, k) == TokenType::Slash || tok(ts, k) == TokenType::Star)
            && operator == ts[k] && is_factor(ts, i, k, *left) && is_unary(ts, k + 1, j, *right)))
}

/// term: `+` and `-`, left-associative over factor.
pub open spec fn is_term(ts: Seq<Token>, i: int, j: int, e: Expr) -> bool
    decreases j - i, 6nat,
{
    ||| is_factor(ts, i, j, e)
    ||| (e matches Expr::Binary { left, operator, right } && (exists|k: int|
        #[trigger] cut(k) && i < k && k + 1 <= j && (tok(ts, k) == TokenType::Minus || tok(ts, k) == TokenType::Plus)
            && operator == ts[k] && is_term(ts, i, k, *left) && is_factor(ts, k + 1, j, *right)))
}

/// comparison: the four orderings, left-associative over term.
pub open spec fn is_comparison(ts: Seq<Token>, i: int, j: int, e: Expr) -> bool
    decreases j - i, 7nat,
{
    ||| is_term(ts, i, j, e)
    ||| (e matches Expr::Binary { left, operator, right } && (exists|k: int|
        #[trigger] cut(k) && i < k && k + 1 <= j && (tok(ts, k) == TokenType::Greater || tok(ts, k)
            == TokenType::GreaterEqual || tok(ts, k) == TokenType::Less || tok(ts, k)
            == TokenType::LessEqual) && operator == ts[k] && is_comparison(ts, i, k, *left)
            && is_term(ts, k + 1, j, *right)))
}

/// equality: `==` and `!=`, left-associative over comparison.
pub open spec fn is_equality(ts: Seq<Token>, i: int, j: int, e: Expr) -> bool
    decreases j - i, 8nat,
{
    ||| is_comparison(ts, i, j, e)
    ||| (e matches Expr::Binary { left, operator, right } && (exists|k: int|
        #[trigger] cut(k) && i < k && k + 1 <= j && (tok(ts, k) == TokenType::BangEqual || tok(ts, k)
            == TokenType::EqualEqual) && operator == ts[k] && is_equality(ts, i, k, *left)
            && is_comparison(ts, k + 1, j, *right)))
}

/// logic_and: `and`, left-associative over equality.
pub open spec fn is_and(ts: Seq<Token>, i: int, j: int, e: Expr) -> bool
    decreases j - i, 9nat,
{
    ||| is_equality(ts, i, j, e)
    ||| (e matches Expr::Logical { left, operator, right } && (exists|k: int|
        #[trigger] cut(k) && i < k && k + 1 <= j && tok(ts, k) == TokenType::And && operator == ts[k] && is_and(
            ts,
            i,
            k,
            *left,
        ) && is_equality(ts, k + 1, j, *right)))
}

/// logic_or: `or`, left-associative over logic_and.
pub open spec fn is_or(ts: Seq<Token>, i: int, j: int, e: Expr) -> bool
    decreases j - i, 10nat,
{
    ||| is_and(ts, i, j, e)
    ||| (e matches Expr::Logical { left, operator, right } && (exists|k: int|
        #[trigger] cut(k) && i < k && k + 1 <= j && tok(ts, k) == TokenType::Or && operator == ts[k] && is_or(
            ts,
            i,
            k,
            *left,
        ) && is_and(ts, k + 1, j, *right)))
}

/// assignment: right-associative, and only a bare variable reference is a
/// valid target.
pub open spec fn is_assignment(ts: Seq<Token>, i: int, j: int, e: Expr) -> bool
    decreases j - i, 11nat,
{
    ||| is_or(ts, i, j, e)
    ||| (tok(ts, i) == TokenType::Identifier && tok(ts, i + 1) == TokenType::Equal && i + 2 <= j
        && (e matches Expr::Assign { name, value } && name == ts[i] && is_assignment(
        ts,
        i + 2,
        j,
        *value,
    )))
}

/// expression: the whole expression grammar.
pub open spec fn is_expression(ts: Seq<Token>, i: int, j: int, e: Expr) -> bool
    decreases j - i, 12nat,
{
    is_assignment(ts, i, j, e)
}

/// A token that alone forms a complete primary expression: a literal
/// or an identifier.
pub open spec fn simple_literal(t: TokenType) -> bool {
    ||| t == TokenType::False
    ||| t == TokenType::True
    ||| t == TokenType::Nil
    ||| t == TokenType::Num
    ||| t == TokenType::Str
    ||| t == TokenType::Identifier
}

/// A token that could extend an operand begun by the token before it:
/// a binary or logical operator, or an argument list's opening
/// parenthesis — everything but an `=`, which only the assignment tier
/// reads.
pub open spec fn operand_continuer(t: TokenType) -> bool {
    ||| t == TokenType::LeftParen
    ||| t == TokenType::Slash
    ||| t == TokenType::Star
    ||| t == TokenType::Minus
    ||| t == TokenType::Plus
    ||| t == TokenType::Greater
    ||| t == TokenType::GreaterEqual
    ||| t == TokenType::Less
    ||| t == TokenType::LessEqual
    ||| t == TokenType::BangEqual
    ||| t == TokenType::EqualEqual
    ||| t == TokenType::And
    ||| t == TokenType::Or
}

/// A token that could extend an expression begun by the token before
/// it: an operand continuer or an `=`.
pub open spec fn expr_continuer(t: TokenType) -> bool {
    operand_continuer(t) || t == TokenType::Equal
}

/// A position holding a one-token operand that no operator could
/// extend: the simplest input on which the tiers from `or` down owe
/// success.
pub open spec fn one_token_operand(ts: Seq<Token>, i: int) -> bool {
    simple_literal(tok(ts, i)) && !operand_continuer(tok(ts, i + 1))
}

/// A position holding a one-token expression that nothing after could
/// extend, an `=` included: the simplest input on which `assignment`
/// and `expression` owe success.
pub open spec fn one_token_expr(ts: Seq<Token>, i: int) -> bool {
    simple_literal(tok(ts, i)) && !expr_continuer(tok(ts, i + 1))
}

/// The tail of a `for` statement from just after the initializer: the
/// condition region (defaulting to a true literal), the optional
/// increment, and the body.  `w` is the while loop the `for` desugars
/// to: the increment, when present, is appended after the body inside an
/// extra block.
pub open spec fn for_rest(ts: Seq<Token>, a: int, j: int, w: Stmt) -> bool
    decreases j - a, 13nat,
{
    w matches Stmt::While { condition, body } && (exists|b: int|
        {
            &&& #[trigger] cut(b)
            &&& b <= j
            &&& ({
                ||| (tok(ts, a) == TokenType::Semicolon && b == a + 1 && condition == (
                Expr::Literal { value: Lit::True }))
                ||| (a <= b - 1 && is_expression(ts, a, b - 1, condition) && tok(ts, b - 1)
                    == TokenType::Semicolon)
            })
            &&& ({
                ||| (tok(ts, b) == TokenType::RightParen && b + 1 <= j && is_statement(
                    ts,
                    b + 1,
                    j,
                    *body,
                ))
                ||| ((*body) matches Stmt::Block { statements } && statements@.len() == 2 && (
                statements@[1] matches Stmt::Expression { expression } && (exists|c: int|
                    #[trigger] cut(c) && b <= c && c < j && is_expression(ts, b, c, expression)
                        && tok(ts, c)
                        == TokenType::RightParen && c + 1 <= j && is_statement(
                        ts,
                        c + 1,
                        j,
                        statements@[0],
                    ))))
            })
        })
}

/// A `for` statement spanning `ts[i..j)`, already desugared: an optional
/// initializer wrapped around a while loop built by `for_rest`.
pub open spec fn is_for(ts: Seq<Token>, i: int, j: int, s: Stmt) -> bool
    decreases j - i, 14nat,
{
    &&& tok(ts, i) == TokenType::For
    &&& tok(ts, i + 1) == TokenType::LeftParen
    &&& ({
        ||| (tok(ts, i + 2) == TokenType::Semicolon && i + 3 <= j && for_rest(ts, i + 3, j, s))
        ||| (tok(ts, i + 2) == TokenType::Var && (s matches Stmt::Block { statements }
            && statements@.len() == 2 && (exists|k: int|
            #[trigger] cut(k) && i + 3 <= k && k <= j && is_var_decl(ts, i + 3, k, statements@[0])
                && for_rest(
                ts,
                k,
                j,
                statements@[1],
            ))))
        ||| ((s matches Stmt::Block { statements } && statements@.len() == 2 && (
        statements@[0] matches Stmt::Expression { expression } && (exists|k: int|
            #[trigger] cut(k) && i + 2 <= k && k < j && is_expression(ts, i + 2, k, expression)
                && tok(ts, k)
                == TokenType::Semicolon && k + 1 <= j && for_rest(ts, k + 1, j, statements@[1])))))
    })
}

/// A variable declaration from just after the `var` keyword.
pub open spec fn is_var_decl(ts: Seq<Token>, a: int, j: int, s: Stmt) -> bool
    decreases j - a, 14nat,
{
    s matches Stmt::Var { name, initializer } && tok(ts, a) == TokenType::Identifier && name
        == ts[a] && (match initializer {
        None => j == a + 2 && tok(ts, a + 1) == TokenType::Semicolon,
        Some(ie) => tok(ts, a + 1) == TokenType::Equal && a + 2 <= j - 1 && is_expression(
            ts,
            a + 2,
            j - 1,
            ie,
        ) && tok(ts, j - 1) == TokenType::Semicolon,
    })
}

/// A comma-separated parameter list filling exactly `ts[a..b)`.
pub open spec fn params_match(ts: Seq<Token>, a: int, b: int, ps: Seq<Token>) -> bool
    decreases b - a, 13nat,
{
    if ps.len() == 0 {
        a == b
    } else if ps.len() == 1 {
        b == a + 1 && tok(ts, a) == TokenType::Identifier && ps[0] == ts[a]
    } else {
        b >= a + 3 && tok(ts, b - 2) == TokenType::Comma && tok(ts, b - 1)
            == TokenType::Identifier && ps.last() == ts[b - 1] && params_match(
            ts,
            a,
            b - 2,
            ps.drop_last(),
        )
    }
}

/// A function declaration from just after the `fun` keyword: name,
/// parameter list, and a braced body.
pub open spec fn is_function(ts: Seq<Token>, a: int, j: int, s: Stmt) -> bool
    decreases j - a, 14nat,
{
    s matches Stmt::Function { decl } && tok(ts, a) == TokenType::Identifier && (*decl).name == ts[a]
        && tok(ts, a + 1) == TokenType::LeftParen && (exists|k: int|
        {
            &&& #[trigger] cut(k)
            &&& a + 2 <= k
            &&& k + 2 <= j - 1
            &&& params_match(ts, a + 2, k, (*decl).params@)
            &&& tok(ts, k) == TokenType::RightParen
            &&& tok(ts, k + 1) == TokenType::LeftBrace
            &&& decls_match(ts, k + 2, j - 1, (*decl).body@)
            &&& tok(ts, j - 1) == TokenType::RightBrace
        })
}

/// Whether a statement ends in a branch that could still take an
/// `else`: an `if` without one, possibly at the tail of further `if` or
/// `while` nesting.  The parser binds an `else` to the nearest such
/// `if`, so a then-branch standing before an `else` is never hungry —
/// the conjunct that makes the dangling-else case of `is_statement`
/// unambiguous.
pub open spec fn else_hungry(s: Stmt) -> bool
    decreases s,
{
    match s {
        Stmt::If { condition, then_branch, else_branch } => match else_branch {
            None => true,
            Some(eb) => else_hungry(*eb),
        },
        Stmt::While { condition, body } => else_hungry(*body),
        _ => false,
    }
}

/// A statement spanning `ts[i..j)`.
pub open spec fn is_statement(ts: Seq<Token>, i: int, j: int, s: Stmt) -> bool
    decreases j - i, 15nat,
{
    ||| (tok(ts, i) == TokenType::Print && (s matches Stmt::Print { expression } && i + 1 <= j - 1
        && is_expression(ts, i + 1, j - 1, expression) && tok(ts, j - 1) == TokenType::Semicolon))
    ||| (tok(ts, i) == TokenType::Return && (s matches Stmt::Return { keyword, value } && keyword
        == ts[i] && (match value {
        None => j == i + 2 && tok(ts, i + 1) == TokenType::Semicolon,
        Some(ve) => i + 1 <= j - 1 && is_expression(ts, i + 1, j - 1, ve) && tok(ts, j - 1)
            == TokenType::Semicolon,
    })))
    ||| (tok(ts, i) == TokenType::While && tok(ts, i + 1) == TokenType::LeftParen && (
    s matches Stmt::While { condition, body } && (exists|k: int|
        #[trigger] cut(k) && i + 2 <= k && k < j && is_expression(ts, i + 2, k, condition) && tok(
            ts,
            k,
        ) == TokenType::RightParen && k + 1 <= j && is_statement(ts, k + 1, j, *body))))
    ||| (tok(ts, i) == TokenType::If && tok(ts, i + 1) == TokenType::LeftParen && (
    s matches Stmt::If { condition, then_branch, else_branch } && (exists|k: int|
        #[trigger] cut(k) && i + 2 <= k && k < j && is_expression(ts, i + 2, k, condition) && tok(
            ts,
            k,
        ) == TokenType::RightParen && (match else_branch {
            None => k + 1 <= j && is_statement(ts, k + 1, j, *then_branch),
            Some(eb) => exists|m: int|
                #[trigger] cut(m) && k + 1 <= m && m + 1 <= j && is_statement(
                    ts,
                    k + 1,
                    m,
                    *then_branch,
                ) && !else_hungry(*then_branch) && tok(ts, m) == TokenType::Else && is_statement(
                    ts,
                    m + 1,
                    j,
                    *eb,
                ),
        }))))
    ||| (tok(ts, i) == TokenType::LeftBrace && (s matches Stmt::Block { statements } && i + 1 <= j
        - 1 && decls_match(ts, i + 1, j - 1, statements@) && tok(ts, j - 1)
        == TokenType::RightBrace))
    ||| (tok(ts, i) == TokenType::For && is_for(ts, i, j, s))
    ||| (s matches Stmt::Expression { expression } && i <= j - 1 && is_expression(
        ts,
        i,
        j - 1,
        expression,
    ) && tok(ts, j - 1) == TokenType::Semicolon)
}

/// A declaration: a function declaration, a variable declaration, or a
/// statement.
pub open spec fn is_declaration(ts: Seq<Token>, i: int, j: int, s: Stmt) -> bool
    decreases j - i, 16nat,
{
    ||| (tok(ts, i) == TokenType::Fun && i + 1 <= j && is_function(ts, i + 1, j, s))
    ||| (tok(ts, i) == TokenType::Var && i + 1 <= j && is_var_decl(ts, i + 1, j, s))
    ||| is_statement(ts, i, j, s)
}

/// A sequence of declarations filling exactly `ts[a..b)`.
pub open spec fn decls_match(ts: Seq<Token>, a: int, b: int, ss: Seq<Stmt>) -> bool
    decreases b - a, 17nat,
{
    if ss.len() == 0 {
        a == b
    } else {
        exists|k: int|
            #[trigger] cut(k) && a <= k && k < b && is_declaration(ts, k, b, ss.last())
                && decls_match(ts, a, k, ss.drop_last())
    }
}

/// A whole program: declarations up to the end-of-input token.
pub open spec fn is_program(ts: Seq<Token>, i: int, j: int, ss: Seq<Stmt>) -> bool {
    decls_match(ts, i, j, ss) && tok(ts, j) == TokenType::Eof
}

/// A parse diagnostic that points into the parsed region: its line is
/// the source line of a token between the position parsing started at
/// and the position it failed at.
pub open spec fn err_line_in(ts: Seq<Token>, a: int, b: int, pe: crate::error::ParseError) -> bool {
    exists|p: int| #[trigger] cut(p) && a <= p <= b && p < ts.len() && pe.line == ts[p].line
}

/// Extending an argument list: arguments so far, a comma, one more
/// argument.
pub proof fn lemma_args_snoc(ts: Seq<Token>, a: int, b: int, c: int, es: Seq<Expr>, e2: Expr)
    requires
        args_match(ts, a, b, es),
        es.len() >= 1,
        a <= b,
        tok(ts, b) == TokenType::Comma,
        b + 1 < c,
        is_expression(ts, b + 1, c, e2),
    ensures
        args_match(ts, a, c, es.push(e2)),
{
    assert(es.push(e2).last() == e2);
    assert(es.push(e2).drop_last() =~= es);
    assert(cut(b) && a <= b && b + 1 < c && is_expression(ts, b + 1, c, es.push(e2).last()) && tok(
        ts,
        b,
    ) == TokenType::Comma && args_match(ts, a, b, es.push(e2).drop_last()));
}

/// Extending a parameter list: parameters so far, a comma, one more
/// name.
pub proof fn lemma_params_snoc(ts: Seq<Token>, a: int, b: int, ps: Seq<Token>)
    requires
        params_match(ts, a, b, ps),
        ps.len() >= 1,
        a < b,
        tok(ts, b) == TokenType::Comma,
        tok(ts, b + 1) == TokenType::Identifier,
    ensures
        params_match(ts, a, b + 2, ps.push(ts[b + 1])),
{
    assert(ps.push(ts[b + 1]).last() == ts[b + 1]);
    assert(ps.push(ts[b + 1]).drop_last() =~= ps);
}

/// Extending a declaration sequence by one more declaration.
pub proof fn lemma_decls_snoc(ts: Seq<Token>, a: int, b: int, c: int, ss: Seq<Stmt>, d: Stmt)
    requires
        decls_match(ts, a, b, ss),
        a <= b,
        b < c,
        is_declaration(ts, b, c, d),
    ensures
        decls_match(ts, a, c, ss.push(d)),
{
    assert(ss.push(d).last() == d);
    assert(ss.push(d).drop_last() =~= ss);
    assert(cut(b) && a <= b && b < c && is_declaration(ts, b, c, ss.push(d).last()) && decls_match(
        ts,
        a,
        b,
        ss.push(d).drop_last(),
    ));
}

} // verus!
