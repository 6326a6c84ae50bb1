//! The recursive-descent parser.
//!
//! A single forward cursor walks the token sequence once; every
//! production is parsed by one method.  The contracts say, per method:
//! on success the consumed tokens and the tree stand in the grammar
//! relation (see `grammar`); an expression tier never stops short of
//! one of its own operators (the extent clauses, which pin precedence
//! and associativity over the whole consumed span); success is owed
//! outright on the minimal forms of each production (a lone literal or
//! identifier expression, an empty block, a bare `return;`, an
//! uninitialised variable, a zero-parameter function, the empty and the
//! one-statement program); and a failure is a `ParseError` value — never
//! a panic — whose line is that of a token inside the region being
//! parsed, exact at the failing `consume`.  Completeness — that every
//! grammatical input parses — is deliberately not claimed; the success
//! clauses above are the proven fragment of it.
use vstd::prelude::*;

use std::rc::Rc;

use crate::error::ParseError;
use crate::expr::Expr;
use crate::grammar::args_match;
use crate::grammar::cut;
use crate::grammar::decls_match;
use crate::grammar::err_line_in;
use crate::grammar::for_rest;
use crate::grammar::is_and;
use crate::grammar::is_assignment;
use crate::grammar::is_call;
use crate::grammar::is_comparison;
use crate::grammar::is_declaration;
use crate::grammar::is_equality;
use crate::grammar::is_expression;
use crate::grammar::is_factor;
use crate::grammar::is_for;
use crate::grammar::is_function;
use crate::grammar::is_or;
use crate::grammar::is_primary;
use crate::grammar::is_program;
use crate::grammar::is_statement;
use crate::grammar::is_term;
use crate::grammar::is_unary;
use crate::grammar::is_var_decl;
use crate::grammar::one_token_expr;
use crate::grammar::one_token_operand;
use crate::grammar::simple_literal;
use crate::grammar::lemma_args_snoc;
use crate::grammar::lemma_decls_snoc;
use crate::grammar::lemma_params_snoc;
use crate::grammar::params_match;
use crate::grammar::tok;
use crate::grammar::toks_wf;
use crate::stmt::FunDecl;
use crate::stmt::Stmt;
use crate::token::Lit;
use crate::token::Token;
use crate::token::TokenType;

verus! {

/// The parser: the token sequence, a single forward cursor which never
/// revisits a consumed token, and the warnings gathered along the way
/// (an over-long parameter or argument list is reported but accepted).
#[derive(Debug)]
pub struct Parser {
    pub tokens: Vec<Token>,
    pub current: usize,
    pub warnings: Vec<ParseError>,
}

impl Parser {
    /// The cursor always rests on a token; the end-of-input token stops
    /// it from running off the end.
    pub open spec fn wf(&self) -> bool {
        toks_wf(self.tokens@) && self.current < self.tokens@.len()
    }

    /// A parser over a scanned token sequence, at its start.
    pub fn new(tokens: Vec<Token>) -> (p: Self)
        requires
            toks_wf(tokens@),
        ensures
            p.tokens@ == tokens@,
            p.current == 0,
            p.wf(),
    {
        Parser { tokens, current: 0, warnings: Vec::new() }
    }

    /// The kind of the token under the cursor.
    fn peek_kind(&self) -> (k: TokenType)
        requires
            self.wf(),
        ensures
            k == tok(self.tokens@, self.current as int),
    {
        self.tokens[self.current].token_type
    }

    /// The most recently consumed token.
    fn previous(&self) -> (t: Token)
        requires
            self.wf(),
            self.current >= 1,
        ensures
            t == self.tokens@[self.current - 1],
    {
        self.tokens[self.current - 1].clone()
    }

    /// Whether the cursor rests on the end-of-input token.
    fn is_at_end(&self) -> (r: bool)
        requires
            self.wf(),
        ensures
            r == (tok(self.tokens@, self.current as int) == TokenType::Eof),
    {
        self.peek_kind() == TokenType::Eof
    }

    /// Whether the cursor rests on a token of kind `t` (never true at
    /// the end of input).
    fn check(&self, t: TokenType) -> (r: bool)
        requires
            self.wf(),
        ensures
            r == (tok(self.tokens@, self.current as int) != TokenType::Eof && tok(
                self.tokens@,
                self.current as int,
            ) == t),
    {
        if self.is_at_end() {
            false
        } else {
            self.peek_kind() == t
        }
    }

    /// Steps over the current token, never past the end of input.
    fn advance(&mut self)
        requires
            old(self).wf(),
        ensures
            final(self).wf(),
            final(self).tokens@ == old(self).tokens@,
            old(self).warnings@.len() <= final(self).warnings@.len(),
            tok(old(self).tokens@, old(self).current as int) != TokenType::Eof
                ==> final(self).current == old(self).current + 1,
            tok(old(self).tokens@, old(self).current as int) == TokenType::Eof
                ==> final(self).current == old(self).current,
    {
        if !self.is_at_end() {
            let n = self.tokens.len();
            proof {
                assert(self.current < n);
            }
            self.current = self.current + 1;
        }
    }

    /// Consumes the current token when its kind is among `kinds`.
    #[verifier::loop_isolation(false)]
    fn do_match(&mut self, kinds: &[TokenType]) -> (r: bool)
        requires
            old(self).wf(),
        ensures
            final(self).wf(),
            final(self).tokens@ == old(self).tokens@,
            old(self).warnings@.len() <= final(self).warnings@.len(),
            r ==> tok(old(self).tokens@, old(self).current as int) != TokenType::Eof && (exists|
                m: int,
            |
                0 <= m < kinds@.len() && tok(old(self).tokens@, old(self).current as int)
                    == kinds@[m]) && final(self).current == old(self).current + 1,
            !r ==> final(self).current == old(self).current && (forall|m: int|
                0 <= m < kinds@.len() ==> tok(old(self).tokens@, old(self).current as int)
                    == TokenType::Eof || tok(old(self).tokens@, old(self).current as int)
                    != kinds@[m]),
    {
        let mut m: usize = 0;
        while m < kinds.len()
            invariant
                self.wf(),
                self == old(self),
                m <= kinds@.len(),
                forall|q: int|
                    0 <= q < m ==> tok(self.tokens@, self.current as int) == TokenType::Eof || tok(
                        self.tokens@,
                        self.current as int,
                    ) != kinds@[q],
            decreases kinds@.len() - m,
        {
            if self.check(kinds[m]) {
                self.advance();
                return true;
            }
            m = m + 1;
        }
        false
    }

    /// Consumes the current token when it has the expected kind, and
    /// otherwise reports what was expected at the offending line.
    fn consume(&mut self, t: TokenType, message: &str) -> (r: Result<Token, ParseError>)
        requires
            old(self).wf(),
        ensures
            final(self).wf(),
            final(self).tokens@ == old(self).tokens@,
            old(self).warnings@.len() <= final(self).warnings@.len(),
            (r matches Result::Err(pe) ==> err_line_in(
                old(self).tokens@,
                old(self).current as int,
                final(self).current as int,
                pe,
            )),
            old(self).current <= final(self).current,
            (r matches Result::Ok(tk) ==> tok(old(self).tokens@, old(self).current as int) == t
                && tok(old(self).tokens@, old(self).current as int) != TokenType::Eof
                && tk == old(self).tokens@[old(self).current as int]
                && final(self).current == old(self).current + 1),
            (r matches Result::Err(pe) ==> final(self).current == old(self).current && pe.line
                == old(self).tokens@[old(self).current as int].line && pe.message@ == message@ && !(
            tok(old(self).tokens@, old(self).current as int) == t && tok(
                old(self).tokens@,
                old(self).current as int,
            ) != TokenType::Eof)),
    {
        if self.check(t) {
            let tk = self.tokens[self.current].clone();
            self.advance();
            Result::Ok(tk)
        } else {
            proof {
                assert(cut(self.current as int));
            }
            Result::Err(
                ParseError { line: self.tokens[self.current].line, message: message.to_owned() },
            )
        }
    }

    /// Parses a whole program: declarations up to the end of input.
    #[verifier::loop_isolation(false)]
    pub fn parse(&mut self) -> (r: Result<Vec<Stmt>, ParseError>)
        requires
            old(self).wf(),
        ensures
            final(self).wf(),
            final(self).tokens@ == old(self).tokens@,
            old(self).warnings@.len() <= final(self).warnings@.len(),
            (r matches Result::Err(pe) ==> err_line_in(
                old(self).tokens@,
                old(self).current as int,
                final(self).current as int,
                pe,
            )),
            old(self).current <= final(self).current,
            (r matches Result::Ok(prog) ==> is_program(
                old(self).tokens@,
                old(self).current as int,
                final(self).current as int,
                prog@,
            )),
            (tok(old(self).tokens@, old(self).current as int) == TokenType::Eof ==> r is Ok),
            (one_token_expr(old(self).tokens@, old(self).current as int) && tok(
                old(self).tokens@,
                old(self).current + 1,
            ) == TokenType::Semicolon && tok(old(self).tokens@, old(self).current + 2)
                == TokenType::Eof ==> r is Ok),
        decreases self.tokens@.len() - self.current, 18nat,
    {
        let ghost ts = self.tokens@;
        let ghost start = self.current as int;
        let mut statements: Vec<Stmt> = Vec::new();
        proof {
            assert(decls_match(ts, start, start, statements@));
        }
        loop
            invariant
                self.wf(),
                self.tokens@ == ts,
                start <= self.current as int,
                decls_match(ts, start, self.current as int, statements@),
                tok(ts, start) == TokenType::Eof ==> self.current as int == start,
                old(self).warnings@.len() <= self.warnings@.len(),
                one_token_expr(ts, start) && tok(ts, start + 1) == TokenType::Semicolon && tok(
                    ts,
                    start + 2,
                ) == TokenType::Eof ==> (self.current as int == start || self.current as int
                    == start + 2),
            decreases self.tokens@.len() - self.current,
        {
            if self.is_at_end() {
                break ;
            }
            let ghost b = self.current as int;
            let d = match self.declaration() {
                Result::Ok(d) => d,
                Result::Err(er) => {
                    return Result::Err(er);
                },
            };
            proof {
                lemma_decls_snoc(ts, start, b, self.current as int, statements@, d);
            }
            statements.push(d);
        }
        Result::Ok(statements)
    }

    /// declaration: a function declaration, a variable declaration, or a
    /// statement.
    fn declaration(&mut self) -> (r: Result<Stmt, ParseError>)
        requires
            old(self).wf(),
        ensures
            final(self).wf(),
            final(self).tokens@ == old(self).tokens@,
            old(self).warnings@.len() <= final(self).warnings@.len(),
            (r matches Result::Err(pe) ==> err_line_in(
                old(self).tokens@,
                old(self).current as int,
                final(self).current as int,
                pe,
            )),
            old(self).current <= final(self).current,
            (r matches Result::Ok(s) ==> old(self).current < final(self).current
                && is_declaration(
                old(self).tokens@,
                old(self).current as int,
                final(self).current as int,
                s,
            )),
            (one_token_expr(old(self).tokens@, old(self).current as int) && tok(
                old(self).tokens@,
                old(self).current + 1,
            ) == TokenType::Semicolon ==> r is Ok
                && final(self).current == old(self).current + 2),
            (tok(old(self).tokens@, old(self).current as int) == TokenType::Print && one_token_expr(
                old(self).tokens@,
                old(self).current + 1,
            ) && tok(old(self).tokens@, old(self).current + 2) == TokenType::Semicolon ==> r
                is Ok),
            (tok(old(self).tokens@, old(self).current as int) == TokenType::LeftBrace && tok(
                old(self).tokens@,
                old(self).current + 1,
            ) == TokenType::RightBrace ==> r is Ok),
            (tok(old(self).tokens@, old(self).current as int) == TokenType::Var && tok(
                old(self).tokens@,
                old(self).current + 1,
            ) == TokenType::Identifier && tok(old(self).tokens@, old(self).current + 2)
                == TokenType::Semicolon ==> r is Ok),
            (tok(old(self).tokens@, old(self).current as int) == TokenType::Fun && tok(
                old(self).tokens@,
                old(self).current + 1,
            ) == TokenType::Identifier && tok(old(self).tokens@, old(self).current + 2)
                == TokenType::LeftParen && tok(old(self).tokens@, old(self).current + 3)
                == TokenType::RightParen && tok(old(self).tokens@, old(self).current + 4)
                == TokenType::LeftBrace && tok(old(self).tokens@, old(self).current + 5)
                == TokenType::RightBrace ==> r is Ok),
        decreases self.tokens@.len() - self.current, 16nat,
    {
        let ghost ts = self.tokens@;
        let ghost start = self.current as int;
        if self.do_match(&[TokenType::Fun]) {
            match self.function() {
                Result::Ok(s) => {
                    proof {
                        assert(is_declaration(ts, start, self.current as int, s));
                    }
                    Result::Ok(s)
                },
                Result::Err(er) => Result::Err(er),
            }
        } else if self.do_match(&[TokenType::Var]) {
            match self.var_declaration() {
                Result::Ok(s) => {
                    proof {
                        assert(is_declaration(ts, start, self.current as int, s));
                    }
                    Result::Ok(s)
                },
                Result::Err(er) => Result::Err(er),
            }
        } else {
            self.statement()
        }
    }

    /// funDecl, from just after the `fun` keyword: name, parameters,
    /// braced body.
    #[verifier::loop_isolation(false)]
    #[verifier::rlimit(100)]
    fn function(&mut self) -> (r: Result<Stmt, ParseError>)
        requires
            old(self).wf(),
        ensures
            final(self).wf(),
            final(self).tokens@ == old(self).tokens@,
            old(self).warnings@.len() <= final(self).warnings@.len(),
            (r matches Result::Err(pe) ==> err_line_in(
                old(self).tokens@,
                old(self).current as int,
                final(self).current as int,
                pe,
            )),
            old(self).current <= final(self).current,
            (r matches Result::Ok(s) ==> old(self).current < final(self).current && is_function(
                old(self).tokens@,
                old(self).current as int,
                final(self).current as int,
                s,
            )),
            (r matches Result::Ok(s) ==> ((s matches Stmt::Function { decl }
                && (*decl).params@.len() > 255) ==> old(self).warnings@.len()
                < final(self).warnings@.len())),
            (tok(old(self).tokens@, old(self).current as int) == TokenType::Identifier && tok(
                old(self).tokens@,
                old(self).current + 1,
            ) == TokenType::LeftParen && tok(old(self).tokens@, old(self).current + 2)
                == TokenType::RightParen && tok(old(self).tokens@, old(self).current + 3)
                == TokenType::LeftBrace && tok(old(self).tokens@, old(self).current + 4)
                == TokenType::RightBrace ==> r is Ok),
        decreases self.tokens@.len() - self.current, 13nat,
    {
        let ghost ts = self.tokens@;
        let ghost a = self.current as int;
        let name = match self.consume(TokenType::Identifier, "Expect function name.") {
            Result::Ok(t) => t,
            Result::Err(er) => {
                return Result::Err(er);
            },
        };
        match self.consume(TokenType::LeftParen, "Expect '(' after function name.") {
            Result::Ok(_) => {},
            Result::Err(er) => {
                return Result::Err(er);
            },
        }
        let ghost pstart = self.current as int;
        let mut parameters: Vec<Token> = Vec::new();
        if !self.check(TokenType::RightParen) {
            let p0 = match self.consume(TokenType::Identifier, "Expect parameter name.") {
                Result::Ok(t) => t,
                Result::Err(er) => {
                    return Result::Err(er);
                },
            };
            parameters.push(p0);
            proof {
                assert(parameters@ =~= seq![ts[pstart]]);
                assert(params_match(ts, pstart, self.current as int, parameters@));
            }
            loop
                invariant
                    self.wf(),
                    self.tokens@ == ts,
                    pstart < self.current as int,
                    parameters@.len() >= 1,
                    params_match(ts, pstart, self.current as int, parameters@),
                    old(self).warnings@.len() <= self.warnings@.len(),
                    parameters@.len() > 255 ==> old(self).warnings@.len() < self.warnings@.len(),
                decreases self.tokens@.len() - self.current,
            {
                if !self.do_match(&[TokenType::Comma]) {
                    break ;
                }
                if parameters.len() >= 255 {
                    let w = ParseError {
                        line: self.tokens[self.current].line,
                        message: "Can't have more than 255 parameters.".to_owned(),
                    };
                    self.warnings.push(w);
                }
                let ghost b = self.current as int - 1;
                let p = match self.consume(TokenType::Identifier, "Expect parameter name.") {
                    Result::Ok(t) => t,
                    Result::Err(er) => {
                        return Result::Err(er);
                    },
                };
                proof {
                    lemma_params_snoc(ts, pstart, b, parameters@);
                    assert(parameters@.push(p) =~= parameters@.push(ts[b + 1]));
                }
                parameters.push(p);
            }
        }
        let ghost k = self.current as int;
        match self.consume(TokenType::RightParen, "Expect ')' after parameters.") {
            Result::Ok(_) => {},
            Result::Err(er) => {
                return Result::Err(er);
            },
        }
        match self.consume(TokenType::LeftBrace, "Expect '{' before function body.") {
            Result::Ok(_) => {},
            Result::Err(er) => {
                return Result::Err(er);
            },
        }
        let body = match self.block() {
            Result::Ok(b) => b,
            Result::Err(er) => {
                return Result::Err(er);
            },
        };
        let decl = Rc::new(FunDecl { name, params: parameters, body });
        let s = Stmt::Function { decl };
        proof {
            assert(cut(k));
            assert(is_function(ts, a, self.current as int, s));
        }
        Result::Ok(s)
    }

    /// varDecl, from just after the `var` keyword: name, optional
    /// initializer, semicolon.
    fn var_declaration(&mut self) -> (r: Result<Stmt, ParseError>)
        requires
            old(self).wf(),
        ensures
            final(self).wf(),
            final(self).tokens@ == old(self).tokens@,
            old(self).warnings@.len() <= final(self).warnings@.len(),
            (r matches Result::Err(pe) ==> err_line_in(
                old(self).tokens@,
                old(self).current as int,
                final(self).current as int,
                pe,
            )),
            old(self).current <= final(self).current,
            (r matches Result::Ok(s) ==> old(self).current < final(self).current && is_var_decl(
                old(self).tokens@,
                old(self).current as int,
                final(self).current as int,
                s,
            )),
            (tok(old(self).tokens@, old(self).current as int) == TokenType::Identifier && tok(
                old(self).tokens@,
                old(self).current + 1,
            ) == TokenType::Semicolon ==> r is Ok),
        decreases self.tokens@.len() - self.current, 13nat,
    {
        let ghost ts = self.tokens@;
        let ghost a = self.current as int;
        let name = match self.consume(TokenType::Identifier, "Expect variable name.") {
            Result::Ok(t) => t,
            Result::Err(er) => {
                return Result::Err(er);
            },
        };
        let mut initializer: Option<Expr> = None;
        if self.do_match(&[TokenType::Equal]) {
            let e = match self.expression() {
                Result::Ok(e) => e,
                Result::Err(er) => {
                    return Result::Err(er);
                },
            };
            initializer = Some(e);
        }
        match self.consume(TokenType::Semicolon, "Expect ';' after variable declaration.") {
            Result::Ok(_) => {},
            Result::Err(er) => {
                return Result::Err(er);
            },
        }
        let s = Stmt::Var { name, initializer };
        proof {
            assert(is_var_decl(ts, a, self.current as int, s));
        }
        Result::Ok(s)
    }

    /// statement: dispatch on the leading token.
    fn statement(&mut self) -> (r: Result<Stmt, ParseError>)
        requires
            old(self).wf(),
        ensures
            final(self).wf(),
            final(self).tokens@ == old(self).tokens@,
            old(self).warnings@.len() <= final(self).warnings@.len(),
            (r matches Result::Err(pe) ==> err_line_in(
                old(self).tokens@,
                old(self).current as int,
                final(self).current as int,
                pe,
            )),
            old(self).current <= final(self).current,
            (r matches Result::Ok(s) ==> old(self).current < final(self).current && is_statement(
                old(self).tokens@,
                old(self).current as int,
                final(self).current as int,
                s,
            )),

            (r matches Result::Ok(s) ==> (crate::grammar::else_hungry(s) ==> tok(
                old(self).tokens@,
                final(self).current as int,
            ) != TokenType::Else)),
            (one_token_expr(old(self).tokens@, old(self).current as int) && tok(
                old(self).tokens@,
                old(self).current + 1,
            ) == TokenType::Semicolon ==> r is Ok
                && final(self).current == old(self).current + 2),
            (tok(old(self).tokens@, old(self).current as int) == TokenType::Print && one_token_expr(
                old(self).tokens@,
                old(self).current + 1,
            ) && tok(old(self).tokens@, old(self).current + 2) == TokenType::Semicolon ==> r
                is Ok),
            (tok(old(self).tokens@, old(self).current as int) == TokenType::LeftBrace && tok(
                old(self).tokens@,
                old(self).current + 1,
            ) == TokenType::RightBrace ==> r is Ok),
        decreases self.tokens@.len() - self.current, 15nat,
    {
        let ghost ts = self.tokens@;
        let ghost i = self.current as int;
        if self.do_match(&[TokenType::For]) {
            match self.for_statement() {
                Result::Ok(s) => {
                    proof {
                        assert(is_statement(ts, i, self.current as int, s));
                    }
                    Result::Ok(s)
                },
                Result::Err(er) => Result::Err(er),
            }
        } else if self.do_match(&[TokenType::If]) {
            self.if_statement()
        } else if self.do_match(&[TokenType::Print]) {
            self.print_statement()
        } else if self.do_match(&[TokenType::Return]) {
            self.return_statement()
        } else if self.do_match(&[TokenType::While]) {
            self.while_statement()
        } else if self.do_match(&[TokenType::LeftBrace]) {
            let statements = match self.block() {
                Result::Ok(b) => b,
                Result::Err(er) => {
                    return Result::Err(er);
                },
            };
            let s = Stmt::Block { statements };
            proof {
                assert(is_statement(ts, i, self.current as int, s));
            }
            Result::Ok(s)
        } else {
            self.expression_statement()
        }
    }

    /// returnStmt, from just after the `return` keyword.
    fn return_statement(&mut self) -> (r: Result<Stmt, ParseError>)
        requires
            old(self).wf(),
            old(self).current >= 1,
            tok(old(self).tokens@, old(self).current - 1) == TokenType::Return,
        ensures
            final(self).wf(),
            final(self).tokens@ == old(self).tokens@,
            old(self).warnings@.len() <= final(self).warnings@.len(),
            (r matches Result::Err(pe) ==> err_line_in(
                old(self).tokens@,
                old(self).current as int,
                final(self).current as int,
                pe,
            )),
            old(self).current <= final(self).current,
            (r matches Result::Ok(s) ==> old(self).current - 1 < final(self).current
                && is_statement(
                old(self).tokens@,
                old(self).current - 1,
                final(self).current as int,
                s,
            )),
            (tok(old(self).tokens@, old(self).current as int) == TokenType::Semicolon ==> r
                is Ok),
        decreases self.tokens@.len() - self.current, 13nat,
    {
        let ghost ts = self.tokens@;
        let ghost i = self.current as int - 1;
        let keyword = self.previous();
        let mut value: Option<Expr> = None;
        if !self.check(TokenType::Semicolon) {
            let e = match self.expression() {
                Result::Ok(e) => e,
                Result::Err(er) => {
                    return Result::Err(er);
                },
            };
            value = Some(e);
        }
        match self.consume(TokenType::Semicolon, "Expect ';' after return value.") {
            Result::Ok(_) => {},
            Result::Err(er) => {
                return Result::Err(er);
            },
        }
        let s = Stmt::Return { keyword, value };
        proof {
            assert(is_statement(ts, i, self.current as int, s));
        }
        Result::Ok(s)
    }

    /// forStmt, from just after the `for` keyword: parsed and desugared
    /// on the spot into while + block + increment.
    #[verifier::rlimit(100)]
    fn for_statement(&mut self) -> (r: Result<Stmt, ParseError>)
        requires
            old(self).wf(),
            old(self).current >= 1,
            tok(old(self).tokens@, old(self).current - 1) == TokenType::For,
        ensures
            final(self).wf(),
            final(self).tokens@ == old(self).tokens@,
            old(self).warnings@.len() <= final(self).warnings@.len(),
            (r matches Result::Err(pe) ==> err_line_in(
                old(self).tokens@,
                old(self).current as int,
                final(self).current as int,
                pe,
            )),
            old(self).current <= final(self).current,
            (r matches Result::Ok(s) ==> old(self).current - 1 < final(self).current && is_for(
                old(self).tokens@,
                old(self).current - 1,
                final(self).current as int,
                s,
            )),

            (r matches Result::Ok(s) ==> (crate::grammar::else_hungry(s) ==> tok(
                old(self).tokens@,
                final(self).current as int,
            ) != TokenType::Else)),
            (tok(old(self).tokens@, old(self).current as int) == TokenType::LeftParen && tok(
                old(self).tokens@,
                old(self).current + 1,
            ) == TokenType::Semicolon && tok(old(self).tokens@, old(self).current + 2)
                == TokenType::Semicolon && tok(old(self).tokens@, old(self).current + 3)
                == TokenType::RightParen && one_token_expr(
                old(self).tokens@,
                old(self).current + 4,
            ) && tok(old(self).tokens@, old(self).current + 5) == TokenType::Semicolon ==> r
                is Ok),
        decreases self.tokens@.len() - self.current, 14nat,
    {
        let ghost ts = self.tokens@;
        let ghost i = self.current as int - 1;
        match self.consume(TokenType::LeftParen, "Expect '(' after 'for'.") {
            Result::Ok(_) => {},
            Result::Err(er) => {
                return Result::Err(er);
            },
        }
        let mut initializer: Option<Stmt> = None;
        if self.do_match(&[TokenType::Semicolon]) {
        } else if self.do_match(&[TokenType::Var]) {
            let d = match self.var_declaration() {
                Result::Ok(d) => d,
                Result::Err(er) => {
                    return Result::Err(er);
                },
            };
            initializer = Some(d);
        } else {
            let d = match self.expression_statement() {
                Result::Ok(d) => d,
                Result::Err(er) => {
                    return Result::Err(er);
                },
            };
            initializer = Some(d);
        }
        let ghost init_end = self.current as int;
        let ghost ginit = initializer;
        let ghost a = self.current as int;
        let mut condition = Expr::Literal { value: Lit::True };
        if self.do_match(&[TokenType::Semicolon]) {
        } else {
            let c = match self.expression() {
                Result::Ok(c) => c,
                Result::Err(er) => {
                    return Result::Err(er);
                },
            };
            condition = c;
            match self.consume(TokenType::Semicolon, "Expect ';' after loop condition.") {
                Result::Ok(_) => {},
                Result::Err(er) => {
                    return Result::Err(er);
                },
            }
        }
        let ghost b = self.current as int;
        let mut increment: Option<Expr> = None;
        if self.do_match(&[TokenType::RightParen]) {
        } else {
            let inc = match self.expression() {
                Result::Ok(e) => e,
                Result::Err(er) => {
                    return Result::Err(er);
                },
            };
            increment = Some(inc);
            match self.consume(TokenType::RightParen, "Expect ')' after for clauses.") {
                Result::Ok(_) => {},
                Result::Err(er) => {
                    return Result::Err(er);
                },
            }
        }
        let ghost c_end = self.current as int - 1;
        let ghost ginc = increment;
        let mut body = match self.statement() {
            Result::Ok(s) => s,
            Result::Err(er) => {
                return Result::Err(er);
            },
        };
        let ghost j = self.current as int;
        let ghost gbody = body;
        match increment {
            Some(inc) => {
                let mut statements: Vec<Stmt> = Vec::new();
                statements.push(body);
                statements.push(Stmt::Expression { expression: inc });
                body = Stmt::Block { statements };
            },
            None => {},
        }
        let w = Stmt::While { condition, body: Box::new(body) };
        proof {
            reveal_with_fuel(crate::grammar::else_hungry, 2);
            assert(cut(b));
            match ginc {
                Some(inc) => {
                    assert(cut(c_end));
                    assert((*w->body) matches Stmt::Block { statements } && statements@.len() == 2
                        && statements@[0] == gbody && statements@[1] == (Stmt::Expression {
                        expression: inc,
                    }));
                    assert(!crate::grammar::else_hungry(w));
                },
                None => {
                    assert(*(w->body) == gbody);
                    assert(crate::grammar::else_hungry(w) == crate::grammar::else_hungry(
                        *(w->body),
                    ));
                    assert(crate::grammar::else_hungry(w) == crate::grammar::else_hungry(gbody));
                },
            }
            assert(for_rest(ts, a, j, w));
        }
        match initializer {
            Some(init_stmt) => {
                let mut outer: Vec<Stmt> = Vec::new();
                outer.push(init_stmt);
                outer.push(w);
                let s = Stmt::Block { statements: outer };
                proof {
                    assert(!crate::grammar::else_hungry(s));
                    assert(s->statements@.len() == 2);
                    assert(s->statements@[0] == ginit.unwrap());
                    assert(s->statements@[1] == w);
                    assert(cut(init_end));
                    assert(cut(init_end - 1));
                    assert(is_for(ts, i, j, s));
                }
                Result::Ok(s)
            },
            None => {
                proof {
                    assert(is_for(ts, i, j, w));
                }
                Result::Ok(w)
            },
        }
    }

    /// whileStmt, from just after the `while` keyword.
    fn while_statement(&mut self) -> (r: Result<Stmt, ParseError>)
        requires
            old(self).wf(),
            old(self).current >= 1,
            tok(old(self).tokens@, old(self).current - 1) == TokenType::While,
        ensures
            final(self).wf(),
            final(self).tokens@ == old(self).tokens@,
            old(self).warnings@.len() <= final(self).warnings@.len(),
            (r matches Result::Err(pe) ==> err_line_in(
                old(self).tokens@,
                old(self).current as int,
                final(self).current as int,
                pe,
            )),
            old(self).current <= final(self).current,
            (r matches Result::Ok(s) ==> old(self).current - 1 < final(self).current
                && is_statement(
                old(self).tokens@,
                old(self).current - 1,
                final(self).current as int,
                s,
            )),

            (r matches Result::Ok(s) ==> (crate::grammar::else_hungry(s) ==> tok(
                old(self).tokens@,
                final(self).current as int,
            ) != TokenType::Else)),
            (tok(old(self).tokens@, old(self).current as int) == TokenType::LeftParen
                && one_token_expr(old(self).tokens@, old(self).current + 1) && tok(
                old(self).tokens@,
                old(self).current + 2,
            ) == TokenType::RightParen && one_token_expr(old(self).tokens@, old(self).current + 3)
                && tok(old(self).tokens@, old(self).current + 4) == TokenType::Semicolon ==> r
                is Ok),
        decreases self.tokens@.len() - self.current, 13nat,
    {
        let ghost ts = self.tokens@;
        let ghost i = self.current as int - 1;
        match self.consume(TokenType::LeftParen, "Expect '(' after 'while'.") {
            Result::Ok(_) => {},
            Result::Err(er) => {
                return Result::Err(er);
            },
        }
        let condition = match self.expression() {
            Result::Ok(c) => c,
            Result::Err(er) => {
                return Result::Err(er);
            },
        };
        let ghost k = self.current as int;
        match self.consume(TokenType::RightParen, "Expect ')' after condition.") {
            Result::Ok(_) => {},
            Result::Err(er) => {
                return Result::Err(er);
            },
        }
        let body = match self.statement() {
            Result::Ok(s) => s,
            Result::Err(er) => {
                return Result::Err(er);
            },
        };
        let s = Stmt::While { condition, body: Box::new(body) };
        proof {
            assert(cut(k));
            assert(is_statement(ts, i, self.current as int, s));
        }
        Result::Ok(s)
    }

    /// ifStmt, from just after the `if` keyword.
    #[verifier::rlimit(100)]
    fn if_statement(&mut self) -> (r: Result<Stmt, ParseError>)
        requires
            old(self).wf(),
            old(self).current >= 1,
            tok(old(self).tokens@, old(self).current - 1) == TokenType::If,
        ensures
            final(self).wf(),
            final(self).tokens@ == old(self).tokens@,
            old(self).warnings@.len() <= final(self).warnings@.len(),
            (r matches Result::Err(pe) ==> err_line_in(
                old(self).tokens@,
                old(self).current as int,
                final(self).current as int,
                pe,
            )),
            old(self).current <= final(self).current,
            (r matches Result::Ok(s) ==> old(self).current - 1 < final(self).current
                && is_statement(
                old(self).tokens@,
                old(self).current - 1,
                final(self).current as int,
                s,
            )),

            (r matches Result::Ok(s) ==> (crate::grammar::else_hungry(s) ==> tok(
                old(self).tokens@,
                final(self).current as int,
            ) != TokenType::Else)),
            (tok(old(self).tokens@, old(self).current as int) == TokenType::LeftParen
                && one_token_expr(old(self).tokens@, old(self).current + 1) && tok(
                old(self).tokens@,
                old(self).current + 2,
            ) == TokenType::RightParen && one_token_expr(old(self).tokens@, old(self).current + 3)
                && tok(old(self).tokens@, old(self).current + 4) == TokenType::Semicolon && tok(
                old(self).tokens@,
                old(self).current + 5,
            ) != TokenType::Else ==> r is Ok),
        decreases self.tokens@.len() - self.current, 13nat,
    {
        let ghost ts = self.tokens@;
        let ghost i = self.current as int - 1;
        match self.consume(TokenType::LeftParen, "Expect '(' after 'if'.") {
            Result::Ok(_) => {},
            Result::Err(er) => {
                return Result::Err(er);
            },
        }
        let condition = match self.expression() {
            Result::Ok(c) => c,
            Result::Err(er) => {
                return Result::Err(er);
            },
        };
        let ghost k = self.current as int;
        match self.consume(TokenType::RightParen, "Expect ')' after 'if' condition.") {
            Result::Ok(_) => {},
            Result::Err(er) => {
                return Result::Err(er);
            },
        }
        let then_branch = match self.statement() {
            Result::Ok(s) => s,
            Result::Err(er) => {
                return Result::Err(er);
            },
        };
        let ghost m = self.current as int;
        let mut else_branch: Option<Box<Stmt>> = None;
        if self.do_match(&[TokenType::Else]) {
            let e = match self.statement() {
                Result::Ok(s) => s,
                Result::Err(er) => {
                    return Result::Err(er);
                },
            };
            else_branch = Some(Box::new(e));
        }
        let s = Stmt::If { condition, then_branch: Box::new(then_branch), else_branch };
        proof {
            assert(cut(k));
            assert(cut(m));
            assert(is_statement(ts, i, self.current as int, s));
        }
        Result::Ok(s)
    }

    /// block, from just after the opening brace: declarations up to the
    /// closing brace, which is consumed too.
    #[verifier::loop_isolation(false)]
    fn block(&mut self) -> (r: Result<Vec<Stmt>, ParseError>)
        requires
            old(self).wf(),
        ensures
            final(self).wf(),
            final(self).tokens@ == old(self).tokens@,
            old(self).warnings@.len() <= final(self).warnings@.len(),
            (r matches Result::Err(pe) ==> err_line_in(
                old(self).tokens@,
                old(self).current as int,
                final(self).current as int,
                pe,
            )),
            old(self).current <= final(self).current,
            (r matches Result::Ok(ss) ==> old(self).current < final(self).current && decls_match(
                old(self).tokens@,
                old(self).current as int,
                final(self).current - 1,
                ss@,
            ) && tok(old(self).tokens@, final(self).current - 1) == TokenType::RightBrace),
            (tok(old(self).tokens@, old(self).current as int) == TokenType::RightBrace ==> r
                is Ok && final(self).current == old(self).current + 1),
        decreases self.tokens@.len() - self.current, 17nat,
    {
        let ghost ts = self.tokens@;
        let ghost start = self.current as int;
        let mut statements: Vec<Stmt> = Vec::new();
        proof {
            assert(decls_match(ts, start, start, statements@));
        }
        loop
            invariant
                self.wf(),
                self.tokens@ == ts,
                start <= self.current as int,
                decls_match(ts, start, self.current as int, statements@),
                tok(ts, start) == TokenType::RightBrace ==> self.current as int == start,
                old(self).warnings@.len() <= self.warnings@.len(),
            decreases self.tokens@.len() - self.current,
        {
            if self.check(TokenType::RightBrace) {
                break ;
            }
            if self.is_at_end() {
                break ;
            }
            let ghost b = self.current as int;
            let d = match self.declaration() {
                Result::Ok(d) => d,
                Result::Err(er) => {
                    return Result::Err(er);
                },
            };
            proof {
                lemma_decls_snoc(ts, start, b, self.current as int, statements@, d);
            }
            statements.push(d);
        }
        match self.consume(TokenType::RightBrace, "Expect '}' after block.") {
            Result::Ok(_) => {},
            Result::Err(er) => {
                return Result::Err(er);
            },
        }
        Result::Ok(statements)
    }

    /// printStmt, from just after the `print` keyword.
    fn print_statement(&mut self) -> (r: Result<Stmt, ParseError>)
        requires
            old(self).wf(),
            old(self).current >= 1,
            tok(old(self).tokens@, old(self).current - 1) == TokenType::Print,
        ensures
            final(self).wf(),
            final(self).tokens@ == old(self).tokens@,
            old(self).warnings@.len() <= final(self).warnings@.len(),
            (r matches Result::Err(pe) ==> err_line_in(
                old(self).tokens@,
                old(self).current as int,
                final(self).current as int,
                pe,
            )),
            old(self).current <= final(self).current,
            (r matches Result::Ok(s) ==> old(self).current - 1 < final(self).current
                && is_statement(
                old(self).tokens@,
                old(self).current - 1,
                final(self).current as int,
                s,
            )),
            (one_token_expr(old(self).tokens@, old(self).current as int) && tok(
                old(self).tokens@,
                old(self).current + 1,
            ) == TokenType::Semicolon ==> r is Ok
                && final(self).current == old(self).current + 2),
        decreases self.tokens@.len() - self.current, 13nat,
    {
        let ghost ts = self.tokens@;
        let ghost i = self.current as int - 1;
        let value = match self.expression() {
            Result::Ok(e) => e,
            Result::Err(er) => {
                return Result::Err(er);
            },
        };
        match self.consume(TokenType::Semicolon, "Expect ';' after value.") {
            Result::Ok(_) => {},
            Result::Err(er) => {
                return Result::Err(er);
            },
        }
        let s = Stmt::Print { expression: value };
        proof {
            assert(is_statement(ts, i, self.current as int, s));
        }
        Result::Ok(s)
    }

    /// exprStmt: an expression followed by a semicolon.
    fn expression_statement(&mut self) -> (r: Result<Stmt, ParseError>)
        requires
            old(self).wf(),
        ensures
            final(self).wf(),
            final(self).tokens@ == old(self).tokens@,
            old(self).warnings@.len() <= final(self).warnings@.len(),
            (r matches Result::Err(pe) ==> err_line_in(
                old(self).tokens@,
                old(self).current as int,
                final(self).current as int,
                pe,
            )),
            old(self).current <= final(self).current,
            (r matches Result::Ok(s) ==> old(self).current < final(self).current && is_statement(
                old(self).tokens@,
                old(self).current as int,
                final(self).current as int,
                s,
            ) && (s matches Stmt::Expression { expression } && is_expression(
                old(self).tokens@,
                old(self).current as int,
                final(self).current - 1,
                expression,
            ) && tok(old(self).tokens@, final(self).current - 1) == TokenType::Semicolon)),
            (one_token_expr(old(self).tokens@, old(self).current as int) && tok(
                old(self).tokens@,
                old(self).current + 1,
            ) == TokenType::Semicolon ==> r is Ok
                && final(self).current == old(self).current + 2),
        decreases self.tokens@.len() - self.current, 13nat,
    {
        let ghost ts = self.tokens@;
        let ghost i = self.current as int;
        let expr = match self.expression() {
            Result::Ok(e) => e,
            Result::Err(er) => {
                return Result::Err(er);
            },
        };
        match self.consume(TokenType::Semicolon, "Expect ';' after expression.") {
            Result::Ok(_) => {},
            Result::Err(er) => {
                return Result::Err(er);
            },
        }
        let s = Stmt::Expression { expression: expr };
        proof {
            assert(is_statement(ts, i, self.current as int, s));
        }
        Result::Ok(s)
    }

    /// expression: the lowest tier, an assignment.
    fn expression(&mut self) -> (r: Result<Expr, ParseError>)
        requires
            old(self).wf(),
        ensures
            final(self).wf(),
            final(self).tokens@ == old(self).tokens@,
            old(self).warnings@.len() <= final(self).warnings@.len(),
            (r matches Result::Err(pe) ==> err_line_in(
                old(self).tokens@,
                old(self).current as int,
                final(self).current as int,
                pe,
            )),
            old(self).current <= final(self).current,
            (r matches Result::Ok(e) ==> old(self).current < final(self).current && is_expression(
                old(self).tokens@,
                old(self).current as int,
                final(self).current as int,
                e,
            )),
            (r matches Result::Ok(e) ==> tok(old(self).tokens@, final(self).current as int) != TokenType::Equal),

            (one_token_expr(old(self).tokens@, old(self).current as int) ==> r is Ok
                && final(self).current == old(self).current + 1),
        decreases self.tokens@.len() - self.current, 12nat,
    {
        let ghost ts = self.tokens@;
        let ghost start = self.current as int;
        match self.assignment() {
            Result::Ok(e) => {
                proof {
                    assert(is_expression(ts, start, self.current as int, e));
                }
                Result::Ok(e)
            },
            Result::Err(er) => Result::Err(er),
        }
    }

    /// assignment: either a plain `or` expression, or — when the parsed
    /// left side was a bare variable and an `=` follows — a
    /// right-associative assignment to it.  Any other left side before
    /// `=` is an invalid assignment target and a parse error.
    fn assignment(&mut self) -> (r: Result<Expr, ParseError>)
        requires
            old(self).wf(),
        ensures
            final(self).wf(),
            final(self).tokens@ == old(self).tokens@,
            old(self).warnings@.len() <= final(self).warnings@.len(),
            (r matches Result::Err(pe) ==> err_line_in(
                old(self).tokens@,
                old(self).current as int,
                final(self).current as int,
                pe,
            )),
            old(self).current <= final(self).current,
            (r matches Result::Ok(e) ==> old(self).current < final(self).current && is_assignment(
                old(self).tokens@,
                old(self).current as int,
                final(self).current as int,
                e,
            )),
            (r matches Result::Ok(e) ==> tok(old(self).tokens@, final(self).current as int) != TokenType::Equal),

            (one_token_expr(old(self).tokens@, old(self).current as int) ==> r is Ok
                && final(self).current == old(self).current + 1),
            (simple_literal(tok(old(self).tokens@, old(self).current as int)) && tok(
                old(self).tokens@,
                old(self).current as int,
            ) != TokenType::Identifier && tok(old(self).tokens@, old(self).current + 1)
                == TokenType::Equal && one_token_expr(old(self).tokens@, old(self).current + 2)
                ==> (r matches Result::Err(pe) && pe.message@ == "Invalid assignment target."@
                && pe.line == old(self).tokens@[old(self).current + 1].line)),
        decreases self.tokens@.len() - self.current, 11nat,
    {
        let ghost ts = self.tokens@;
        let ghost start = self.current as int;
        let expr = match self.or() {
            Result::Ok(e) => e,
            Result::Err(er) => {
                return Result::Err(er);
            },
        };
        let ghost orend = self.current as int;
        let ghost gexpr = expr;
        if self.do_match(&[TokenType::Equal]) {
            let equals_line = self.tokens[self.current - 1].line;
            let value = match self.assignment() {
                Result::Ok(v) => v,
                Result::Err(er) => {
                    return Result::Err(er);
                },
            };
            match expr {
                Expr::Variable { name } => {
                    proof {
                        lemma_variable_span(ts, start, orend, gexpr, 10);
                    }
                    let e = Expr::Assign { name, value: Box::new(value) };
                    proof {
                        assert(is_assignment(ts, start, self.current as int, e));
                    }
                    Result::Ok(e)
                },
                _ => {
                    proof {
                        assert(cut(orend));
                        assert(equals_line == ts[orend].line);
                    }
                    Result::Err(
                        ParseError {
                            line: equals_line,
                            message: "Invalid assignment target.".to_owned(),
                        },
                    )
                },
            }
        } else {
            proof {
                assert(is_assignment(ts, start, self.current as int, expr));
            }
            Result::Ok(expr)
        }
    }

    /// logic_or: `or`, left-associative.
    #[verifier::loop_isolation(false)]
    fn or(&mut self) -> (r: Result<Expr, ParseError>)
        requires
            old(self).wf(),
        ensures
            final(self).wf(),
            final(self).tokens@ == old(self).tokens@,
            old(self).warnings@.len() <= final(self).warnings@.len(),
            (r matches Result::Err(pe) ==> err_line_in(
                old(self).tokens@,
                old(self).current as int,
                final(self).current as int,
                pe,
            )),
            old(self).current <= final(self).current,
            (r matches Result::Ok(e) ==> old(self).current < final(self).current && is_or(
                old(self).tokens@,
                old(self).current as int,
                final(self).current as int,
                e,
            )),
            (r matches Result::Ok(e) ==> tok(old(self).tokens@, final(self).current as int) != TokenType::Or),

            (one_token_operand(old(self).tokens@, old(self).current as int) ==> r is Ok
                && final(self).current == old(self).current + 1),
        decreases self.tokens@.len() - self.current, 10nat,
    {
        let ghost ts = self.tokens@;
        let ghost start = self.current as int;
        let mut expr = match self.and() {
            Result::Ok(e) => e,
            Result::Err(er) => {
                return Result::Err(er);
            },
        };
        loop
            invariant
                self.wf(),
                self.tokens@ == ts,
                start < self.current as int,
                is_or(ts, start, self.current as int, expr),
                one_token_operand(ts, start) ==> self.current as int == start + 1,
                old(self).warnings@.len() <= self.warnings@.len(),
            decreases self.tokens@.len() - self.current,
        {
            if !self.do_match(&[TokenType::Or]) {
                break ;
            }
            let ghost k = self.current as int - 1;
            let operator = self.previous();
            let right = match self.and() {
                Result::Ok(e) => e,
                Result::Err(er) => {
                    return Result::Err(er);
                },
            };
            expr = Expr::Logical { left: Box::new(expr), operator, right: Box::new(right) };
            proof {
                assert(cut(k));
                assert(is_or(ts, start, self.current as int, expr));
            }
        }
        Result::Ok(expr)
    }

    /// logic_and: `and`, left-associative.
    #[verifier::loop_isolation(false)]
    fn and(&mut self) -> (r: Result<Expr, ParseError>)
        requires
            old(self).wf(),
        ensures
            final(self).wf(),
            final(self).tokens@ == old(self).tokens@,
            old(self).warnings@.len() <= final(self).warnings@.len(),
            (r matches Result::Err(pe) ==> err_line_in(
                old(self).tokens@,
                old(self).current as int,
                final(self).current as int,
                pe,
            )),
            old(self).current <= final(self).current,
            (r matches Result::Ok(e) ==> old(self).current < final(self).current && is_and(
                old(self).tokens@,
                old(self).current as int,
                final(self).current as int,
                e,
            )),
            (r matches Result::Ok(e) ==> tok(old(self).tokens@, final(self).current as int) != TokenType::And),

            (one_token_operand(old(self).tokens@, old(self).current as int) ==> r is Ok
                && final(self).current == old(self).current + 1),
        decreases self.tokens@.len() - self.current, 9nat,
    {
        let ghost ts = self.tokens@;
        let ghost start = self.current as int;
        let mut expr = match self.equality() {
            Result::Ok(e) => e,
            Result::Err(er) => {
                return Result::Err(er);
            },
        };
        loop
            invariant
                self.wf(),
                self.tokens@ == ts,
                start < self.current as int,
                is_and(ts, start, self.current as int, expr),
                one_token_operand(ts, start) ==> self.current as int == start + 1,
                old(self).warnings@.len() <= self.warnings@.len(),
            decreases self.tokens@.len() - self.current,
        {
            if !self.do_match(&[TokenType::And]) {
                break ;
            }
            let ghost k = self.current as int - 1;
            let operator = self.previous();
            let right = match self.equality() {
                Result::Ok(e) => e,
                Result::Err(er) => {
                    return Result::Err(er);
                },
            };
            expr = Expr::Logical { left: Box::new(expr), operator, right: Box::new(right) };
            proof {
                assert(cut(k));
                assert(is_and(ts, start, self.current as int, expr));
            }
        }
        Result::Ok(expr)
    }

    /// equality: `==` and `!=`, left-associative.
    #[verifier::loop_isolation(false)]
    fn equality(&mut self) -> (r: Result<Expr, ParseError>)
        requires
            old(self).wf(),
        ensures
            final(self).wf(),
            final(self).tokens@ == old(self).tokens@,
            old(self).warnings@.len() <= final(self).warnings@.len(),
            (r matches Result::Err(pe) ==> err_line_in(
                old(self).tokens@,
                old(self).current as int,
                final(self).current as int,
                pe,
            )),
            old(self).current <= final(self).current,
            (r matches Result::Ok(e) ==> old(self).current < final(self).current && is_equality(
                old(self).tokens@,
                old(self).current as int,
                final(self).current as int,
                e,
            )),
            (r matches Result::Ok(e) ==> tok(old(self).tokens@, final(self).current as int) != TokenType::BangEqual && tok(old(self).tokens@, final(self).current as int) != TokenType::EqualEqual),

            (one_token_operand(old(self).tokens@, old(self).current as int) ==> r is Ok
                && final(self).current == old(self).current + 1),
        decreases self.tokens@.len() - self.current, 8nat,
    {
        let ghost ts = self.tokens@;
        let ghost start = self.current as int;
        let mut expr = match self.comparison() {
            Result::Ok(e) => e,
            Result::Err(er) => {
                return Result::Err(er);
            },
        };
        loop
            invariant
                self.wf(),
                self.tokens@ == ts,
                start < self.current as int,
                is_equality(ts, start, self.current as int, expr),
                one_token_operand(ts, start) ==> self.current as int == start + 1,
                old(self).warnings@.len() <= self.warnings@.len(),
            decreases self.tokens@.len() - self.current,
        {
            if !self.do_match(&[TokenType::BangEqual, TokenType::EqualEqual]) {
                break ;
            }
            let ghost k = self.current as int - 1;
            let operator = self.previous();
            let right = match self.comparison() {
                Result::Ok(e) => e,
                Result::Err(er) => {
                    return Result::Err(er);
                },
            };
            expr = Expr::Binary { left: Box::new(expr), operator, right: Box::new(right) };
            proof {
                assert(cut(k));
                assert(is_equality(ts, start, self.current as int, expr));
            }
        }
        Result::Ok(expr)
    }

    /// comparison: the four orderings, left-associative.
    #[verifier::loop_isolation(false)]
    fn comparison(&mut self) -> (r: Result<Expr, ParseError>)
        requires
            old(self).wf(),
        ensures
            final(self).wf(),
            final(self).tokens@ == old(self).tokens@,
            old(self).warnings@.len() <= final(self).warnings@.len(),
            (r matches Result::Err(pe) ==> err_line_in(
                old(self).tokens@,
                old(self).current as int,
                final(self).current as int,
                pe,
            )),
            old(self).current <= final(self).current,
            (r matches Result::Ok(e) ==> old(self).current < final(self).current && is_comparison(
                old(self).tokens@,
                old(self).current as int,
                final(self).current as int,
                e,
            )),
            (r matches Result::Ok(e) ==> tok(old(self).tokens@, final(self).current as int) != TokenType::Greater && tok(old(self).tokens@, final(self).current as int) != TokenType::GreaterEqual && tok(old(self).tokens@, final(self).current as int) != TokenType::Less && tok(old(self).tokens@, final(self).current as int) != TokenType::LessEqual),

            (one_token_operand(old(self).tokens@, old(self).current as int) ==> r is Ok
                && final(self).current == old(self).current + 1),
        decreases self.tokens@.len() - self.current, 7nat,
    {
        let ghost ts = self.tokens@;
        let ghost start = self.current as int;
        let mut expr = match self.term() {
            Result::Ok(e) => e,
            Result::Err(er) => {
                return Result::Err(er);
            },
        };
        loop
            invariant
                self.wf(),
                self.tokens@ == ts,
                start < self.current as int,
                is_comparison(ts, start, self.current as int, expr),
                one_token_operand(ts, start) ==> self.current as int == start + 1,
                old(self).warnings@.len() <= self.warnings@.len(),
            decreases self.tokens@.len() - self.current,
        {
            if !self.do_match(
                &[
                    TokenType::Greater,
                    TokenType::GreaterEqual,
                    TokenType::Less,
                    TokenType::LessEqual,
                ],
            ) {
                break ;
            }
            let ghost k = self.current as int - 1;
            let operator = self.previous();
            let right = match self.term() {
                Result::Ok(e) => e,
                Result::Err(er) => {
                    return Result::Err(er);
                },
            };
            expr = Expr::Binary { left: Box::new(expr), operator, right: Box::new(right) };
            proof {
                assert(cut(k));
                assert(is_comparison(ts, start, self.current as int, expr));
            }
        }
        Result::Ok(expr)
    }

    /// term: `+` and `-`, left-associative.
    #[verifier::loop_isolation(false)]
    fn term(&mut self) -> (r: Result<Expr, ParseError>)
        requires
            old(self).wf(),
        ensures
            final(self).wf(),
            final(self).tokens@ == old(self).tokens@,
            old(self).warnings@.len() <= final(self).warnings@.len(),
            (r matches Result::Err(pe) ==> err_line_in(
                old(self).tokens@,
                old(self).current as int,
                final(self).current as int,
                pe,
            )),
            old(self).current <= final(self).current,
            (r matches Result::Ok(e) ==> old(self).current < final(self).current && is_term(
                old(self).tokens@,
                old(self).current as int,
                final(self).current as int,
                e,
            )),
            (r matches Result::Ok(e) ==> tok(old(self).tokens@, final(self).current as int) != TokenType::Minus && tok(old(self).tokens@, final(self).current as int) != TokenType::Plus),

            (one_token_operand(old(self).tokens@, old(self).current as int) ==> r is Ok
                && final(self).current == old(self).current + 1),
        decreases self.tokens@.len() - self.current, 6nat,
    {
        let ghost ts = self.tokens@;
        let ghost start = self.current as int;
        let mut expr = match self.factor() {
            Result::Ok(e) => e,
            Result::Err(er) => {
                return Result::Err(er);
            },
        };
        loop
            invariant
                self.wf(),
                self.tokens@ == ts,
                start < self.current as int,
                is_term(ts, start, self.current as int, expr),
                one_token_operand(ts, start) ==> self.current as int == start + 1,
                old(self).warnings@.len() <= self.warnings@.len(),
            decreases self.tokens@.len() - self.current,
        {
            if !self.do_match(&[TokenType::Minus, TokenType::Plus]) {
                break ;
            }
            let ghost k = self.current as int - 1;
            let operator = self.previous();
            let right = match self.factor() {
                Result::Ok(e) => e,
                Result::Err(er) => {
                    return Result::Err(er);
                },
            };
            expr = Expr::Binary { left: Box::new(expr), operator, right: Box::new(right) };
            proof {
                assert(cut(k));
                assert(is_term(ts, start, self.current as int, expr));
            }
        }
        Result::Ok(expr)
    }

    /// factor: `*` and `/`, left-associative.
    #[verifier::loop_isolation(false)]
    fn factor(&mut self) -> (r: Result<Expr, ParseError>)
        requires
            old(self).wf(),
        ensures
            final(self).wf(),
            final(self).tokens@ == old(self).tokens@,
            old(self).warnings@.len() <= final(self).warnings@.len(),
            (r matches Result::Err(pe) ==> err_line_in(
                old(self).tokens@,
                old(self).current as int,
                final(self).current as int,
                pe,
            )),
            old(self).current <= final(self).current,
            (r matches Result::Ok(e) ==> old(self).current < final(self).current && is_factor(
                old(self).tokens@,
                old(self).current as int,
                final(self).current as int,
                e,
            )),
            (r matches Result::Ok(e) ==> tok(old(self).tokens@, final(self).current as int) != TokenType::Slash && tok(old(self).tokens@, final(self).current as int) != TokenType::Star),

            (one_token_operand(old(self).tokens@, old(self).current as int) ==> r is Ok
                && final(self).current == old(self).current + 1),
        decreases self.tokens@.len() - self.current, 5nat,
    {
        let ghost ts = self.tokens@;
        let ghost start = self.current as int;
        let mut expr = match self.unary() {
            Result::Ok(e) => e,
            Result::Err(er) => {
                return Result::Err(er);
            },
        };
        loop
            invariant
                self.wf(),
                self.tokens@ == ts,
                start < self.current as int,
                is_factor(ts, start, self.current as int, expr),
                one_token_operand(ts, start) ==> self.current as int == start + 1,
                old(self).warnings@.len() <= self.warnings@.len(),
            decreases self.tokens@.len() - self.current,
        {
            if !self.do_match(&[TokenType::Slash, TokenType::Star]) {
                break ;
            }
            let ghost k = self.current as int - 1;
            let operator = self.previous();
            let right = match self.unary() {
                Result::Ok(e) => e,
                Result::Err(er) => {
                    return Result::Err(er);
                },
            };
            expr = Expr::Binary { left: Box::new(expr), operator, right: Box::new(right) };
            proof {
                assert(cut(k));
                assert(is_factor(ts, start, self.current as int, expr));
            }
        }
        Result::Ok(expr)
    }

    /// unary: `!` and `-` prefixes.
    fn unary(&mut self) -> (r: Result<Expr, ParseError>)
        requires
            old(self).wf(),
        ensures
            final(self).wf(),
            final(self).tokens@ == old(self).tokens@,
            old(self).warnings@.len() <= final(self).warnings@.len(),
            (r matches Result::Err(pe) ==> err_line_in(
                old(self).tokens@,
                old(self).current as int,
                final(self).current as int,
                pe,
            )),
            old(self).current <= final(self).current,
            (r matches Result::Ok(e) ==> old(self).current < final(self).current && is_unary(
                old(self).tokens@,
                old(self).current as int,
                final(self).current as int,
                e,
            )),
            (r matches Result::Ok(e) ==> tok(old(self).tokens@, final(self).current as int) != TokenType::LeftParen),

            (one_token_operand(old(self).tokens@, old(self).current as int) ==> r is Ok
                && final(self).current == old(self).current + 1),
        decreases self.tokens@.len() - self.current, 4nat,
    {
        let ghost ts = self.tokens@;
        let ghost start = self.current as int;
        if self.do_match(&[TokenType::Bang, TokenType::Minus]) {
            let operator = self.previous();
            let right = match self.unary() {
                Result::Ok(e) => e,
                Result::Err(er) => {
                    return Result::Err(er);
                },
            };
            let e = Expr::Unary { operator, right: Box::new(right) };
            proof {
                assert(is_unary(ts, start, self.current as int, e));
            }
            Result::Ok(e)
        } else {
            match self.call() {
                Result::Ok(e) => {
                    proof {
                        assert(is_unary(ts, start, self.current as int, e));
                    }
                    Result::Ok(e)
                },
                Result::Err(er) => Result::Err(er),
            }
        }
    }

    /// call: a primary followed by any number of argument lists.
    #[verifier::loop_isolation(false)]
    fn call(&mut self) -> (r: Result<Expr, ParseError>)
        requires
            old(self).wf(),
        ensures
            final(self).wf(),
            final(self).tokens@ == old(self).tokens@,
            old(self).warnings@.len() <= final(self).warnings@.len(),
            (r matches Result::Err(pe) ==> err_line_in(
                old(self).tokens@,
                old(self).current as int,
                final(self).current as int,
                pe,
            )),
            old(self).current <= final(self).current,
            (r matches Result::Ok(e) ==> old(self).current < final(self).current && is_call(
                old(self).tokens@,
                old(self).current as int,
                final(self).current as int,
                e,
            )),
            (r matches Result::Ok(e) ==> tok(old(self).tokens@, final(self).current as int) != TokenType::LeftParen),

            (one_token_operand(old(self).tokens@, old(self).current as int) ==> r is Ok
                && final(self).current == old(self).current + 1),
        decreases self.tokens@.len() - self.current, 3nat,
    {
        let ghost ts = self.tokens@;
        let ghost start = self.current as int;
        let mut expr = match self.primary() {
            Result::Ok(e) => e,
            Result::Err(er) => {
                return Result::Err(er);
            },
        };
        loop
            invariant
                self.wf(),
                self.tokens@ == ts,
                start < self.current as int,
                is_call(ts, start, self.current as int, expr),
                one_token_operand(ts, start) ==> self.current as int == start + 1,
                old(self).warnings@.len() <= self.warnings@.len(),
            decreases self.tokens@.len() - self.current,
        {
            if !self.do_match(&[TokenType::LeftParen]) {
                break ;
            }
            let e = match self.finish_call(expr, Ghost(start)) {
                Result::Ok(e) => e,
                Result::Err(er) => {
                    return Result::Err(er);
                },
            };
            expr = e;
        }
        Result::Ok(expr)
    }

    /// The argument list and closing parenthesis of a call, the opening
    /// parenthesis having just been consumed.
    #[verifier::loop_isolation(false)]
    #[verifier::rlimit(100)]
    fn finish_call(&mut self, callee: Expr, Ghost(start): Ghost<int>) -> (r: Result<
        Expr,
        ParseError,
    >)
        requires
            old(self).wf(),
            old(self).current >= 1,
            0 <= start < old(self).current - 1,
            tok(old(self).tokens@, old(self).current - 1) == TokenType::LeftParen,
            is_call(old(self).tokens@, start, old(self).current - 1, callee),
        ensures
            final(self).wf(),
            final(self).tokens@ == old(self).tokens@,
            old(self).warnings@.len() <= final(self).warnings@.len(),
            (r matches Result::Err(pe) ==> err_line_in(
                old(self).tokens@,
                old(self).current as int,
                final(self).current as int,
                pe,
            )),
            old(self).current <= final(self).current,
            (r matches Result::Ok(e) ==> old(self).current < final(self).current && is_call(
                old(self).tokens@,
                start,
                final(self).current as int,
                e,
            )),
            (r matches Result::Ok(e) ==> ((e matches Expr::Call { callee, paren, arguments }
                && arguments@.len() > 255) ==> old(self).warnings@.len()
                < final(self).warnings@.len())),
            (tok(old(self).tokens@, old(self).current as int) == TokenType::RightParen ==> r
                is Ok && final(self).current == old(self).current + 1),
            (one_token_operand(old(self).tokens@, old(self).current as int) && tok(
                old(self).tokens@,
                old(self).current + 1,
            ) == TokenType::RightParen ==> r is Ok && final(self).current == old(self).current
                + 2),
        decreases self.tokens@.len() - self.current, 13nat,
    {
        let ghost ts = self.tokens@;
        let ghost k = self.current as int - 1;
        let ghost argstart = self.current as int;
        let mut arguments: Vec<Expr> = Vec::new();
        if !self.check(TokenType::RightParen) {
            let first = match self.expression() {
                Result::Ok(e) => e,
                Result::Err(er) => {
                    return Result::Err(er);
                },
            };
            proof {
                assert(arguments@.push(first) =~= seq![first]);
            }
            arguments.push(first);
            proof {
                assert(args_match(ts, argstart, self.current as int, arguments@));
            }
            loop
                invariant
                    self.wf(),
                    self.tokens@ == ts,
                    argstart < self.current as int,
                    arguments@.len() >= 1,
                    args_match(ts, argstart, self.current as int, arguments@),
                    old(self).warnings@.len() <= self.warnings@.len(),
                    arguments@.len() > 255 ==> old(self).warnings@.len() < self.warnings@.len(),
                    one_token_operand(ts, argstart) && tok(ts, argstart + 1)
                        == TokenType::RightParen ==> self.current as int == argstart + 1,
                decreases self.tokens@.len() - self.current,
            {
                if !self.do_match(&[TokenType::Comma]) {
                    break ;
                }
                if arguments.len() >= 255 {
                    let w = ParseError {
                        line: self.tokens[self.current].line,
                        message: "Can't have more than 255 arguments.".to_owned(),
                    };
                    self.warnings.push(w);
                }
                let ghost b = self.current as int - 1;
                let e = match self.expression() {
                    Result::Ok(e) => e,
                    Result::Err(er) => {
                        return Result::Err(er);
                    },
                };
                proof {
                    lemma_args_snoc(ts, argstart, b, self.current as int, arguments@, e);
                }
                arguments.push(e);
            }
        }
        let paren = match self.consume(TokenType::RightParen, "Expect ')' after arguments.") {
            Result::Ok(t) => t,
            Result::Err(er) => {
                return Result::Err(er);
            },
        };
        let e = Expr::Call { callee: Box::new(callee), paren, arguments };
        proof {
            let ghost j = self.current as int;
            assert(cut(k));
            assert(start < k && k + 1 <= j - 1);
            assert(tok(ts, k) == TokenType::LeftParen);
            assert(tok(ts, j - 1) == TokenType::RightParen);
            assert(e->paren == ts[j - 1]);
            assert(is_call(ts, start, k, *e->callee));
            assert(args_match(ts, k + 1, j - 1, e->arguments@));
            assert(is_call(ts, start, j, e));
        }
        Result::Ok(e)
    }

    /// primary: literals, identifiers and parenthesised groupings.
    fn primary(&mut self) -> (r: Result<Expr, ParseError>)
        requires
            old(self).wf(),
        ensures
            final(self).wf(),
            final(self).tokens@ == old(self).tokens@,
            old(self).warnings@.len() <= final(self).warnings@.len(),
            (r matches Result::Err(pe) ==> err_line_in(
                old(self).tokens@,
                old(self).current as int,
                final(self).current as int,
                pe,
            )),
            old(self).current <= final(self).current,
            (r matches Result::Ok(e) ==> old(self).current < final(self).current && is_primary(
                old(self).tokens@,
                old(self).current as int,
                final(self).current as int,
                e,
            )),

            (simple_literal(tok(old(self).tokens@, old(self).current as int)) ==> r is Ok
                && final(self).current == old(self).current + 1),
            (tok(old(self).tokens@, old(self).current as int) == TokenType::LeftParen
                && one_token_expr(old(self).tokens@, old(self).current + 1) && tok(
                old(self).tokens@,
                old(self).current + 2,
            ) == TokenType::RightParen ==> r is Ok && final(self).current == old(self).current
                + 3),
        decreases self.tokens@.len() - self.current, 2nat,
    {
        let ghost ts = self.tokens@;
        let ghost start = self.current as int;
        if self.do_match(&[TokenType::False]) {
            Result::Ok(Expr::Literal { value: Lit::False })
        } else if self.do_match(&[TokenType::True]) {
            Result::Ok(Expr::Literal { value: Lit::True })
        } else if self.do_match(&[TokenType::Nil]) {
            Result::Ok(Expr::Literal { value: Lit::Nil })
        } else if self.do_match(&[TokenType::Num, TokenType::Str]) {
            let t = self.previous();
            Result::Ok(Expr::Literal { value: t.literal })
        } else if self.do_match(&[TokenType::Identifier]) {
            let t = self.previous();
            Result::Ok(Expr::Variable { name: t })
        } else if self.do_match(&[TokenType::LeftParen]) {
            let expr = match self.expression() {
                Result::Ok(e) => e,
                Result::Err(er) => {
                    return Result::Err(er);
                },
            };
            match self.consume(TokenType::RightParen, "Expect ')' after expression.") {
                Result::Ok(_) => {},
                Result::Err(er) => {
                    return Result::Err(er);
                },
            }
            let e = Expr::Grouping { expression: Box::new(expr) };
            proof {
                assert(is_primary(ts, start, self.current as int, e));
            }
            Result::Ok(e)
        } else {
            proof {
                assert(cut(self.current as int));
            }
            Result::Err(
                ParseError {
                    line: self.tokens[self.current].line,
                    message: "Expect expression.".to_owned(),
                },
            )
        }
    }
}

/// A tree accepted by tier `tier` (0 for `is_or` down the chain) whose
/// root is a bare variable reference spans exactly one identifier
/// token: what the assignment parser relies on to recover the target's
/// position.
proof fn lemma_variable_span(ts: Seq<Token>, i: int, j: int, e: Expr, tier: nat)
    requires
        e is Variable,
    ensures
        (if tier == 10 {
            is_or(ts, i, j, e)
        } else if tier == 9 {
            is_and(ts, i, j, e)
        } else if tier == 8 {
            is_equality(ts, i, j, e)
        } else if tier == 7 {
            is_comparison(ts, i, j, e)
        } else if tier == 6 {
            is_term(ts, i, j, e)
        } else if tier == 5 {
            is_factor(ts, i, j, e)
        } else if tier == 4 {
            is_unary(ts, i, j, e)
        } else if tier == 3 {
            is_call(ts, i, j, e)
        } else {
            is_primary(ts, i, j, e)
        }) ==> j == i + 1 && tok(ts, i) == TokenType::Identifier && e == (Expr::Variable {
            name: ts[i],
        }),
    decreases tier,
{
    if tier > 0 {
        lemma_variable_span(ts, i, j, e, (tier - 1) as nat);
    }
}

} // verus!
