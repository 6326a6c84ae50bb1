//! The big-step semantics of the language, written as total spec
//! functions.
//!
//! A program state is an arena of scope frames, the output written so
//! far, and how many native-call results have been consumed.  Evaluation
//! is indexed by fuel: each function call and each loop iteration costs
//! one unit, and an exhausted budget is a `ResourceExhausted` failure, so
//! every spec function here terminates while the language itself does
//! not.  Native calls draw their results from a sequence `log`; the
//! interpreter's contracts quantify over every extension of the results
//! it actually saw, so they state what holds whatever a host returns.
use vstd::prelude::*;

use crate::display::mag;
use crate::display::val_display;
use crate::environment::GFrame;
use crate::environment::s_lookup;
use crate::environment::s_resolve;
use crate::error::GErr;
use crate::expr::Expr;
use crate::expr::expr_size;
use crate::expr::exprs_size;
use crate::stmt::Stmt;
use crate::stmt::stmt_size;
use crate::stmt::stmts_size;
use crate::token::GVal;
use crate::token::Token;
use crate::token::TokenType;
use crate::token::lit_view;
use crate::token::truthy;
use crate::token::val_eq;

verus! {

/// A program state: the scope arena, the lines printed so far, and the
/// number of native results consumed so far.
#[verifier::ext_equal]
pub ghost struct GState {
    pub frames: Seq<GFrame>,
    pub output: Seq<Seq<char>>,
    pub used: int,
}

/// The outcome of evaluating an expression.
pub ghost enum EOut {
    Val { st: GState, v: GVal },
    Fail { st: GState, e: GErr },
}

/// The outcome of evaluating an argument list.
pub ghost enum LOut {
    Vals { st: GState, vs: Seq<GVal> },
    Fail { st: GState, e: GErr },
}

/// The outcome of executing a statement: completion, an unwinding
/// return signal, or a failure.  A return is not an error and never
/// shares the error channel.
pub ghost enum SOut {
    Norm { st: GState },
    Ret { st: GState, v: GVal },
    Fail { st: GState, e: GErr },
}

/// Binds `name` in frame `i` of the state.
pub open spec fn st_define(st: GState, i: int, name: Seq<char>, v: GVal) -> GState {
    GState {
        frames: st.frames.update(
            i,
            GFrame { vars: st.frames[i].vars.insert(name, v), parent: st.frames[i].parent },
        ),
        ..st
    }
}

/// Opens a fresh scope whose enclosing frame is `parent`.
pub open spec fn st_push(st: GState, parent: int) -> GState {
    GState {
        frames: st.frames.push(GFrame { vars: Map::empty(), parent: Some(parent) }),
        ..st
    }
}

/// Whether a mathematical integer fits the number representation.
pub open spec fn in_i64(x: int) -> bool {
    -0x8000_0000_0000_0000 <= x <= 0x7fff_ffff_ffff_ffff
}

/// Truncating division, the machine's rule: the magnitude quotient
/// (see `mag`) with the sign of the operands' product.
pub open spec fn div_quot(a: i64, b: i64) -> int {
    if (a < 0) == (b < 0) {
        (mag(a) / mag(b)) as int
    } else {
        -((mag(a) / mag(b)) as int)
    }
}

/// The meaning of a binary operator on two evaluated operands.  `+` adds
/// numbers or concatenates strings; `-`, `*`, `/` and the orderings work
/// on numbers only; equality is total and never fails.  Arithmetic
/// outside the representable range fails with `Overflow`, division by
/// zero with `DivisionByZero`, and any other operand pairing with a
/// `TypeError` naming the operator.
pub open spec fn s_binop(st: GState, op: Token, l: GVal, r: GVal) -> EOut {
    let line = op.line as int;
    let type_error = EOut::Fail { st, e: GErr::TypeError { operator: op.lexeme@, line } };
    match op.token_type {
        TokenType::Plus => match (l, r) {
            (GVal::Num(a), GVal::Num(b)) => if in_i64(a + b) {
                EOut::Val { st, v: GVal::Num((a + b) as i64) }
            } else {
                EOut::Fail { st, e: GErr::Overflow { line } }
            },
            (GVal::Str(a), GVal::Str(b)) => EOut::Val { st, v: GVal::Str(a + b) },
            _ => type_error,
        },
        TokenType::Minus => match (l, r) {
            (GVal::Num(a), GVal::Num(b)) => if in_i64(a - b) {
                EOut::Val { st, v: GVal::Num((a - b) as i64) }
            } else {
                EOut::Fail { st, e: GErr::Overflow { line } }
            },
            _ => type_error,
        },
        TokenType::Star => match (l, r) {
            (GVal::Num(a), GVal::Num(b)) => if in_i64(a * b) {
                EOut::Val { st, v: GVal::Num((a * b) as i64) }
            } else {
                EOut::Fail { st, e: GErr::Overflow { line } }
            },
            _ => type_error,
        },
        TokenType::Slash => match (l, r) {
            (GVal::Num(a), GVal::Num(b)) => if b == 0 {
                EOut::Fail { st, e: GErr::DivisionByZero { line } }
            } else if in_i64(div_quot(a, b)) {
                EOut::Val { st, v: GVal::Num(div_quot(a, b) as i64) }
            } else {
                EOut::Fail { st, e: GErr::Overflow { line } }
            },
            _ => type_error,
        },
        TokenType::Greater => match (l, r) {
            (GVal::Num(a), GVal::Num(b)) => EOut::Val { st, v: GVal::Bool(a > b) },
            _ => type_error,
        },
        TokenType::GreaterEqual => match (l, r) {
            (GVal::Num(a), GVal::Num(b)) => EOut::Val { st, v: GVal::Bool(a >= b) },
            _ => type_error,
        },
        TokenType::Less => match (l, r) {
            (GVal::Num(a), GVal::Num(b)) => EOut::Val { st, v: GVal::Bool(a < b) },
            _ => type_error,
        },
        TokenType::LessEqual => match (l, r) {
            (GVal::Num(a), GVal::Num(b)) => EOut::Val { st, v: GVal::Bool(a <= b) },
            _ => type_error,
        },
        TokenType::BangEqual => EOut::Val { st, v: GVal::Bool(!val_eq(l, r)) },
        TokenType::EqualEqual => EOut::Val { st, v: GVal::Bool(val_eq(l, r)) },
        _ => type_error,
    }
}

/// The meaning of a unary operator: `!` negates truthiness and is total;
/// `-` negates a number and rejects anything else.
pub open spec fn s_unary(st: GState, op: Token, v: GVal) -> EOut {
    let line = op.line as int;
    match op.token_type {
        TokenType::Bang => EOut::Val { st, v: GVal::Bool(!truthy(v)) },
        TokenType::Minus => match v {
            GVal::Num(n) => if in_i64(-(n as int)) {
                EOut::Val { st, v: GVal::Num((-(n as int)) as i64) }
            } else {
                EOut::Fail { st, e: GErr::Overflow { line } }
            },
            _ => EOut::Fail { st, e: GErr::TypeError { operator: op.lexeme@, line } },
        },
        _ => EOut::Fail { st, e: GErr::TypeError { operator: op.lexeme@, line } },
    }
}

/// The frame a call binds its parameters in, in declared order; with a
/// repeated parameter name the later binding wins.
pub open spec fn bind_params(params: Seq<Seq<char>>, args: Seq<GVal>) -> Map<Seq<char>, GVal>
    decreases params.len(),
{
    if params.len() == 0 {
        Map::empty()
    } else {
        bind_params(params.subrange(0, params.len() - 1), args).insert(
            params[params.len() - 1],
            args[params.len() - 1],
        )
    }
}

/// Evaluates an expression.
pub open spec fn s_eval(st: GState, env: int, e: Expr, fuel: nat, log: Seq<GVal>) -> EOut
    decreases fuel, expr_size(e), 0nat,
{
    match e {
        Expr::Literal { value } => EOut::Val { st, v: lit_view(value) },
        Expr::Grouping { expression } => s_eval(st, env, *expression, fuel, log),
        Expr::Variable { name } => match s_lookup(st.frames, env, name.lexeme@) {
            Some(v) => EOut::Val { st, v },
            None => EOut::Fail {
                st,
                e: GErr::UndefinedVariable { name: name.lexeme@, line: name.line as int },
            },
        },
        Expr::Assign { name, value } => match s_eval(st, env, *value, fuel, log) {
            EOut::Val { st: st1, v } => match s_resolve(st1.frames, env, name.lexeme@) {
                Some(i) => EOut::Val { st: st_define(st1, i, name.lexeme@, v), v },
                None => EOut::Fail {
                    st: st1,
                    e: GErr::UndefinedVariable { name: name.lexeme@, line: name.line as int },
                },
            },
            EOut::Fail { st: st1, e } => EOut::Fail { st: st1, e },
        },
        Expr::Unary { operator, right } => match s_eval(st, env, *right, fuel, log) {
            EOut::Val { st: st1, v } => s_unary(st1, operator, v),
            EOut::Fail { st: st1, e } => EOut::Fail { st: st1, e },
        },
        Expr::Binary { left, operator, right } => match s_eval(st, env, *left, fuel, log) {
            EOut::Val { st: st1, v: lv } => match s_eval(st1, env, *right, fuel, log) {
                EOut::Val { st: st2, v: rv } => s_binop(st2, operator, lv, rv),
                EOut::Fail { st: st2, e } => EOut::Fail { st: st2, e },
            },
            EOut::Fail { st: st1, e } => EOut::Fail { st: st1, e },
        },
        Expr::Logical { left, operator, right } => match s_eval(st, env, *left, fuel, log) {
            EOut::Val { st: st1, v } => {
                if operator.token_type == TokenType::Or {
                    if truthy(v) {
                        EOut::Val { st: st1, v }
                    } else {
                        s_eval(st1, env, *right, fuel, log)
                    }
                } else if operator.token_type == TokenType::And {
                    if !truthy(v) {
                        EOut::Val { st: st1, v }
                    } else {
                        s_eval(st1, env, *right, fuel, log)
                    }
                } else {
                    EOut::Fail {
                        st: st1,
                        e: GErr::TypeError {
                            operator: operator.lexeme@,
                            line: operator.line as int,
                        },
                    }
                }
            },
            EOut::Fail { st: st1, e } => EOut::Fail { st: st1, e },
        },
        Expr::Call { callee, paren, arguments } => match s_eval(st, env, *callee, fuel, log) {
            EOut::Val { st: st1, v: cv } => match s_eval_list(st1, env, arguments@, fuel, log) {
                LOut::Vals { st: st2, vs } => s_call(st2, cv, vs, paren.line as int, fuel, log),
                LOut::Fail { st: st2, e } => EOut::Fail { st: st2, e },
            },
            EOut::Fail { st: st1, e } => EOut::Fail { st: st1, e },
        },
    }
}

/// Evaluates a list of argument expressions, left to right.
pub open spec fn s_eval_list(st: GState, env: int, es: Seq<Expr>, fuel: nat, log: Seq<GVal>) -> LOut
    decreases fuel, exprs_size(es), 0nat,
{
    if es.len() == 0 {
        LOut::Vals { st, vs: Seq::empty() }
    } else {
        match s_eval(st, env, es[0], fuel, log) {
            EOut::Val { st: st1, v } => match s_eval_list(
                st1,
                env,
                es.subrange(1, es.len() as int),
                fuel,
                log,
            ) {
                LOut::Vals { st: st2, vs } => LOut::Vals { st: st2, vs: seq![v] + vs },
                LOut::Fail { st: st2, e } => LOut::Fail { st: st2, e },
            },
            EOut::Fail { st: st1, e } => LOut::Fail { st: st1, e },
        }
    }
}

/// Invokes a callable on evaluated arguments: the single calling
/// convention of the language.  Both kinds check arity first.  A user
/// function runs its body in a fresh scope enclosed by its captured
/// closure scope — static scoping, never the caller's scope — and a body
/// that completes without a return signal yields nil.  A native call
/// consumes the next host result from `log`.  Calling any other value
/// fails with `NotCallable`.
pub open spec fn s_call(
    st: GState,
    callee: GVal,
    args: Seq<GVal>,
    line: int,
    fuel: nat,
    log: Seq<GVal>,
) -> EOut
    decreases fuel, 0nat, 0nat,
{
    match callee {
        GVal::Fun { name, params, body, closure } => {
            if params.len() != args.len() {
                EOut::Fail {
                    st,
                    e: GErr::ArityMismatch {
                        expected: params.len() as int,
                        got: args.len() as int,
                        line,
                    },
                }
            } else if fuel == 0 {
                EOut::Fail { st, e: GErr::ResourceExhausted }
            } else {
                let callee_env = st.frames.len() as int;
                let st1 = GState {
                    frames: st.frames.push(
                        GFrame { vars: bind_params(params, args), parent: Some(closure) },
                    ),
                    ..st
                };
                match s_exec_stmts(st1, callee_env, body, (fuel - 1) as nat, log) {
                    SOut::Norm { st: st2 } => EOut::Val { st: st2, v: GVal::Nil },
                    SOut::Ret { st: st2, v } => EOut::Val { st: st2, v },
                    SOut::Fail { st: st2, e } => EOut::Fail { st: st2, e },
                }
            }
        },
        GVal::Native { name, arity } => {
            if arity != args.len() as int {
                EOut::Fail {
                    st,
                    e: GErr::ArityMismatch { expected: arity, got: args.len() as int, line },
                }
            } else {
                let v = if 0 <= st.used < log.len() {
                    log[st.used]
                } else {
                    GVal::Nil
                };
                EOut::Val { st: GState { used: st.used + 1, ..st }, v }
            }
        },
        _ => EOut::Fail { st, e: GErr::NotCallable { line } },
    }
}

/// Executes one statement.
pub open spec fn s_exec(st: GState, env: int, s: Stmt, fuel: nat, log: Seq<GVal>) -> SOut
    decreases fuel, stmt_size(s), 1nat,
{
    match s {
        Stmt::Expression { expression } => match s_eval(st, env, expression, fuel, log) {
            EOut::Val { st: st1, v } => SOut::Norm { st: st1 },
            EOut::Fail { st: st1, e } => SOut::Fail { st: st1, e },
        },
        Stmt::Print { expression } => match s_eval(st, env, expression, fuel, log) {
            EOut::Val { st: st1, v } => SOut::Norm {
                st: GState { output: st1.output.push(val_display(v)), ..st1 },
            },
            EOut::Fail { st: st1, e } => SOut::Fail { st: st1, e },
        },
        Stmt::Var { name, initializer } => match initializer {
            Some(init) => match s_eval(st, env, init, fuel, log) {
                EOut::Val { st: st1, v } => SOut::Norm {
                    st: st_define(st1, env, name.lexeme@, v),
                },
                EOut::Fail { st: st1, e } => SOut::Fail { st: st1, e },
            },
            None => SOut::Norm { st: st_define(st, env, name.lexeme@, GVal::Nil) },
        },
        Stmt::Block { statements } => s_exec_stmts(
            st_push(st, env),
            st.frames.len() as int,
            statements@,
            fuel,
            log,
        ),
        Stmt::If { condition, then_branch, else_branch } => match s_eval(
            st,
            env,
            condition,
            fuel,
            log,
        ) {
            EOut::Val { st: st1, v } => {
                if truthy(v) {
                    s_exec(st1, env, *then_branch, fuel, log)
                } else {
                    match else_branch {
                        Some(els) => s_exec(st1, env, *els, fuel, log),
                        None => SOut::Norm { st: st1 },
                    }
                }
            },
            EOut::Fail { st: st1, e } => SOut::Fail { st: st1, e },
        },
        Stmt::While { condition, body } => {
            if fuel == 0 {
                SOut::Fail { st, e: GErr::ResourceExhausted }
            } else {
                match s_eval(st, env, condition, fuel, log) {
                    EOut::Val { st: st1, v } => {
                        if !truthy(v) {
                            SOut::Norm { st: st1 }
                        } else {
                            match s_exec(st1, env, *body, fuel, log) {
                                SOut::Norm { st: st2 } => s_exec(
                                    st2,
                                    env,
                                    Stmt::While { condition, body },
                                    (fuel - 1) as nat,
                                    log,
                                ),
                                SOut::Ret { st: st2, v: rv } => SOut::Ret { st: st2, v: rv },
                                SOut::Fail { st: st2, e } => SOut::Fail { st: st2, e },
                            }
                        }
                    },
                    EOut::Fail { st: st1, e } => SOut::Fail { st: st1, e },
                }
            }
        },
        Stmt::Function { decl } => SOut::Norm {
            st: st_define(
                st,
                env,
                (*decl).name.lexeme@,
                GVal::Fun {
                    name: (*decl).name.lexeme@,
                    params: (*decl).params@.map_values(|t: Token| t.lexeme@),
                    body: (*decl).body@,
                    closure: env,
                },
            ),
        },
        Stmt::Return { keyword, value } => match value {
            Some(e) => match s_eval(st, env, e, fuel, log) {
                EOut::Val { st: st1, v } => SOut::Ret { st: st1, v },
                EOut::Fail { st: st1, e: er } => SOut::Fail { st: st1, e: er },
            },
            None => SOut::Ret { st, v: GVal::Nil },
        },
    }
}

/// Executes a statement sequence in order, stopping at the first return
/// signal or failure.
pub open spec fn s_exec_stmts(
    st: GState,
    env: int,
    ss: Seq<Stmt>,
    fuel: nat,
    log: Seq<GVal>,
) -> SOut
    decreases fuel, stmts_size(ss), 0nat,
{
    if ss.len() == 0 {
        SOut::Norm { st }
    } else {
        match s_exec(st, env, ss[0], fuel, log) {
            SOut::Norm { st: st1 } => s_exec_stmts(
                st1,
                env,
                ss.subrange(1, ss.len() as int),
                fuel,
                log,
            ),
            SOut::Ret { st: st1, v } => SOut::Ret { st: st1, v },
            SOut::Fail { st: st1, e } => SOut::Fail { st: st1, e },
        }
    }
}

/// Characterises being a prefix by length and pointwise agreement, so
/// that reflexivity and transitivity of the prefix order come for free
/// wherever the interpreter chains sub-evaluations.
pub broadcast proof fn lemma_prefix_char(a: Seq<GVal>, b: Seq<GVal>)
    ensures
        #![trigger a.is_prefix_of(b)]
        a.is_prefix_of(b) <==> (a.len() <= b.len() && (forall|i: int|
            0 <= i < a.len() ==> a[i] == b[i])),
{
    if a.len() <= b.len() && (forall|i: int| 0 <= i < a.len() ==> a[i] == b[i]) {
        assert(a =~= b.subrange(0, a.len() as int));
    }
    if a.is_prefix_of(b) {
        assert forall|i: int| 0 <= i < a.len() implies a[i] == b[i] by {
            assert(a[i] == b.subrange(0, a.len() as int)[i]);
        }
    }
}

/// Short-circuit evaluation: when the left operand of `and` is falsy, or
/// the left operand of `or` is truthy, the whole logical expression is
/// exactly the left operand's outcome — the right operand is never
/// evaluated, so no effect of it (output, assignment, native call) can
/// occur.  A failing left operand likewise decides the outcome alone.
pub proof fn lemma_logical_short_circuit(
    st: GState,
    env: int,
    left: Expr,
    op: Token,
    right: Expr,
    fuel: nat,
    log: Seq<GVal>,
)
    requires
        op.token_type == TokenType::And || op.token_type == TokenType::Or,
    ensures
        match s_eval(st, env, left, fuel, log) {
            EOut::Val { st: st1, v } => (if op.token_type == TokenType::And {
                !truthy(v)
            } else {
                truthy(v)
            }) ==> s_eval(
                st,
                env,
                Expr::Logical { left: Box::new(left), operator: op, right: Box::new(right) },
                fuel,
                log,
            ) == EOut::Val { st: st1, v },
            EOut::Fail { st: st1, e } => s_eval(
                st,
                env,
                Expr::Logical { left: Box::new(left), operator: op, right: Box::new(right) },
                fuel,
                log,
            ) == EOut::Fail { st: st1, e },
        },
{
}

/// Equality is total: `==` and `!=` never fail, never touch the state,
/// and decide exactly `val_eq`, whatever the operands are — including
/// operands of different kinds, which simply compare unequal.
pub proof fn lemma_equality_total(st: GState, op: Token, l: GVal, r: GVal)
    requires
        op.token_type == TokenType::EqualEqual || op.token_type == TokenType::BangEqual,
    ensures
        s_binop(st, op, l, r) == (EOut::Val {
            st,
            v: GVal::Bool(
                if op.token_type == TokenType::EqualEqual {
                    val_eq(l, r)
                } else {
                    !val_eq(l, r)
                },
            ),
        }),
{
}

} // verus!
