//! The scoping claim: a program whose every name reference is declared
//! in an enclosing scope before it is evaluated never fails with
//! `UndefinedVariable`.
//!
//! `stmts_closed` is the static check, stated against the chain of
//! declared-name sets (`dom_ctx`) seen from a scope; the theorem at the
//! end carries it through the big-step semantics: declarations extend
//! the sets, blocks and calls push fresh ones, and a closure's body was
//! checked against the very chain its captured scope still reaches.
//! Combined with `interpret`'s contract, which equates a run with
//! `s_exec_stmts` from the fresh interpreter's state (scoped, by
//! `lemma_initial_state_scoped`), this is the crate-level guarantee
//! that a well-scoped program never reports an undefined variable.
use vstd::prelude::*;

use crate::environment::GFrame;
use crate::environment::frames_wf;
use crate::environment::s_resolve;
use crate::expr::Expr;
use crate::expr::expr_size;
use crate::expr::exprs_size;
use crate::stmt::Stmt;
use crate::stmt::stmt_size;
use crate::stmt::stmts_size;
use crate::token::GVal;
use crate::semantics::EOut;
use crate::semantics::GState;
use crate::semantics::LOut;
use crate::semantics::SOut;
use crate::semantics::bind_params;
use crate::semantics::s_call;
use crate::semantics::s_eval;
use crate::semantics::s_eval_list;
use crate::semantics::s_exec;
use crate::semantics::s_exec_stmts;

verus! {

/// A chain of declared-name sets, outermost first.
pub open spec fn ctx_has(ctx: Seq<Set<Seq<char>>>, n: Seq<char>) -> bool
    decreases ctx.len(),
{
    if ctx.len() == 0 {
        false
    } else {
        ctx[ctx.len() - 1].contains(n) || ctx_has(ctx.subrange(0, ctx.len() - 1), n)
    }
}

/// The actual declared-name chain seen from scope `env`: the domains of
/// the frames along the parent chain, outermost first.
pub open spec fn dom_ctx(frames: Seq<GFrame>, env: int) -> Seq<Set<Seq<char>>>
    decreases (if env >= 0 { env } else { 0 }),
{
    if !(0 <= env < frames.len()) {
        Seq::empty()
    } else {
        match frames[env].parent {
            Some(p) => if 0 <= p < env {
                dom_ctx(frames, p).push(frames[env].vars.dom())
            } else {
                seq![frames[env].vars.dom()]
            },
            None => seq![frames[env].vars.dom()],
        }
    }
}

/// One chain of name-sets is pointwise contained in another of the same
/// length.
pub open spec fn ctx_leq(c1: Seq<Set<Seq<char>>>, c2: Seq<Set<Seq<char>>>) -> bool {
    c1.len() == c2.len() && forall|i: int, n: Seq<char>|
        0 <= i < c1.len() && #[trigger] c1[i].contains(n) ==> c2[i].contains(n)
}

/// The names a parameter list binds.
pub open spec fn params_set(ps: Seq<Seq<char>>) -> Set<Seq<char>>
    decreases ps.len(),
{
    if ps.len() == 0 {
        Set::empty()
    } else {
        params_set(ps.subrange(0, ps.len() - 1)).insert(ps[ps.len() - 1])
    }
}

/// Adds a declared name to the innermost set of a chain.
pub open spec fn ctx_bind(ctx: Seq<Set<Seq<char>>>, n: Seq<char>) -> Seq<Set<Seq<char>>> {
    if ctx.len() == 0 {
        ctx
    } else {
        ctx.update(ctx.len() - 1, ctx[ctx.len() - 1].insert(n))
    }
}

/// Every name the expression reads or assigns is declared in the chain.
pub open spec fn expr_closed(ctx: Seq<Set<Seq<char>>>, e: Expr) -> bool
    decreases expr_size(e), 0nat,
{
    match e {
        Expr::Literal { value } => true,
        Expr::Grouping { expression } => expr_closed(ctx, *expression),
        Expr::Unary { operator, right } => expr_closed(ctx, *right),
        Expr::Binary { left, operator, right } => expr_closed(ctx, *left) && expr_closed(
            ctx,
            *right,
        ),
        Expr::Logical { left, operator, right } => expr_closed(ctx, *left) && expr_closed(
            ctx,
            *right,
        ),
        Expr::Variable { name } => ctx_has(ctx, name.lexeme@),
        Expr::Assign { name, value } => ctx_has(ctx, name.lexeme@) && expr_closed(ctx, *value),
        Expr::Call { callee, paren, arguments } => expr_closed(ctx, *callee) && exprs_closed(
            ctx,
            arguments@,
        ),
    }
}

/// Every expression of the list is closed.
pub open spec fn exprs_closed(ctx: Seq<Set<Seq<char>>>, es: Seq<Expr>) -> bool
    decreases exprs_size(es), 1nat,
{
    if es.len() == 0 {
        true
    } else {
        expr_closed(ctx, es[0]) && exprs_closed(ctx, es.subrange(1, es.len() as int))
    }
}

/// Every name the statement evaluates is declared by then.  A `var`
/// checks its initializer before its own name counts as declared; a
/// block opens a fresh innermost set; a function's name is visible to
/// its own body (recursion), whose scope adds the parameters; a name
/// declared inside an `if` or `while` branch is conservatively not
/// counted as declared after it.
pub open spec fn stmt_closed(ctx: Seq<Set<Seq<char>>>, s: Stmt) -> bool
    decreases stmt_size(s), 0nat,
{
    match s {
        Stmt::Expression { expression } => expr_closed(ctx, expression),
        Stmt::Print { expression } => expr_closed(ctx, expression),
        Stmt::Var { name, initializer } => match initializer {
            Some(init) => expr_closed(ctx, init),
            None => true,
        },
        Stmt::Block { statements } => stmts_closed(ctx.push(Set::empty()), statements@),
        Stmt::If { condition, then_branch, else_branch } => expr_closed(ctx, condition)
            && stmt_closed(ctx, *then_branch) && (match else_branch {
            Some(els) => stmt_closed(ctx, *els),
            None => true,
        }),
        Stmt::While { condition, body } => expr_closed(ctx, condition) && stmt_closed(ctx, *body),
        Stmt::Function { decl } => stmts_closed(
            ctx_bind(ctx, (*decl).name.lexeme@).push(
                params_set((*decl).params@.map_values(|t: crate::token::Token| t.lexeme@)),
            ),
            (*decl).body@,
        ),
        Stmt::Return { keyword, value } => match value {
            Some(e) => expr_closed(ctx, e),
            None => true,
        },
    }
}

/// The names a statement has declared in the current scope once it
/// completes.
pub open spec fn ctx_after(ctx: Seq<Set<Seq<char>>>, s: Stmt) -> Seq<Set<Seq<char>>> {
    match s {
        Stmt::Var { name, initializer } => ctx_bind(ctx, name.lexeme@),
        Stmt::Function { decl } => ctx_bind(ctx, (*decl).name.lexeme@),
        _ => ctx,
    }
}

/// A statement sequence is closed when each statement is closed in the
/// chain as extended by those before it.
pub open spec fn stmts_closed(ctx: Seq<Set<Seq<char>>>, ss: Seq<Stmt>) -> bool
    decreases stmts_size(ss), 1nat,
{
    if ss.len() == 0 {
        true
    } else {
        stmt_closed(ctx, ss[0]) && stmts_closed(ctx_after(ctx, ss[0]), ss.subrange(1, ss.len() as int))
    }
}

/// A declared name in the chain seen from `env` resolves from `env`.
pub proof fn lemma_ctx_has_resolves(frames: Seq<GFrame>, env: int, n: Seq<char>)
    requires
        ctx_has(dom_ctx(frames, env), n),
    ensures
        s_resolve(frames, env, n) is Some,
    decreases (if env >= 0 { env } else { 0 }),
{
    let ctx = dom_ctx(frames, env);
    if 0 <= env < frames.len() {
        if frames[env].vars.contains_key(n) {
            assert(s_resolve(frames, env, n) == Some(env));
        } else {
            assert(!frames[env].vars.dom().contains(n));
            assert(ctx.len() >= 1 && ctx[ctx.len() - 1] == frames[env].vars.dom());
            assert(ctx_has(ctx.subrange(0, ctx.len() - 1), n));
            match frames[env].parent {
                Some(p) => {
                    if 0 <= p < env {
                        assert(ctx.subrange(0, ctx.len() - 1) =~= dom_ctx(frames, p));
                        lemma_ctx_has_resolves(frames, p, n);
                        assert(s_resolve(frames, env, n) == s_resolve(frames, p, n));
                    } else {
                        assert(ctx.subrange(0, ctx.len() - 1) =~= Seq::<Set<Seq<char>>>::empty());
                        assert(false);
                    }
                },
                None => {
                    assert(ctx.subrange(0, ctx.len() - 1) =~= Seq::<Set<Seq<char>>>::empty());
                    assert(false);
                },
            }
        }
    } else {
        assert(ctx =~= Seq::<Set<Seq<char>>>::empty());
        assert(false);
    }
}

/// One arena extends another: same length or longer, the shared prefix
/// keeps every parent link and loses no binding.  Every state change of
/// the semantics — defining, assigning, opening a scope — extends.
pub open spec fn frames_extend(f1: Seq<GFrame>, f2: Seq<GFrame>) -> bool {
    &&& f1.len() <= f2.len()
    &&& forall|i: int| 0 <= i < f1.len() ==> (#[trigger] f2[i]).parent == f1[i].parent
    &&& forall|i: int, n: Seq<char>|
        0 <= i < f1.len() && #[trigger] f1[i].vars.contains_key(n) ==> f2[i].vars.contains_key(n)
}

/// Extension carries the declared-name chain pointwise.
pub proof fn lemma_dom_ctx_extend(f1: Seq<GFrame>, f2: Seq<GFrame>, env: int)
    requires
        frames_extend(f1, f2),
        0 <= env < f1.len(),
    ensures
        ctx_leq(dom_ctx(f1, env), dom_ctx(f2, env)),
    decreases env,
{
    assert(f2[env].parent == f1[env].parent);
    match f1[env].parent {
        Some(p) => {
            if 0 <= p < env {
                lemma_dom_ctx_extend(f1, f2, p);
            }
        },
        None => {},
    }
}

/// Appending a frame leaves the chain of every existing scope as it
/// was.
pub proof fn lemma_dom_ctx_push(frames: Seq<GFrame>, f: GFrame, env: int)
    requires
        0 <= env < frames.len(),
    ensures
        dom_ctx(frames.push(f), env) == dom_ctx(frames, env),
    decreases env,
{
    let pushed = frames.push(f);
    assert(pushed[env] == frames[env]);
    match frames[env].parent {
        Some(p) => {
            if 0 <= p < env {
                lemma_dom_ctx_push(frames, f, p);
            }
        },
        None => {},
    }
}

/// Binding a name in a scope's own frame turns its chain into exactly
/// the bound chain; other frames' chains it can only widen.
pub proof fn lemma_dom_ctx_define(frames: Seq<GFrame>, env: int, n: Seq<char>, v: GVal)
    requires
        0 <= env < frames.len(),
    ensures
        ctx_leq(
            ctx_bind(dom_ctx(frames, env), n),
            dom_ctx(
                frames.update(
                    env,
                    GFrame { vars: frames[env].vars.insert(n, v), parent: frames[env].parent },
                ),
                env,
            ),
        ),
    decreases env,
{
    let updated = frames.update(
        env,
        GFrame { vars: frames[env].vars.insert(n, v), parent: frames[env].parent },
    );
    assert(frames_extend(frames, updated));
    match frames[env].parent {
        Some(p) => {
            if 0 <= p < env {
                lemma_dom_ctx_extend(frames, updated, p);
            }
        },
        None => {},
    }
}

/// A declared name stays declared in any pointwise-wider chain.
pub proof fn lemma_ctx_has_leq(c1: Seq<Set<Seq<char>>>, c2: Seq<Set<Seq<char>>>, n: Seq<char>)
    requires
        ctx_leq(c1, c2),
        ctx_has(c1, n),
    ensures
        ctx_has(c2, n),
    decreases c1.len(),
{
    if c1.len() > 0 {
        if c1[c1.len() - 1].contains(n) {
        } else {
            assert(ctx_leq(c1.subrange(0, c1.len() - 1), c2.subrange(0, c2.len() - 1)));
            lemma_ctx_has_leq(c1.subrange(0, c1.len() - 1), c2.subrange(0, c2.len() - 1), n);
        }
    }
}

/// Closedness of an expression survives widening the chain.
pub proof fn lemma_expr_closed_leq(c1: Seq<Set<Seq<char>>>, c2: Seq<Set<Seq<char>>>, e: Expr)
    requires
        ctx_leq(c1, c2),
        expr_closed(c1, e),
    ensures
        expr_closed(c2, e),
    decreases expr_size(e), 0nat,
{
    match e {
        Expr::Literal { value } => {},
        Expr::Grouping { expression } => {
            lemma_expr_closed_leq(c1, c2, *expression);
        },
        Expr::Unary { operator, right } => {
            lemma_expr_closed_leq(c1, c2, *right);
        },
        Expr::Binary { left, operator, right } => {
            lemma_expr_closed_leq(c1, c2, *left);
            lemma_expr_closed_leq(c1, c2, *right);
        },
        Expr::Logical { left, operator, right } => {
            lemma_expr_closed_leq(c1, c2, *left);
            lemma_expr_closed_leq(c1, c2, *right);
        },
        Expr::Variable { name } => {
            lemma_ctx_has_leq(c1, c2, name.lexeme@);
        },
        Expr::Assign { name, value } => {
            lemma_ctx_has_leq(c1, c2, name.lexeme@);
            lemma_expr_closed_leq(c1, c2, *value);
        },
        Expr::Call { callee, paren, arguments } => {
            lemma_expr_closed_leq(c1, c2, *callee);
            lemma_exprs_closed_leq(c1, c2, arguments@);
        },
    }
}

/// Closedness of an expression list survives widening the chain.
pub proof fn lemma_exprs_closed_leq(c1: Seq<Set<Seq<char>>>, c2: Seq<Set<Seq<char>>>, es: Seq<Expr>)
    requires
        ctx_leq(c1, c2),
        exprs_closed(c1, es),
    ensures
        exprs_closed(c2, es),
    decreases exprs_size(es), 1nat,
{
    if es.len() > 0 {
        lemma_expr_closed_leq(c1, c2, es[0]);
        lemma_exprs_closed_leq(c1, c2, es.subrange(1, es.len() as int));
    }
}

/// Closedness of a statement survives widening the chain.
pub proof fn lemma_stmt_closed_leq(c1: Seq<Set<Seq<char>>>, c2: Seq<Set<Seq<char>>>, s: Stmt)
    requires
        ctx_leq(c1, c2),
        stmt_closed(c1, s),
    ensures
        stmt_closed(c2, s),
    decreases stmt_size(s), 0nat,
{
    match s {
        Stmt::Expression { expression } => {
            lemma_expr_closed_leq(c1, c2, expression);
        },
        Stmt::Print { expression } => {
            lemma_expr_closed_leq(c1, c2, expression);
        },
        Stmt::Var { name, initializer } => {
            match initializer {
                Some(init) => {
                    lemma_expr_closed_leq(c1, c2, init);
                },
                None => {},
            }
        },
        Stmt::Block { statements } => {
            assert(ctx_leq(c1.push(Set::empty()), c2.push(Set::empty())));
            lemma_stmts_closed_leq(c1.push(Set::empty()), c2.push(Set::empty()), statements@);
        },
        Stmt::If { condition, then_branch, else_branch } => {
            lemma_expr_closed_leq(c1, c2, condition);
            lemma_stmt_closed_leq(c1, c2, *then_branch);
            match else_branch {
                Some(els) => {
                    lemma_stmt_closed_leq(c1, c2, *els);
                },
                None => {},
            }
        },
        Stmt::While { condition, body } => {
            lemma_expr_closed_leq(c1, c2, condition);
            lemma_stmt_closed_leq(c1, c2, *body);
        },
        Stmt::Function { decl } => {
            let ps = params_set((*decl).params@.map_values(|t: crate::token::Token| t.lexeme@));
            assert(ctx_leq(
                ctx_bind(c1, (*decl).name.lexeme@).push(ps),
                ctx_bind(c2, (*decl).name.lexeme@).push(ps),
            ));
            lemma_stmts_closed_leq(
                ctx_bind(c1, (*decl).name.lexeme@).push(ps),
                ctx_bind(c2, (*decl).name.lexeme@).push(ps),
                (*decl).body@,
            );
        },
        Stmt::Return { keyword, value } => {
            match value {
                Some(e) => {
                    lemma_expr_closed_leq(c1, c2, e);
                },
                None => {},
            }
        },
    }
}

/// Closedness of a statement sequence survives widening the chain.
pub proof fn lemma_stmts_closed_leq(c1: Seq<Set<Seq<char>>>, c2: Seq<Set<Seq<char>>>, ss: Seq<Stmt>)
    requires
        ctx_leq(c1, c2),
        stmts_closed(c1, ss),
    ensures
        stmts_closed(c2, ss),
    decreases stmts_size(ss), 1nat,
{
    if ss.len() > 0 {
        lemma_stmt_closed_leq(c1, c2, ss[0]);
        assert(ctx_leq(ctx_after(c1, ss[0]), ctx_after(c2, ss[0])));
        lemma_stmts_closed_leq(ctx_after(c1, ss[0]), ctx_after(c2, ss[0]), ss.subrange(1, ss.len() as int));
    }
}

/// A value is scoped for an arena: a closure captures an existing
/// scope and its body is closed in the chain seen from that scope,
/// with the parameters added; every plain value and native is scoped.
pub open spec fn gval_scoped(frames: Seq<GFrame>, v: GVal) -> bool {
    match v {
        GVal::Fun { name, params, body, closure } => 0 <= closure < frames.len() && stmts_closed(
            dom_ctx(frames, closure).push(params_set(params)),
            body,
        ),
        _ => true,
    }
}

/// Every value bound anywhere in the arena is scoped.
pub open spec fn frames_scoped(frames: Seq<GFrame>) -> bool {
    forall|i: int, k: Seq<char>|
        0 <= i < frames.len() && #[trigger] frames[i].vars.contains_key(k) ==> gval_scoped(
            frames,
            frames[i].vars[k],
        )
}

/// Every value of a list is scoped.
pub open spec fn vals_scoped(frames: Seq<GFrame>, vs: Seq<GVal>) -> bool {
    forall|j: int| 0 <= j < vs.len() ==> gval_scoped(frames, #[trigger] vs[j])
}

/// A sequence of native results that could only have come from a host:
/// plain values, never closures.
pub open spec fn plain_log(log: Seq<GVal>) -> bool {
    forall|k: int| 0 <= k < log.len() ==> !((#[trigger] log[k]) is Fun)
}

/// A scoped value stays scoped in any extension of the arena.
pub proof fn lemma_gval_scoped_extend(f1: Seq<GFrame>, f2: Seq<GFrame>, v: GVal)
    requires
        frames_extend(f1, f2),
        gval_scoped(f1, v),
    ensures
        gval_scoped(f2, v),
{
    match v {
        GVal::Fun { name, params, body, closure } => {
            lemma_dom_ctx_extend(f1, f2, closure);
            let ps = params_set(params);
            assert(ctx_leq(dom_ctx(f1, closure).push(ps), dom_ctx(f2, closure).push(ps)));
            lemma_stmts_closed_leq(
                dom_ctx(f1, closure).push(ps),
                dom_ctx(f2, closure).push(ps),
                body,
            );
        },
        _ => {},
    }
}

/// Binding a value that is scoped for the resulting arena (so a
/// function may refer to its own fresh name) keeps the arena scoped.
pub proof fn lemma_frames_scoped_define(frames: Seq<GFrame>, i: int, n: Seq<char>, v: GVal)
    requires
        frames_scoped(frames),
        0 <= i < frames.len(),
        gval_scoped(
            frames.update(
                i,
                GFrame { vars: frames[i].vars.insert(n, v), parent: frames[i].parent },
            ),
            v,
        ),
    ensures
        frames_scoped(
            frames.update(
                i,
                GFrame { vars: frames[i].vars.insert(n, v), parent: frames[i].parent },
            ),
        ),
{
    let updated = frames.update(
        i,
        GFrame { vars: frames[i].vars.insert(n, v), parent: frames[i].parent },
    );
    assert(frames_extend(frames, updated));
    assert forall|j: int, k: Seq<char>|
        0 <= j < updated.len() && #[trigger] updated[j].vars.contains_key(k) implies gval_scoped(
        updated,
        updated[j].vars[k],
    ) by {
        if j == i && k == n {
        } else {
            assert(frames[j].vars.contains_key(k));
            assert(updated[j].vars[k] == frames[j].vars[k]);
            lemma_gval_scoped_extend(frames, updated, frames[j].vars[k]);
        }
    }
}

/// Opening a scope whose bindings are scoped keeps the arena scoped.
pub proof fn lemma_frames_scoped_push(frames: Seq<GFrame>, f: GFrame)
    requires
        frames_scoped(frames),
        forall|k: Seq<char>| #[trigger] f.vars.contains_key(k) ==> gval_scoped(frames, f.vars[k]),
    ensures
        frames_scoped(frames.push(f)),
{
    let pushed = frames.push(f);
    assert(frames_extend(frames, pushed));
    assert forall|j: int, k: Seq<char>|
        0 <= j < pushed.len() && #[trigger] pushed[j].vars.contains_key(k) implies gval_scoped(
        pushed,
        pushed[j].vars[k],
    ) by {
        if j < frames.len() {
            assert(pushed[j] == frames[j]);
            assert(frames[j].vars.contains_key(k));
            lemma_gval_scoped_extend(frames, pushed, frames[j].vars[k]);
        } else {
            assert(pushed[j] == f);
            lemma_gval_scoped_extend(frames, pushed, f.vars[k]);
        }
    }
}

/// The frame a call binds covers the parameter names, and binds only
/// values drawn from the argument list.
pub proof fn lemma_bind_params_scoped(
    frames: Seq<GFrame>,
    params: Seq<Seq<char>>,
    args: Seq<GVal>,
)
    requires
        vals_scoped(frames, args),
        params.len() <= args.len(),
    ensures
        forall|n: Seq<char>| params_set(params).contains(n) ==> crate::semantics::bind_params(
            params,
            args,
        ).dom().contains(n),
        forall|k: Seq<char>|
            #[trigger] crate::semantics::bind_params(params, args).dom().contains(k)
                ==> gval_scoped(frames, crate::semantics::bind_params(params, args)[k]),
    decreases params.len(),
{
    if params.len() > 0 {
        lemma_bind_params_scoped(frames, params.subrange(0, params.len() - 1), args);
        assert forall|n: Seq<char>| params_set(params).contains(n) implies crate::semantics::bind_params(
            params,
            args,
        ).dom().contains(n) by {
            if n != params[params.len() - 1] {
                assert(params_set(params.subrange(0, params.len() - 1)).contains(n));
            }
        }
        assert forall|k: Seq<char>|
            #[trigger] crate::semantics::bind_params(params, args).dom().contains(k) implies gval_scoped(
            frames,
            crate::semantics::bind_params(params, args)[k],
        ) by {
            if k != params[params.len() - 1] {
                assert(crate::semantics::bind_params(params.subrange(0, params.len() - 1), args).dom().contains(k));
            } else {
                assert(crate::semantics::bind_params(params, args)[k] == args[params.len() - 1]);
                assert(gval_scoped(frames, args[params.len() - 1]));
            }
        }
    }
}

/// Carries an expression's closedness across an arena extension.
proof fn lemma_transport_expr(f1: Seq<GFrame>, f2: Seq<GFrame>, env: int, e: Expr)
    requires
        frames_extend(f1, f2),
        0 <= env < f1.len(),
        expr_closed(dom_ctx(f1, env), e),
    ensures
        expr_closed(dom_ctx(f2, env), e),
{
    lemma_dom_ctx_extend(f1, f2, env);
    lemma_expr_closed_leq(dom_ctx(f1, env), dom_ctx(f2, env), e);
}

/// Carries an expression list's closedness across an arena extension.
proof fn lemma_transport_exprs(f1: Seq<GFrame>, f2: Seq<GFrame>, env: int, es: Seq<Expr>)
    requires
        frames_extend(f1, f2),
        0 <= env < f1.len(),
        exprs_closed(dom_ctx(f1, env), es),
    ensures
        exprs_closed(dom_ctx(f2, env), es),
{
    lemma_dom_ctx_extend(f1, f2, env);
    lemma_exprs_closed_leq(dom_ctx(f1, env), dom_ctx(f2, env), es);
}

/// Carries a statement's closedness across an arena extension.
proof fn lemma_transport_stmt(f1: Seq<GFrame>, f2: Seq<GFrame>, env: int, s: Stmt)
    requires
        frames_extend(f1, f2),
        0 <= env < f1.len(),
        stmt_closed(dom_ctx(f1, env), s),
    ensures
        stmt_closed(dom_ctx(f2, env), s),
{
    lemma_dom_ctx_extend(f1, f2, env);
    lemma_stmt_closed_leq(dom_ctx(f1, env), dom_ctx(f2, env), s);
}

/// Evaluating a closed expression in a scoped state never fails with
/// `UndefinedVariable`, and a produced value is scoped in the extended
/// state.
pub proof fn lemma_eval_no_undefined(st: GState, env: int, e: Expr, fuel: nat, log: Seq<GVal>)
    requires
        frames_scoped(st.frames),
        0 <= env < st.frames.len(),
        expr_closed(dom_ctx(st.frames, env), e),
        plain_log(log),
    ensures
        match s_eval(st, env, e, fuel, log) {
            EOut::Fail { st: st1, e: er } => !(er is UndefinedVariable),
            EOut::Val { st: st1, v } => frames_extend(st.frames, st1.frames) && frames_scoped(
                st1.frames,
            ) && gval_scoped(st1.frames, v),
        },
    decreases fuel, expr_size(e), 0nat,
{
    match e {
        Expr::Literal { value } => {
            assert(frames_extend(st.frames, st.frames));
        },
        Expr::Grouping { expression } => {
            lemma_eval_no_undefined(st, env, *expression, fuel, log);
        },
        Expr::Variable { name } => {
            lemma_ctx_has_resolves(st.frames, env, name.lexeme@);
            crate::environment::lemma_resolve_in_range(st.frames, env, name.lexeme@);
            crate::environment::lemma_resolve_found(st.frames, env, name.lexeme@);
            assert(frames_extend(st.frames, st.frames));
        },
        Expr::Assign { name, value } => {
            lemma_eval_no_undefined(st, env, *value, fuel, log);
            match s_eval(st, env, *value, fuel, log) {
                EOut::Val { st: st1, v } => {
                    lemma_dom_ctx_extend(st.frames, st1.frames, env);
                    lemma_ctx_has_leq(dom_ctx(st.frames, env), dom_ctx(st1.frames, env), name.lexeme@);
                    lemma_ctx_has_resolves(st1.frames, env, name.lexeme@);
                    crate::environment::lemma_resolve_in_range(st1.frames, env, name.lexeme@);
                    match crate::environment::s_resolve(st1.frames, env, name.lexeme@) {
                        Some(i) => {
                            let updated = st1.frames.update(
                                i,
                                GFrame {
                                    vars: st1.frames[i].vars.insert(name.lexeme@, v),
                                    parent: st1.frames[i].parent,
                                },
                            );
                            assert(frames_extend(st1.frames, updated));
                            lemma_gval_scoped_extend(st1.frames, updated, v);
                            lemma_frames_scoped_define(st1.frames, i, name.lexeme@, v);
                            assert(frames_extend(st.frames, updated));
                        },
                        None => {},
                    }
                },
                EOut::Fail { st: st1, e: er } => {},
            }
        },
        Expr::Unary { operator, right } => {
            lemma_eval_no_undefined(st, env, *right, fuel, log);
        },
        Expr::Binary { left, operator, right } => {
            lemma_eval_no_undefined(st, env, *left, fuel, log);
            match s_eval(st, env, *left, fuel, log) {
                EOut::Val { st: st1, v: lv } => {
                    lemma_transport_expr(st.frames, st1.frames, env, *right);
                    lemma_eval_no_undefined(st1, env, *right, fuel, log);
                    match s_eval(st1, env, *right, fuel, log) {
                        EOut::Val { st: st2, v: rv } => {
                            assert(frames_extend(st.frames, st2.frames));
                        },
                        EOut::Fail { st: st2, e: er } => {},
                    }
                },
                EOut::Fail { st: st1, e: er } => {},
            }
        },
        Expr::Logical { left, operator, right } => {
            lemma_eval_no_undefined(st, env, *left, fuel, log);
            match s_eval(st, env, *left, fuel, log) {
                EOut::Val { st: st1, v: lv } => {
                    lemma_transport_expr(st.frames, st1.frames, env, *right);
                    lemma_eval_no_undefined(st1, env, *right, fuel, log);
                    match s_eval(st1, env, *right, fuel, log) {
                        EOut::Val { st: st2, v: rv } => {
                            assert(frames_extend(st.frames, st2.frames));
                        },
                        EOut::Fail { st: st2, e: er } => {},
                    }
                },
                EOut::Fail { st: st1, e: er } => {},
            }
        },
        Expr::Call { callee, paren, arguments } => {
            lemma_eval_no_undefined(st, env, *callee, fuel, log);
            match s_eval(st, env, *callee, fuel, log) {
                EOut::Val { st: st1, v: cv } => {
                    lemma_transport_exprs(st.frames, st1.frames, env, arguments@);
                    lemma_eval_list_no_undefined(st1, env, arguments@, fuel, log);
                    match s_eval_list(st1, env, arguments@, fuel, log) {
                        LOut::Vals { st: st2, vs } => {
                            lemma_gval_scoped_extend(st1.frames, st2.frames, cv);
                            lemma_call_no_undefined(st2, cv, vs, paren.line as int, fuel, log);
                            match s_call(st2, cv, vs, paren.line as int, fuel, log) {
                                EOut::Val { st: st3, v } => {
                                    assert(frames_extend(st.frames, st3.frames));
                                },
                                EOut::Fail { st: st3, e: er } => {},
                            }
                        },
                        LOut::Fail { st: st2, e: er } => {},
                    }
                },
                EOut::Fail { st: st1, e: er } => {},
            }
        },
    }
}

/// Evaluating a closed argument list: never `UndefinedVariable`, every
/// produced value scoped.
pub proof fn lemma_eval_list_no_undefined(
    st: GState,
    env: int,
    es: Seq<Expr>,
    fuel: nat,
    log: Seq<GVal>,
)
    requires
        frames_scoped(st.frames),
        0 <= env < st.frames.len(),
        exprs_closed(dom_ctx(st.frames, env), es),
        plain_log(log),
    ensures
        match s_eval_list(st, env, es, fuel, log) {
            LOut::Fail { st: st1, e: er } => !(er is UndefinedVariable),
            LOut::Vals { st: st1, vs } => frames_extend(st.frames, st1.frames) && frames_scoped(
                st1.frames,
            ) && vals_scoped(st1.frames, vs),
        },
    decreases fuel, exprs_size(es), 0nat,
{
    if es.len() == 0 {
        assert(frames_extend(st.frames, st.frames));
    } else {
        lemma_eval_no_undefined(st, env, es[0], fuel, log);
        match s_eval(st, env, es[0], fuel, log) {
            EOut::Val { st: st1, v } => {
                lemma_transport_exprs(st.frames, st1.frames, env, es.subrange(1, es.len() as int));
                lemma_eval_list_no_undefined(st1, env, es.subrange(1, es.len() as int), fuel, log);
                match s_eval_list(st1, env, es.subrange(1, es.len() as int), fuel, log) {
                    LOut::Vals { st: st2, vs } => {
                        assert(frames_extend(st.frames, st2.frames));
                        lemma_gval_scoped_extend(st1.frames, st2.frames, v);
                        assert forall|j: int| 0 <= j < (seq![v] + vs).len() implies gval_scoped(
                            st2.frames,
                            #[trigger] (seq![v] + vs)[j],
                        ) by {
                            if j > 0 {
                                assert((seq![v] + vs)[j] == vs[j - 1]);
                            } else {
                                assert((seq![v] + vs)[0] == v);
                            }
                        }
                    },
                    LOut::Fail { st: st2, e: er } => {},
                }
            },
            EOut::Fail { st: st1, e: er } => {},
        }
    }
}

/// Calling a scoped callable on scoped arguments: never
/// `UndefinedVariable`, the result scoped.
pub proof fn lemma_call_no_undefined(
    st: GState,
    callee: GVal,
    args: Seq<GVal>,
    line: int,
    fuel: nat,
    log: Seq<GVal>,
)
    requires
        frames_scoped(st.frames),
        gval_scoped(st.frames, callee),
        vals_scoped(st.frames, args),
        plain_log(log),
    ensures
        match s_call(st, callee, args, line, fuel, log) {
            EOut::Fail { st: st1, e: er } => !(er is UndefinedVariable),
            EOut::Val { st: st1, v } => frames_extend(st.frames, st1.frames) && frames_scoped(
                st1.frames,
            ) && gval_scoped(st1.frames, v),
        },
    decreases fuel, 0nat, 0nat,
{
    match callee {
        GVal::Fun { name, params, body, closure } => {
            if params.len() == args.len() && fuel > 0 {
                let f = GFrame { vars: bind_params(params, args), parent: Some(closure) };
                let callee_env = st.frames.len() as int;
                let st1 = GState { frames: st.frames.push(f), ..st };
                lemma_bind_params_scoped(st.frames, params, args);
                assert forall|k: Seq<char>| #[trigger] f.vars.contains_key(k) implies gval_scoped(
                    st.frames,
                    f.vars[k],
                ) by {
                    assert(f.vars.dom().contains(k));
                }
                lemma_frames_scoped_push(st.frames, f);
                assert(frames_extend(st.frames, st1.frames));
                lemma_dom_ctx_push(st.frames, f, closure);
                assert(st1.frames[callee_env] == f);
                assert(dom_ctx(st1.frames, callee_env) == dom_ctx(st.frames, closure).push(
                    f.vars.dom(),
                ));
                assert(ctx_leq(
                    dom_ctx(st.frames, closure).push(params_set(params)),
                    dom_ctx(st1.frames, callee_env),
                )) by {
                    assert forall|i: int, n: Seq<char>|
                        0 <= i < dom_ctx(st.frames, closure).push(params_set(params)).len()
                            && #[trigger] dom_ctx(st.frames, closure).push(params_set(params))[i].contains(
                            n,
                        ) implies dom_ctx(st1.frames, callee_env)[i].contains(n) by {
                        if i == dom_ctx(st.frames, closure).len() {
                            assert(params_set(params).contains(n));
                            assert(bind_params(params, args).dom().contains(n));
                        }
                    }
                }
                lemma_stmts_closed_leq(
                    dom_ctx(st.frames, closure).push(params_set(params)),
                    dom_ctx(st1.frames, callee_env),
                    body,
                );
                lemma_exec_stmts_no_undefined(st1, callee_env, body, (fuel - 1) as nat, log);
                match s_exec_stmts(st1, callee_env, body, (fuel - 1) as nat, log) {
                    SOut::Norm { st: st2 } => {
                        assert(frames_extend(st.frames, st2.frames));
                    },
                    SOut::Ret { st: st2, v } => {
                        assert(frames_extend(st.frames, st2.frames));
                    },
                    SOut::Fail { st: st2, e: er } => {},
                }
            }
        },
        GVal::Native { name, arity } => {
            if arity == args.len() as int {
                assert(frames_extend(st.frames, st.frames));
                if 0 <= st.used < log.len() {
                    assert(!(log[st.used] is Fun));
                }
            }
        },
        _ => {},
    }
}

/// Executing a closed statement in a scoped state: never
/// `UndefinedVariable`; on completion the scope's declared names cover
/// the statically declared ones, and a return value is scoped.
pub proof fn lemma_exec_no_undefined(st: GState, env: int, s: Stmt, fuel: nat, log: Seq<GVal>)
    requires
        frames_scoped(st.frames),
        0 <= env < st.frames.len(),
        stmt_closed(dom_ctx(st.frames, env), s),
        plain_log(log),
    ensures
        match s_exec(st, env, s, fuel, log) {
            SOut::Fail { st: st1, e: er } => !(er is UndefinedVariable),
            SOut::Norm { st: st1 } => frames_extend(st.frames, st1.frames) && frames_scoped(
                st1.frames,
            ) && ctx_leq(ctx_after(dom_ctx(st.frames, env), s), dom_ctx(st1.frames, env)),
            SOut::Ret { st: st1, v } => frames_extend(st.frames, st1.frames) && frames_scoped(
                st1.frames,
            ) && gval_scoped(st1.frames, v),
        },
    decreases fuel, stmt_size(s), 1nat,
{
    match s {
        Stmt::Expression { expression } => {
            lemma_eval_no_undefined(st, env, expression, fuel, log);
            match s_eval(st, env, expression, fuel, log) {
                EOut::Val { st: st1, v } => {
                    lemma_dom_ctx_extend(st.frames, st1.frames, env);
                },
                EOut::Fail { st: st1, e: er } => {},
            }
        },
        Stmt::Print { expression } => {
            lemma_eval_no_undefined(st, env, expression, fuel, log);
            match s_eval(st, env, expression, fuel, log) {
                EOut::Val { st: st1, v } => {
                    lemma_dom_ctx_extend(st.frames, st1.frames, env);
                },
                EOut::Fail { st: st1, e: er } => {},
            }
        },
        Stmt::Var { name, initializer } => {
            match initializer {
                Some(init) => {
                    lemma_eval_no_undefined(st, env, init, fuel, log);
                    match s_eval(st, env, init, fuel, log) {
                        EOut::Val { st: st1, v } => {
                            lemma_define_norm(st.frames, st1.frames, env, name.lexeme@, v);
                        },
                        EOut::Fail { st: st1, e: er } => {},
                    }
                },
                None => {
                    assert(frames_extend(st.frames, st.frames));
                    lemma_define_norm(st.frames, st.frames, env, name.lexeme@, GVal::Nil);
                },
            }
        },
        Stmt::Block { statements } => {
            let f = GFrame { vars: Map::empty(), parent: Some(env) };
            let newenv = st.frames.len() as int;
            let st1 = GState { frames: st.frames.push(f), ..st };
            assert forall|k: Seq<char>| #[trigger] f.vars.contains_key(k) implies gval_scoped(
                st.frames,
                f.vars[k],
            ) by {}
            lemma_frames_scoped_push(st.frames, f);
            assert(frames_extend(st.frames, st1.frames));
            lemma_dom_ctx_push(st.frames, f, env);
            assert(st1.frames[newenv] == f);
            assert(dom_ctx(st1.frames, newenv) == dom_ctx(st.frames, env).push(f.vars.dom()));
            assert(ctx_leq(
                dom_ctx(st.frames, env).push(Set::empty()),
                dom_ctx(st1.frames, newenv),
            ));
            lemma_stmts_closed_leq(
                dom_ctx(st.frames, env).push(Set::empty()),
                dom_ctx(st1.frames, newenv),
                statements@,
            );
            lemma_exec_stmts_no_undefined(st1, newenv, statements@, fuel, log);
            match s_exec_stmts(st1, newenv, statements@, fuel, log) {
                SOut::Norm { st: st2 } => {
                    assert(frames_extend(st.frames, st2.frames));
                    lemma_dom_ctx_extend(st.frames, st2.frames, env);
                },
                SOut::Ret { st: st2, v } => {
                    assert(frames_extend(st.frames, st2.frames));
                },
                SOut::Fail { st: st2, e: er } => {},
            }
        },
        Stmt::If { condition, then_branch, else_branch } => {
            lemma_eval_no_undefined(st, env, condition, fuel, log);
            match s_eval(st, env, condition, fuel, log) {
                EOut::Val { st: st1, v } => {
                    if crate::token::truthy(v) {
                        lemma_transport_stmt(st.frames, st1.frames, env, *then_branch);
                        lemma_exec_no_undefined(st1, env, *then_branch, fuel, log);
                        lemma_branch_norm(st, st1, env, s, *then_branch, fuel, log);
                    } else {
                        match else_branch {
                            Some(els) => {
                                lemma_transport_stmt(st.frames, st1.frames, env, *els);
                                lemma_exec_no_undefined(st1, env, *els, fuel, log);
                                lemma_branch_norm(st, st1, env, s, *els, fuel, log);
                            },
                            None => {
                                lemma_dom_ctx_extend(st.frames, st1.frames, env);
                            },
                        }
                    }
                },
                EOut::Fail { st: st1, e: er } => {},
            }
        },
        Stmt::While { condition, body } => {
            if fuel > 0 {
                lemma_eval_no_undefined(st, env, condition, fuel, log);
                match s_eval(st, env, condition, fuel, log) {
                    EOut::Val { st: st1, v } => {
                        if crate::token::truthy(v) {
                            lemma_transport_stmt(st.frames, st1.frames, env, *body);
                            lemma_exec_no_undefined(st1, env, *body, fuel, log);
                            match s_exec(st1, env, *body, fuel, log) {
                                SOut::Norm { st: st2 } => {
                                    assert(frames_extend(st.frames, st2.frames));
                                    lemma_transport_stmt(st.frames, st2.frames, env, s);
                                    lemma_exec_no_undefined(
                                        st2,
                                        env,
                                        Stmt::While { condition, body },
                                        (fuel - 1) as nat,
                                        log,
                                    );
                                    match s_exec(
                                        st2,
                                        env,
                                        Stmt::While { condition, body },
                                        (fuel - 1) as nat,
                                        log,
                                    ) {
                                        SOut::Norm { st: st3 } => {
                                            assert(frames_extend(st.frames, st3.frames));
                                            lemma_dom_ctx_extend(st.frames, st3.frames, env);
                                        },
                                        SOut::Ret { st: st3, v: rv } => {
                                            assert(frames_extend(st.frames, st3.frames));
                                        },
                                        SOut::Fail { st: st3, e: er } => {},
                                    }
                                },
                                SOut::Ret { st: st2, v: rv } => {
                                    assert(frames_extend(st.frames, st2.frames));
                                },
                                SOut::Fail { st: st2, e: er } => {},
                            }
                        } else {
                            lemma_dom_ctx_extend(st.frames, st1.frames, env);
                        }
                    },
                    EOut::Fail { st: st1, e: er } => {},
                }
            }
        },
        Stmt::Function { decl } => {
            let pv = (*decl).params@.map_values(|t: crate::token::Token| t.lexeme@);
            let n = (*decl).name.lexeme@;
            let fun = GVal::Fun { name: n, params: pv, body: (*decl).body@, closure: env };
            let updated = st.frames.update(
                env,
                GFrame { vars: st.frames[env].vars.insert(n, fun), parent: st.frames[env].parent },
            );
            lemma_dom_ctx_define(st.frames, env, n, fun);
            assert(ctx_leq(
                ctx_bind(dom_ctx(st.frames, env), n).push(params_set(pv)),
                dom_ctx(updated, env).push(params_set(pv)),
            ));
            lemma_stmts_closed_leq(
                ctx_bind(dom_ctx(st.frames, env), n).push(params_set(pv)),
                dom_ctx(updated, env).push(params_set(pv)),
                (*decl).body@,
            );
            assert(gval_scoped(updated, fun));
            lemma_frames_scoped_define(st.frames, env, n, fun);
            assert(frames_extend(st.frames, updated));
        },
        Stmt::Return { keyword, value } => {
            match value {
                Some(e) => {
                    lemma_eval_no_undefined(st, env, e, fuel, log);
                },
                None => {
                    assert(frames_extend(st.frames, st.frames));
                },
            }
        },
    }
}

/// A define in a scope covers the statically bound chain: the Norm
/// piece of the `var` case.
proof fn lemma_define_norm(f0: Seq<GFrame>, f1: Seq<GFrame>, env: int, n: Seq<char>, v: GVal)
    requires
        frames_extend(f0, f1),
        frames_scoped(f1),
        gval_scoped(f1, v),
        0 <= env < f0.len(),
    ensures
        ({
            let updated = f1.update(
                env,
                GFrame { vars: f1[env].vars.insert(n, v), parent: f1[env].parent },
            );
            &&& frames_extend(f0, updated)
            &&& frames_scoped(updated)
            &&& ctx_leq(ctx_bind(dom_ctx(f0, env), n), dom_ctx(updated, env))
        }),
{
    let updated = f1.update(
        env,
        GFrame { vars: f1[env].vars.insert(n, v), parent: f1[env].parent },
    );
    assert(frames_extend(f1, updated));
    lemma_gval_scoped_extend(f1, updated, v);
    lemma_frames_scoped_define(f1, env, n, v);
    assert(frames_extend(f0, updated));
    lemma_dom_ctx_define(f1, env, n, v);
    lemma_dom_ctx_extend(f0, f1, env);
    assert forall|i: int, m: Seq<char>|
        0 <= i < ctx_bind(dom_ctx(f0, env), n).len() && #[trigger] ctx_bind(
            dom_ctx(f0, env),
            n,
        )[i].contains(m) implies dom_ctx(updated, env)[i].contains(m) by {
        if i == ctx_bind(dom_ctx(f0, env), n).len() - 1 && m == n {
            assert(ctx_bind(dom_ctx(f1, env), n)[i].contains(m));
        } else {
            assert(dom_ctx(f0, env)[i].contains(m));
            assert(dom_ctx(f1, env)[i].contains(m));
            assert(ctx_bind(dom_ctx(f1, env), n)[i].contains(m));
        }
    }
}

/// The Norm piece of an `if` branch: the branch's completion covers the
/// whole statement's (which declares nothing).
proof fn lemma_branch_norm(
    st: GState,
    st1: GState,
    env: int,
    s: Stmt,
    branch: Stmt,
    fuel: nat,
    log: Seq<GVal>,
)
    requires
        frames_extend(st.frames, st1.frames),
        0 <= env < st.frames.len(),
        ctx_after(dom_ctx(st.frames, env), s) == dom_ctx(st.frames, env),
        match s_exec(st1, env, branch, fuel, log) {
            SOut::Norm { st: st2 } => frames_extend(st1.frames, st2.frames),
            _ => true,
        },
    ensures
        match s_exec(st1, env, branch, fuel, log) {
            SOut::Norm { st: st2 } => frames_extend(st.frames, st2.frames) && ctx_leq(
                ctx_after(dom_ctx(st.frames, env), s),
                dom_ctx(st2.frames, env),
            ),
            _ => true,
        },
{
    match s_exec(st1, env, branch, fuel, log) {
        SOut::Norm { st: st2 } => {
            assert(frames_extend(st.frames, st2.frames));
            lemma_dom_ctx_extend(st.frames, st2.frames, env);
        },
        _ => {},
    }
}

/// Executing a closed statement sequence in a scoped state: never
/// `UndefinedVariable`.
pub proof fn lemma_exec_stmts_no_undefined(
    st: GState,
    env: int,
    ss: Seq<Stmt>,
    fuel: nat,
    log: Seq<GVal>,
)
    requires
        frames_scoped(st.frames),
        0 <= env < st.frames.len(),
        stmts_closed(dom_ctx(st.frames, env), ss),
        plain_log(log),
    ensures
        match s_exec_stmts(st, env, ss, fuel, log) {
            SOut::Fail { st: st1, e: er } => !(er is UndefinedVariable),
            SOut::Norm { st: st1 } => frames_extend(st.frames, st1.frames) && frames_scoped(
                st1.frames,
            ),
            SOut::Ret { st: st1, v } => frames_extend(st.frames, st1.frames) && frames_scoped(
                st1.frames,
            ) && gval_scoped(st1.frames, v),
        },
    decreases fuel, stmts_size(ss), 0nat,
{
    if ss.len() == 0 {
        assert(frames_extend(st.frames, st.frames));
    } else {
        lemma_exec_no_undefined(st, env, ss[0], fuel, log);
        match s_exec(st, env, ss[0], fuel, log) {
            SOut::Norm { st: st1 } => {
                lemma_stmts_closed_leq(
                    ctx_after(dom_ctx(st.frames, env), ss[0]),
                    dom_ctx(st1.frames, env),
                    ss.subrange(1, ss.len() as int),
                );
                lemma_exec_stmts_no_undefined(st1, env, ss.subrange(1, ss.len() as int), fuel, log);
                match s_exec_stmts(st1, env, ss.subrange(1, ss.len() as int), fuel, log) {
                    SOut::Norm { st: st2 } => {
                        assert(frames_extend(st.frames, st2.frames));
                    },
                    SOut::Ret { st: st2, v } => {
                        assert(frames_extend(st.frames, st2.frames));
                    },
                    SOut::Fail { st: st2, e: er } => {},
                }
            },
            SOut::Ret { st: st1, v } => {},
            SOut::Fail { st: st1, e: er } => {},
        }
    }
}

/// The scoping claim, at the program level: a program whose every name
/// reference is declared in an enclosing scope before it is evaluated
/// (`stmts_closed` against the global scope's names) is never
/// interpreted to an `UndefinedVariable` failure — whatever the budget
/// and whatever plain values the host's natives return.
pub proof fn lemma_scoped_program_no_undefined(
    st: GState,
    prog: Seq<Stmt>,
    fuel: nat,
    log: Seq<GVal>,
)
    requires
        frames_scoped(st.frames),
        st.frames.len() >= 1,
        stmts_closed(dom_ctx(st.frames, 0), prog),
        plain_log(log),
    ensures
        match s_exec_stmts(st, 0, prog, fuel, log) {
            SOut::Fail { st: st1, e: er } => !(er is UndefinedVariable),
            _ => true,
        },
{
    lemma_exec_stmts_no_undefined(st, 0, prog, fuel, log);
}

/// A fresh interpreter's state is scoped: its one global scope holds
/// only the native built-ins.
pub proof fn lemma_initial_state_scoped()
    ensures
        frames_scoped(crate::initial_state().frames),
        crate::initial_state().frames.len() == 1,
{
    let frames = crate::initial_state().frames;
    assert forall|i: int, k: Seq<char>|
        0 <= i < frames.len() && #[trigger] frames[i].vars.contains_key(k) implies gval_scoped(
        frames,
        frames[i].vars[k],
    ) by {
        assert(i == 0);
        assert(frames[0].vars[k] == GVal::Native { name: "clock"@, arity: 0 });
    }
}

} // verus!
