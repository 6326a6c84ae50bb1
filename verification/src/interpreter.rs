//! The tree-walking interpreter.
//!
//! Every method's contract equates what it did — on the scope arena, the
//! output log and the returned value — with the big-step semantics of
//! `semantics`, for every sequence of native results extending the ones
//! that actually occurred.  Execution is budgeted: each call and each
//! loop iteration costs one unit of fuel, and running out surfaces as a
//! `ResourceExhausted` error rather than a crash.
use vstd::prelude::*;

use crate::built_in::register_builtins;
use crate::environment::Environment;
use crate::environment::GFrame;
use crate::environment::env_wf;
use crate::environment::gval_wf;
use crate::environment::lemma_lookup_wf;
use crate::environment::lemma_resolve_in_range;
use crate::environment::lemma_wf_define;
use crate::environment::lemma_wf_push;
use crate::environment::s_resolve;
use crate::environment::vals_wf;
use crate::error::GErr;
use crate::error::RuntimeError;
use crate::expr::Expr;
use crate::expr::expr_size;
use crate::expr::exprs_size;
use crate::lox_callable::LoxCallable;
use crate::semantics::EOut;
use crate::semantics::GState;
use crate::semantics::LOut;
use crate::semantics::SOut;
use crate::semantics::lemma_prefix_char;
use crate::semantics::s_binop;
use crate::semantics::s_call;
use crate::semantics::s_eval;
use crate::semantics::s_eval_list;
use crate::semantics::s_exec;
use crate::semantics::s_exec_stmts;
use crate::semantics::s_unary;
use crate::semantics::st_define;
use crate::semantics::st_push;
use crate::stmt::Stmt;
use crate::stmt::stmt_size;
use crate::stmt::stmts_size;
use crate::token::GVal;
use crate::token::Lit;
use crate::token::Value;
use crate::token::TokenType;
use crate::token::lit_to_value;
use crate::token::vals_view;
use crate::display::to_display_string;

verus! {

broadcast use lemma_prefix_char;

/// The default step budget: how many function calls and loop iterations
/// one interpretation may spend before it fails with
/// `ResourceExhausted`.
pub const DEFAULT_FUEL: u64 = 1000;

/// What the host supplies to run registered native functions.  The
/// interpreter checks the arity, evaluates the arguments and hands them
/// over; nothing is assumed about the result, so the interpreter's own
/// contracts hold whatever a host returns.  The result is a literal:
/// native functions return plain values, never callables.
pub trait NativeHost {
    /// Runs the native function `name` on the evaluated arguments.
    fn call_native(&mut self, name: &str, arguments: &Vec<Value>) -> Lit;
}

/// A host with no native behaviour: every native call returns nil.
pub struct SilentHost;

impl NativeHost for SilentHost {
    fn call_native(&mut self, name: &str, arguments: &Vec<Value>) -> Lit {
        Lit::Nil
    }
}

/// The outcome of executing a statement: either it completed, or a
/// `return` is unwinding with its value.  This is ordinary control flow,
/// deliberately separate from the error channel — a return must never be
/// caught as a failure nor a failure as a return.
#[derive(Debug)]
pub enum ReturnError {
    Completed,
    ReturnValue { value: Value },
}

/// The interpreter: the scope arena, the lines printed so far, and the
/// ghost log of every value a native call returned.
pub struct Interpreter {
    pub env: Environment,
    pub output: Vec<String>,
    pub log: Ghost<Seq<GVal>>,
}

impl View for Interpreter {
    type V = GState;

    open spec fn view(&self) -> GState {
        GState {
            frames: self.env@,
            output: self.output.deep_view(),
            used: self.log@.len() as int,
        }
    }
}

impl Interpreter {
    /// The scope arena is well formed: parent links point downwards and
    /// every closure captures an existing scope.
    pub open spec fn wf(&self) -> bool {
        env_wf(self@.frames)
    }

    /// A fresh interpreter: one empty global scope with the built-in
    /// natives registered, no output, no native calls made.
    pub fn new() -> (interp: Self)
        ensures
            interp@ == (GState {
                frames: seq![
                    GFrame {
                        vars: Map::empty().insert(
                            "clock"@,
                            GVal::Native { name: "clock"@, arity: 0 },
                        ),
                        parent: None,
                    },
                ],
                output: Seq::empty(),
                used: 0,
            }),
            interp.wf(),
    {
        let mut env = Environment::new();
        register_builtins(&mut env);
        let interp = Interpreter { env, output: Vec::new(), log: Ghost(Seq::empty()) };
        proof {
            assert(interp@.output =~= Seq::<Seq<char>>::empty());
            assert(interp@.frames =~~= seq![
                GFrame {
                    vars: Map::empty().insert("clock"@, GVal::Native { name: "clock"@, arity: 0 }),
                    parent: None,
                },
            ]);
            assert(interp@ =~~= (GState {
                frames: seq![
                    GFrame {
                        vars: Map::empty().insert(
                            "clock"@,
                            GVal::Native { name: "clock"@, arity: 0 },
                        ),
                        parent: None,
                    },
                ],
                output: Seq::empty(),
                used: 0,
            }));
            assert forall|i: int| 0 <= i < interp@.frames.len() implies
                crate::environment::frame_parent_ok(interp@.frames, i) by {}
            assert forall|i: int| 0 <= i < interp@.frames.len() implies
                crate::environment::frame_vals_wf(
                    #[trigger] interp@.frames[i],
                    interp@.frames.len() as int,
                ) by {
                assert forall|k: Seq<char>|
                    #[trigger] interp@.frames[i].vars.contains_key(k) implies gval_wf(
                    interp@.frames[i].vars[k],
                    interp@.frames.len() as int,
                ) by {}
            }
        }
        interp
    }

    /// The handle of the global scope, where the host may `define`
    /// further natives before interpreting.
    pub fn get_globals(&self) -> (g: usize)
        ensures
            g == 0,
    {
        0
    }

    /// Runs a program with the default step budget.
    pub fn interpret<H: NativeHost>(&mut self, host: &mut H, statements: &Vec<Stmt>) -> (r: Result<
        (),
        RuntimeError,
    >)
        requires
            old(self).wf(),
        ensures
            final(self).wf(),
            old(self).log@.is_prefix_of(final(self).log@),
            forall|log: Seq<GVal>| final(self).log@.is_prefix_of(log) ==> match #[trigger] s_exec_stmts(
                old(self)@,
                0,
                statements@,
                DEFAULT_FUEL as nat,
                log,
            ) {
                SOut::Norm { st } => final(self)@ == st && r is Ok,
                SOut::Ret { st, v } => final(self)@ == st && r is Ok,
                SOut::Fail { st, e } => final(self)@ == st && (r matches Result::Err(er) && er@
                    == e),
            },
    {
        self.interpret_with_fuel(host, statements, DEFAULT_FUEL)
    }

    /// Runs a program: executes each statement in order in the global
    /// scope, stopping at the first failure.  A `return` at top level
    /// simply ends the run.
    pub fn interpret_with_fuel<H: NativeHost>(
        &mut self,
        host: &mut H,
        statements: &Vec<Stmt>,
        fuel: u64,
    ) -> (r: Result<(), RuntimeError>)
        requires
            old(self).wf(),
        ensures
            final(self).wf(),
            old(self).log@.is_prefix_of(final(self).log@),
            forall|log: Seq<GVal>| final(self).log@.is_prefix_of(log) ==> match #[trigger] s_exec_stmts(
                old(self)@,
                0,
                statements@,
                fuel as nat,
                log,
            ) {
                SOut::Norm { st } => final(self)@ == st && r is Ok,
                SOut::Ret { st, v } => final(self)@ == st && r is Ok,
                SOut::Fail { st, e } => final(self)@ == st && (r matches Result::Err(er) && er@
                    == e),
            },
    {
        proof {
            assert(statements@.subrange(0, statements@.len() as int) =~= statements@);
        }
        match self.exec_stmts(host, 0, statements, 0, fuel) {
            Result::Ok(_) => Result::Ok(()),
            Result::Err(er) => Result::Err(er),
        }
    }

    /// Executes the statements of a block or function body, in order, in
    /// the given scope; a return signal yields its value, completion
    /// yields nil.
    pub fn execute_block<H: NativeHost>(
        &mut self,
        host: &mut H,
        statements: &Vec<Stmt>,
        environment: usize,
        fuel: u64,
    ) -> (r: Result<Value, RuntimeError>)
        requires
            old(self).wf(),
            environment < old(self)@.frames.len(),
        ensures
            final(self).wf(),
            old(self)@.frames.len() <= final(self)@.frames.len(),
            old(self).log@.is_prefix_of(final(self).log@),
            (r matches Result::Ok(v) ==> gval_wf(v@, final(self)@.frames.len() as int)),
            forall|log: Seq<GVal>| final(self).log@.is_prefix_of(log) ==> match #[trigger] s_exec_stmts(
                old(self)@,
                environment as int,
                statements@,
                fuel as nat,
                log,
            ) {
                SOut::Norm { st } => final(self)@ == st && (r matches Result::Ok(v) && v@
                    == GVal::Nil),
                SOut::Ret { st, v } => final(self)@ == st && (r matches Result::Ok(rv) && rv@
                    == v),
                SOut::Fail { st, e } => final(self)@ == st && (r matches Result::Err(er) && er@
                    == e),
            },
        decreases fuel, stmts_size(statements@), 3nat,
    {
        proof {
            assert(statements@.subrange(0, statements@.len() as int) =~= statements@);
        }
        match self.exec_stmts(host, environment, statements, 0, fuel) {
            Result::Ok(ReturnError::Completed) => Result::Ok(Value::Nil),
            Result::Ok(ReturnError::ReturnValue { value }) => Result::Ok(value),
            Result::Err(er) => Result::Err(er),
        }
    }

    /// Executes `stmts[i..]` in order, propagating the first return
    /// signal or failure.
    fn exec_stmts<H: NativeHost>(
        &mut self,
        host: &mut H,
        env: usize,
        stmts: &Vec<Stmt>,
        i: usize,
        fuel: u64,
    ) -> (r: Result<ReturnError, RuntimeError>)
        requires
            old(self).wf(),
            env < old(self)@.frames.len(),
            i <= stmts@.len(),
        ensures
            final(self).wf(),
            old(self)@.frames.len() <= final(self)@.frames.len(),
            old(self).log@.is_prefix_of(final(self).log@),
            (r matches Result::Ok(ReturnError::ReturnValue { value }) ==> gval_wf(
                value@,
                final(self)@.frames.len() as int,
            )),
            forall|log: Seq<GVal>| final(self).log@.is_prefix_of(log) ==> #[trigger] s_exec_stmts(
                old(self)@,
                env as int,
                stmts@.subrange(i as int, stmts@.len() as int),
                fuel as nat,
                log,
            ) == (match r {
                Result::Ok(ReturnError::Completed) => SOut::Norm { st: final(self)@ },
                Result::Ok(ReturnError::ReturnValue { value }) => SOut::Ret {
                    st: final(self)@,
                    v: value@,
                },
                Result::Err(er) => SOut::Fail { st: final(self)@, e: er@ },
            }),
        decreases fuel, stmts_size(stmts@.subrange(i as int, stmts@.len() as int)), 2nat,
    {
        let ghost whole = stmts@.subrange(i as int, stmts@.len() as int);
        if i == stmts.len() {
            proof {
                assert(whole =~= Seq::<Stmt>::empty());
            }
            return Result::Ok(ReturnError::Completed);
        }
        proof {
            assert(whole[0] == stmts@[i as int]);
            assert(whole.subrange(1, whole.len() as int) =~= stmts@.subrange(
                i as int + 1,
                stmts@.len() as int,
            ));
        }
        let flow = match self.exec_stmt(host, env, &stmts[i], fuel) {
            Result::Ok(f) => f,
            Result::Err(er) => {
                proof {
                    assert forall|log: Seq<GVal>| self.log@.is_prefix_of(log) implies #[trigger] s_exec_stmts(
                        old(self)@,
                        env as int,
                        whole,
                        fuel as nat,
                        log,
                    ) == (SOut::Fail { st: self@, e: er@ }) by {
                        assert(s_exec(old(self)@, env as int, whole[0], fuel as nat, log)
                            == (SOut::Fail { st: self@, e: er@ }));
                    }
                }
                return Result::Err(er);
            },
        };
        match flow {
            ReturnError::Completed => {
                let ghost st1 = self@;
                let ghost log1 = self.log@;
                let r = self.exec_stmts(host, env, stmts, i + 1, fuel);
                proof {
                    assert forall|log: Seq<GVal>| self.log@.is_prefix_of(log) implies #[trigger] s_exec_stmts(
                        old(self)@,
                        env as int,
                        whole,
                        fuel as nat,
                        log,
                    ) == (match r {
                        Result::Ok(ReturnError::Completed) => SOut::Norm { st: self@ },
                        Result::Ok(ReturnError::ReturnValue { value }) => SOut::Ret {
                            st: self@,
                            v: value@,
                        },
                        Result::Err(er) => SOut::Fail { st: self@, e: er@ },
                    }) by {
                        assert(log1.is_prefix_of(log));
                        assert(s_exec(old(self)@, env as int, whole[0], fuel as nat, log)
                            == (SOut::Norm { st: st1 }));
                        assert(s_exec_stmts(
                            st1,
                            env as int,
                            whole.subrange(1, whole.len() as int),
                            fuel as nat,
                            log,
                        ) == (match r {
                            Result::Ok(ReturnError::Completed) => SOut::Norm { st: self@ },
                            Result::Ok(ReturnError::ReturnValue { value }) => SOut::Ret {
                                st: self@,
                                v: value@,
                            },
                            Result::Err(er) => SOut::Fail { st: self@, e: er@ },
                        }));
                    }
                }
                r
            },
            ReturnError::ReturnValue { value } => {
                proof {
                    assert forall|log: Seq<GVal>| self.log@.is_prefix_of(log) implies #[trigger] s_exec_stmts(
                        old(self)@,
                        env as int,
                        whole,
                        fuel as nat,
                        log,
                    ) == (SOut::Ret { st: self@, v: value@ }) by {
                        assert(s_exec(old(self)@, env as int, whole[0], fuel as nat, log)
                            == (SOut::Ret { st: self@, v: value@ }));
                    }
                }
                Result::Ok(ReturnError::ReturnValue { value })
            },
        }
    }

    /// Executes one statement against the given scope.
    #[verifier::rlimit(100)]
    fn exec_stmt<H: NativeHost>(
        &mut self,
        host: &mut H,
        env: usize,
        s: &Stmt,
        fuel: u64,
    ) -> (r: Result<ReturnError, RuntimeError>)
        requires
            old(self).wf(),
            env < old(self)@.frames.len(),
        ensures
            final(self).wf(),
            old(self)@.frames.len() <= final(self)@.frames.len(),
            old(self).log@.is_prefix_of(final(self).log@),
            (r matches Result::Ok(ReturnError::ReturnValue { value }) ==> gval_wf(
                value@,
                final(self)@.frames.len() as int,
            )),
            forall|log: Seq<GVal>| final(self).log@.is_prefix_of(log) ==> #[trigger] s_exec(
                old(self)@,
                env as int,
                *s,
                fuel as nat,
                log,
            ) == (match r {
                Result::Ok(ReturnError::Completed) => SOut::Norm { st: final(self)@ },
                Result::Ok(ReturnError::ReturnValue { value }) => SOut::Ret {
                    st: final(self)@,
                    v: value@,
                },
                Result::Err(er) => SOut::Fail { st: final(self)@, e: er@ },
            }),
        decreases fuel, stmt_size(*s), 1nat,
    {
        match s {
            Stmt::Expression { expression } => {
                let res = self.eval_expr(host, env, expression, fuel);
                proof {
                    assert forall|log: Seq<GVal>| self.log@.is_prefix_of(log) implies #[trigger] s_exec(
                        old(self)@,
                        env as int,
                        *s,
                        fuel as nat,
                        log,
                    ) == (match res {
                        Result::Ok(v) => SOut::Norm { st: self@ },
                        Result::Err(er) => SOut::Fail { st: self@, e: er@ },
                    }) by {
                        assert(s_eval(old(self)@, env as int, *expression, fuel as nat, log)
                            == (match res {
                            Result::Ok(v) => EOut::Val { st: self@, v: v@ },
                            Result::Err(er) => EOut::Fail { st: self@, e: er@ },
                        }));
                    }
                }
                match res {
                    Result::Ok(_) => Result::Ok(ReturnError::Completed),
                    Result::Err(er) => Result::Err(er),
                }
            },
            Stmt::Print { expression } => {
                let v = match self.eval_expr(host, env, expression, fuel) {
                    Result::Ok(v) => v,
                    Result::Err(er) => {
                        proof {
                            assert forall|log: Seq<GVal>| self.log@.is_prefix_of(log) implies #[trigger] s_exec(
                                old(self)@,
                                env as int,
                                *s,
                                fuel as nat,
                                log,
                            ) == (SOut::Fail { st: self@, e: er@ }) by {
                                assert(s_eval(old(self)@, env as int, *expression, fuel as nat, log)
                                    == (EOut::Fail { st: self@, e: er@ }));
                            }
                        }
                        return Result::Err(er);
                    },
                };
                let ghost st1 = self@;
                let ghost gv = v@;
                let line = to_display_string(&v);
                self.output.push(line);
                proof {
                    assert(self@.output =~= st1.output.push(val_display_of(gv)));
                    assert(self@ =~~= (GState { output: st1.output.push(val_display_of(gv)), ..st1 }));
                    assert forall|log: Seq<GVal>| self.log@.is_prefix_of(log) implies #[trigger] s_exec(
                        old(self)@,
                        env as int,
                        *s,
                        fuel as nat,
                        log,
                    ) == (SOut::Norm { st: self@ }) by {
                        assert(s_eval(old(self)@, env as int, *expression, fuel as nat, log)
                            == (EOut::Val { st: st1, v: gv }));
                    }
                }
                Result::Ok(ReturnError::Completed)
            },
            Stmt::Var { name, initializer } => {
                match initializer {
                    Some(init) => {
                        let v = match self.eval_expr(host, env, init, fuel) {
                            Result::Ok(v) => v,
                            Result::Err(er) => {
                                proof {
                                    assert forall|log: Seq<GVal>| self.log@.is_prefix_of(log) implies #[trigger] s_exec(
                                        old(self)@,
                                        env as int,
                                        *s,
                                        fuel as nat,
                                        log,
                                    ) == (SOut::Fail { st: self@, e: er@ }) by {
                                        assert(s_eval(old(self)@, env as int, *init, fuel as nat, log)
                                            == (EOut::Fail { st: self@, e: er@ }));
                                    }
                                }
                                return Result::Err(er);
                            },
                        };
                        let ghost st1 = self@;
                        let ghost gv = v@;
                        proof {
                            lemma_wf_define(st1.frames, env as int, name.lexeme@, gv);
                        }
                        self.env.define(env, name.lexeme.clone(), v);
                        proof {
                            assert(self@ =~~= st_define(st1, env as int, name.lexeme@, gv));
                            assert forall|log: Seq<GVal>| self.log@.is_prefix_of(log) implies #[trigger] s_exec(
                                old(self)@,
                                env as int,
                                *s,
                                fuel as nat,
                                log,
                            ) == (SOut::Norm { st: self@ }) by {
                                assert(s_eval(old(self)@, env as int, *init, fuel as nat, log)
                                    == (EOut::Val { st: st1, v: gv }));
                            }
                        }
                        Result::Ok(ReturnError::Completed)
                    },
                    None => {
                        let ghost st1 = self@;
                        proof {
                            lemma_wf_define(st1.frames, env as int, name.lexeme@, GVal::Nil);
                        }
                        self.env.define(env, name.lexeme.clone(), Value::Nil);
                        proof {
                            assert(self@ =~~= st_define(st1, env as int, name.lexeme@, GVal::Nil));
                        }
                        Result::Ok(ReturnError::Completed)
                    },
                }
            },
            Stmt::Block { statements } => {
                let ghost st0 = self@;
                let child = self.env.new_scope(env);
                proof {
                    lemma_wf_push(
                        st0.frames,
                        GFrame { vars: Map::empty(), parent: Some(env as int) },
                    );
                    assert(self@ =~~= st_push(st0, env as int));
                }
                let r = self.execute_block_flow(host, statements, child, fuel);
                proof {
                    assert forall|log: Seq<GVal>| self.log@.is_prefix_of(log) implies #[trigger] s_exec(
                        old(self)@,
                        env as int,
                        *s,
                        fuel as nat,
                        log,
                    ) == (match r {
                        Result::Ok(ReturnError::Completed) => SOut::Norm { st: self@ },
                        Result::Ok(ReturnError::ReturnValue { value }) => SOut::Ret {
                            st: self@,
                            v: value@,
                        },
                        Result::Err(er) => SOut::Fail { st: self@, e: er@ },
                    }) by {
                        assert(s_exec_stmts(
                            st_push(st0, env as int),
                            st0.frames.len() as int,
                            statements@,
                            fuel as nat,
                            log,
                        ) == (match r {
                            Result::Ok(ReturnError::Completed) => SOut::Norm { st: self@ },
                            Result::Ok(ReturnError::ReturnValue { value }) => SOut::Ret {
                                st: self@,
                                v: value@,
                            },
                            Result::Err(er) => SOut::Fail { st: self@, e: er@ },
                        }));
                    }
                }
                r
            },
            Stmt::If { condition, then_branch, else_branch } => {
                let c = match self.eval_expr(host, env, condition, fuel) {
                    Result::Ok(v) => v,
                    Result::Err(er) => {
                        proof {
                            assert forall|log: Seq<GVal>| self.log@.is_prefix_of(log) implies #[trigger] s_exec(
                                old(self)@,
                                env as int,
                                *s,
                                fuel as nat,
                                log,
                            ) == (SOut::Fail { st: self@, e: er@ }) by {
                                assert(s_eval(old(self)@, env as int, *condition, fuel as nat, log)
                                    == (EOut::Fail { st: self@, e: er@ }));
                            }
                        }
                        return Result::Err(er);
                    },
                };
                let ghost st1 = self@;
                let ghost log1 = self.log@;
                let ghost gc = c@;
                if c.is_truthy() {
                    let r = self.exec_stmt(host, env, &**then_branch, fuel);
                    proof {
                        assert forall|log: Seq<GVal>| self.log@.is_prefix_of(log) implies #[trigger] s_exec(
                            old(self)@,
                            env as int,
                            *s,
                            fuel as nat,
                            log,
                        ) == (match r {
                            Result::Ok(ReturnError::Completed) => SOut::Norm { st: self@ },
                            Result::Ok(ReturnError::ReturnValue { value }) => SOut::Ret {
                                st: self@,
                                v: value@,
                            },
                            Result::Err(er) => SOut::Fail { st: self@, e: er@ },
                        }) by {
                            assert(log1.is_prefix_of(log));
                            assert(s_eval(old(self)@, env as int, *condition, fuel as nat, log)
                                == (EOut::Val { st: st1, v: gc }));
                            assert(s_exec(st1, env as int, **then_branch, fuel as nat, log)
                                == (match r {
                                Result::Ok(ReturnError::Completed) => SOut::Norm { st: self@ },
                                Result::Ok(ReturnError::ReturnValue { value }) => SOut::Ret {
                                    st: self@,
                                    v: value@,
                                },
                                Result::Err(er) => SOut::Fail { st: self@, e: er@ },
                            }));
                        }
                    }
                    r
                } else {
                    match else_branch {
                        Some(els) => {
                            let r = self.exec_stmt(host, env, &**els, fuel);
                            proof {
                                assert forall|log: Seq<GVal>| self.log@.is_prefix_of(log) implies #[trigger] s_exec(
                                    old(self)@,
                                    env as int,
                                    *s,
                                    fuel as nat,
                                    log,
                                ) == (match r {
                                    Result::Ok(ReturnError::Completed) => SOut::Norm { st: self@ },
                                    Result::Ok(ReturnError::ReturnValue { value }) => SOut::Ret {
                                        st: self@,
                                        v: value@,
                                    },
                                    Result::Err(er) => SOut::Fail { st: self@, e: er@ },
                                }) by {
                                    assert(log1.is_prefix_of(log));
                                    assert(s_eval(old(self)@, env as int, *condition, fuel as nat, log)
                                        == (EOut::Val { st: st1, v: gc }));
                                    assert(s_exec(st1, env as int, **els, fuel as nat, log)
                                        == (match r {
                                        Result::Ok(ReturnError::Completed) => SOut::Norm { st: self@ },
                                        Result::Ok(ReturnError::ReturnValue { value }) => SOut::Ret {
                                            st: self@,
                                            v: value@,
                                        },
                                        Result::Err(er) => SOut::Fail { st: self@, e: er@ },
                                    }));
                                }
                            }
                            r
                        },
                        None => {
                            proof {
                                assert forall|log: Seq<GVal>| self.log@.is_prefix_of(log) implies #[trigger] s_exec(
                                    old(self)@,
                                    env as int,
                                    *s,
                                    fuel as nat,
                                    log,
                                ) == (SOut::Norm { st: self@ }) by {
                                    assert(s_eval(old(self)@, env as int, *condition, fuel as nat, log)
                                        == (EOut::Val { st: st1, v: gc }));
                                }
                            }
                            Result::Ok(ReturnError::Completed)
                        },
                    }
                }
            },
            Stmt::While { condition, body } => {
                if fuel == 0 {
                    return Result::Err(RuntimeError::ResourceExhausted);
                }
                let c = match self.eval_expr(host, env, condition, fuel) {
                    Result::Ok(v) => v,
                    Result::Err(er) => {
                        proof {
                            assert forall|log: Seq<GVal>| self.log@.is_prefix_of(log) implies #[trigger] s_exec(
                                old(self)@,
                                env as int,
                                *s,
                                fuel as nat,
                                log,
                            ) == (SOut::Fail { st: self@, e: er@ }) by {
                                assert(s_eval(old(self)@, env as int, *condition, fuel as nat, log)
                                    == (EOut::Fail { st: self@, e: er@ }));
                            }
                        }
                        return Result::Err(er);
                    },
                };
                let ghost st1 = self@;
                let ghost log1 = self.log@;
                let ghost gc = c@;
                if !c.is_truthy() {
                    proof {
                        assert forall|log: Seq<GVal>| self.log@.is_prefix_of(log) implies #[trigger] s_exec(
                            old(self)@,
                            env as int,
                            *s,
                            fuel as nat,
                            log,
                        ) == (SOut::Norm { st: self@ }) by {
                            assert(s_eval(old(self)@, env as int, *condition, fuel as nat, log)
                                == (EOut::Val { st: st1, v: gc }));
                        }
                    }
                    return Result::Ok(ReturnError::Completed);
                }
                let flow = match self.exec_stmt(host, env, &**body, fuel) {
                    Result::Ok(f) => f,
                    Result::Err(er) => {
                        proof {
                            assert forall|log: Seq<GVal>| self.log@.is_prefix_of(log) implies #[trigger] s_exec(
                                old(self)@,
                                env as int,
                                *s,
                                fuel as nat,
                                log,
                            ) == (SOut::Fail { st: self@, e: er@ }) by {
                                assert(log1.is_prefix_of(log));
                                assert(s_eval(old(self)@, env as int, *condition, fuel as nat, log)
                                    == (EOut::Val { st: st1, v: gc }));
                                assert(s_exec(st1, env as int, **body, fuel as nat, log)
                                    == (SOut::Fail { st: self@, e: er@ }));
                            }
                        }
                        return Result::Err(er);
                    },
                };
                match flow {
                    ReturnError::Completed => {
                        let ghost st2 = self@;
                        let ghost log2 = self.log@;
                        let r = self.exec_stmt(host, env, s, fuel - 1);
                        proof {
                            assert(*s == Stmt::While { condition: *condition, body: *body });
                            assert forall|log: Seq<GVal>| self.log@.is_prefix_of(log) implies #[trigger] s_exec(
                                old(self)@,
                                env as int,
                                *s,
                                fuel as nat,
                                log,
                            ) == (match r {
                                Result::Ok(ReturnError::Completed) => SOut::Norm { st: self@ },
                                Result::Ok(ReturnError::ReturnValue { value }) => SOut::Ret {
                                    st: self@,
                                    v: value@,
                                },
                                Result::Err(er) => SOut::Fail { st: self@, e: er@ },
                            }) by {
                                assert(log1.is_prefix_of(log));
                                assert(log2.is_prefix_of(log));
                                assert(s_eval(old(self)@, env as int, *condition, fuel as nat, log)
                                    == (EOut::Val { st: st1, v: gc }));
                                assert(s_exec(st1, env as int, **body, fuel as nat, log)
                                    == (SOut::Norm { st: st2 }));
                                assert(s_exec(st2, env as int, *s, (fuel - 1) as nat, log)
                                    == (match r {
                                    Result::Ok(ReturnError::Completed) => SOut::Norm { st: self@ },
                                    Result::Ok(ReturnError::ReturnValue { value }) => SOut::Ret {
                                        st: self@,
                                        v: value@,
                                    },
                                    Result::Err(er) => SOut::Fail { st: self@, e: er@ },
                                }));
                            }
                        }
                        r
                    },
                    ReturnError::ReturnValue { value } => {
                        proof {
                            assert forall|log: Seq<GVal>| self.log@.is_prefix_of(log) implies #[trigger] s_exec(
                                old(self)@,
                                env as int,
                                *s,
                                fuel as nat,
                                log,
                            ) == (SOut::Ret { st: self@, v: value@ }) by {
                                assert(log1.is_prefix_of(log));
                                assert(s_eval(old(self)@, env as int, *condition, fuel as nat, log)
                                    == (EOut::Val { st: st1, v: gc }));
                                assert(s_exec(st1, env as int, **body, fuel as nat, log)
                                    == (SOut::Ret { st: self@, v: value@ }));
                            }
                        }
                        Result::Ok(ReturnError::ReturnValue { value })
                    },
                }
            },
            Stmt::Function { decl } => {
                let callable = Value::Callable(
                    LoxCallable::LoxFunction {
                        decl: crate::lox_callable::rc_clone(decl),
                        closure: env,
                    },
                );
                let ghost st0 = self@;
                proof {
                    lemma_wf_define(st0.frames, env as int, (**decl).name.lexeme@, callable@);
                }
                self.env.define(env, decl.name.lexeme.clone(), callable);
                proof {
                    assert(self@ =~~= st_define(
                        st0,
                        env as int,
                        (**decl).name.lexeme@,
                        GVal::Fun {
                            name: (**decl).name.lexeme@,
                            params: (**decl).params@.map_values(
                                |t: crate::token::Token| t.lexeme@,
                            ),
                            body: (**decl).body@,
                            closure: env as int,
                        },
                    ));
                }
                Result::Ok(ReturnError::Completed)
            },
            Stmt::Return { keyword, value } => {
                match value {
                    Some(e) => {
                        let res = self.eval_expr(host, env, e, fuel);
                        proof {
                            assert forall|log: Seq<GVal>| self.log@.is_prefix_of(log) implies #[trigger] s_exec(
                                old(self)@,
                                env as int,
                                *s,
                                fuel as nat,
                                log,
                            ) == (match res {
                                Result::Ok(v) => SOut::Ret { st: self@, v: v@ },
                                Result::Err(er) => SOut::Fail { st: self@, e: er@ },
                            }) by {
                                assert(s_eval(old(self)@, env as int, *e, fuel as nat, log)
                                    == (match res {
                                    Result::Ok(v) => EOut::Val { st: self@, v: v@ },
                                    Result::Err(er) => EOut::Fail { st: self@, e: er@ },
                                }));
                            }
                        }
                        match res {
                            Result::Ok(v) => Result::Ok(ReturnError::ReturnValue { value: v }),
                            Result::Err(er) => Result::Err(er),
                        }
                    },
                    None => Result::Ok(ReturnError::ReturnValue { value: Value::Nil }),
                }
            },
        }
    }

    /// Runs a block's statements and repackages the outcome as a flow,
    /// used by `Stmt::Block` where a return signal must keep unwinding.
    fn execute_block_flow<H: NativeHost>(
        &mut self,
        host: &mut H,
        statements: &Vec<Stmt>,
        environment: usize,
        fuel: u64,
    ) -> (r: Result<ReturnError, RuntimeError>)
        requires
            old(self).wf(),
            environment < old(self)@.frames.len(),
        ensures
            final(self).wf(),
            old(self)@.frames.len() <= final(self)@.frames.len(),
            old(self).log@.is_prefix_of(final(self).log@),
            (r matches Result::Ok(ReturnError::ReturnValue { value }) ==> gval_wf(
                value@,
                final(self)@.frames.len() as int,
            )),
            forall|log: Seq<GVal>| final(self).log@.is_prefix_of(log) ==> #[trigger] s_exec_stmts(
                old(self)@,
                environment as int,
                statements@,
                fuel as nat,
                log,
            ) == (match r {
                Result::Ok(ReturnError::Completed) => SOut::Norm { st: final(self)@ },
                Result::Ok(ReturnError::ReturnValue { value }) => SOut::Ret {
                    st: final(self)@,
                    v: value@,
                },
                Result::Err(er) => SOut::Fail { st: final(self)@, e: er@ },
            }),
        decreases fuel, stmts_size(statements@), 3nat,
    {
        proof {
            assert(statements@.subrange(0, statements@.len() as int) =~= statements@);
        }
        let r = self.exec_stmts(host, environment, statements, 0, fuel);
        r
    }

    /// Evaluates the argument expressions `es[i..]`, left to right.
    fn eval_args<H: NativeHost>(
        &mut self,
        host: &mut H,
        env: usize,
        es: &Vec<Expr>,
        i: usize,
        fuel: u64,
    ) -> (r: Result<Vec<Value>, RuntimeError>)
        requires
            old(self).wf(),
            env < old(self)@.frames.len(),
            i <= es@.len(),
        ensures
            final(self).wf(),
            old(self)@.frames.len() <= final(self)@.frames.len(),
            old(self).log@.is_prefix_of(final(self).log@),
            (r matches Result::Ok(vs) ==> vals_wf(
                vals_view(vs@),
                final(self)@.frames.len() as int,
            )),
            forall|log: Seq<GVal>| final(self).log@.is_prefix_of(log) ==> #[trigger] s_eval_list(
                old(self)@,
                env as int,
                es@.subrange(i as int, es@.len() as int),
                fuel as nat,
                log,
            ) == (match r {
                Result::Ok(vs) => LOut::Vals { st: final(self)@, vs: vals_view(vs@) },
                Result::Err(er) => LOut::Fail { st: final(self)@, e: er@ },
            }),
        decreases fuel, exprs_size(es@.subrange(i as int, es@.len() as int)), 2nat,
    {
        let ghost whole = es@.subrange(i as int, es@.len() as int);
        if i == es.len() {
            let out: Vec<Value> = Vec::new();
            proof {
                assert(whole =~= Seq::<Expr>::empty());
                assert(vals_view(out@) =~= Seq::<GVal>::empty());
            }
            return Result::Ok(out);
        }
        proof {
            assert(whole[0] == es@[i as int]);
            assert(whole.subrange(1, whole.len() as int) =~= es@.subrange(
                i as int + 1,
                es@.len() as int,
            ));
        }
        let v = match self.eval_expr(host, env, &es[i], fuel) {
            Result::Ok(v) => v,
            Result::Err(er) => {
                proof {
                    assert forall|log: Seq<GVal>| self.log@.is_prefix_of(log) implies #[trigger] s_eval_list(
                        old(self)@,
                        env as int,
                        whole,
                        fuel as nat,
                        log,
                    ) == (LOut::Fail { st: self@, e: er@ }) by {
                        assert(s_eval(old(self)@, env as int, whole[0], fuel as nat, log)
                            == (EOut::Fail { st: self@, e: er@ }));
                    }
                }
                return Result::Err(er);
            },
        };
        let ghost gv = v@;
        let ghost st1 = self@;
        let ghost log1 = self.log@;
        let mut rest = match self.eval_args(host, env, es, i + 1, fuel) {
            Result::Ok(vs) => vs,
            Result::Err(er) => {
                proof {
                    assert forall|log: Seq<GVal>| self.log@.is_prefix_of(log) implies #[trigger] s_eval_list(
                        old(self)@,
                        env as int,
                        whole,
                        fuel as nat,
                        log,
                    ) == (LOut::Fail { st: self@, e: er@ }) by {
                        assert(log1.is_prefix_of(log));
                        assert(s_eval(old(self)@, env as int, whole[0], fuel as nat, log)
                            == (EOut::Val { st: st1, v: gv }));
                        assert(s_eval_list(
                            st1,
                            env as int,
                            whole.subrange(1, whole.len() as int),
                            fuel as nat,
                            log,
                        ) == (LOut::Fail { st: self@, e: er@ }));
                    }
                }
                return Result::Err(er);
            },
        };
        let ghost grest = vals_view(rest@);
        let mut out: Vec<Value> = Vec::new();
        out.push(v);
        out.append(&mut rest);
        proof {
            assert(vals_view(out@) =~= seq![gv] + grest);
            assert(gval_wf(gv, self@.frames.len() as int));
            assert forall|j: int| 0 <= j < vals_view(out@).len() implies gval_wf(
                #[trigger] vals_view(out@)[j],
                self@.frames.len() as int,
            ) by {
                if j > 0 {
                    assert(vals_view(out@)[j] == grest[j - 1]);
                }
            }
            assert forall|log: Seq<GVal>| self.log@.is_prefix_of(log) implies #[trigger] s_eval_list(
                old(self)@,
                env as int,
                whole,
                fuel as nat,
                log,
            ) == (LOut::Vals { st: self@, vs: vals_view(out@) }) by {
                assert(log1.is_prefix_of(log));
                assert(s_eval(old(self)@, env as int, whole[0], fuel as nat, log)
                    == (EOut::Val { st: st1, v: gv }));
                assert(s_eval_list(
                    st1,
                    env as int,
                    whole.subrange(1, whole.len() as int),
                    fuel as nat,
                    log,
                ) == (LOut::Vals { st: self@, vs: grest }));
            }
        }
        Result::Ok(out)
    }

    /// Evaluates one expression against the given scope.
    #[verifier::rlimit(100)]
    fn eval_expr<H: NativeHost>(&mut self, host: &mut H, env: usize, e: &Expr, fuel: u64) -> (r:
        Result<Value, RuntimeError>)
        requires
            old(self).wf(),
            env < old(self)@.frames.len(),
        ensures
            final(self).wf(),
            old(self)@.frames.len() <= final(self)@.frames.len(),
            old(self).log@.is_prefix_of(final(self).log@),
            (r matches Result::Ok(v) ==> gval_wf(v@, final(self)@.frames.len() as int)),
            forall|log: Seq<GVal>| final(self).log@.is_prefix_of(log) ==> #[trigger] s_eval(
                old(self)@,
                env as int,
                *e,
                fuel as nat,
                log,
            ) == (match r {
                Result::Ok(v) => EOut::Val { st: final(self)@, v: v@ },
                Result::Err(er) => EOut::Fail { st: final(self)@, e: er@ },
            }),
        decreases fuel, expr_size(*e), 2nat,
    {
        match e {
            Expr::Literal { value } => Result::Ok(lit_to_value(value)),
            Expr::Grouping { expression } => {
                let r = self.eval_expr(host, env, &**expression, fuel);
                proof {
                    assert forall|log: Seq<GVal>| self.log@.is_prefix_of(log) implies #[trigger] s_eval(
                        old(self)@,
                        env as int,
                        *e,
                        fuel as nat,
                        log,
                    ) == (match r {
                        Result::Ok(v) => EOut::Val { st: self@, v: v@ },
                        Result::Err(er) => EOut::Fail { st: self@, e: er@ },
                    }) by {
                        assert(s_eval(old(self)@, env as int, **expression, fuel as nat, log)
                            == (match r {
                            Result::Ok(v) => EOut::Val { st: self@, v: v@ },
                            Result::Err(er) => EOut::Fail { st: self@, e: er@ },
                        }));
                    }
                }
                r
            },
            Expr::Variable { name } => {
                proof {
                    lemma_lookup_wf(self@.frames, env as int, name.lexeme@);
                }
                self.env.get(env, name)
            },
            Expr::Assign { name, value } => {
                let v = match self.eval_expr(host, env, &**value, fuel) {
                    Result::Ok(v) => v,
                    Result::Err(er) => {
                        proof {
                            assert forall|log: Seq<GVal>| self.log@.is_prefix_of(log) implies #[trigger] s_eval(
                                old(self)@,
                                env as int,
                                *e,
                                fuel as nat,
                                log,
                            ) == (EOut::Fail { st: self@, e: er@ }) by {
                                assert(s_eval(old(self)@, env as int, **value, fuel as nat, log)
                                    == (EOut::Fail { st: self@, e: er@ }));
                            }
                        }
                        return Result::Err(er);
                    },
                };
                let ghost st1 = self@;
                let ghost gv = v@;
                proof {
                    lemma_resolve_in_range(st1.frames, env as int, name.lexeme@);
                    match s_resolve(st1.frames, env as int, name.lexeme@) {
                        Some(ix) => {
                            lemma_wf_define(st1.frames, ix, name.lexeme@, gv);
                        },
                        None => {},
                    }
                }
                match self.env.assign(env, name, v.clone()) {
                    Result::Ok(_) => {
                        proof {
                            let ix = s_resolve(st1.frames, env as int, name.lexeme@).unwrap();
                            assert(self@ =~~= st_define(st1, ix, name.lexeme@, gv));
                            assert forall|log: Seq<GVal>| self.log@.is_prefix_of(log) implies #[trigger] s_eval(
                                old(self)@,
                                env as int,
                                *e,
                                fuel as nat,
                                log,
                            ) == (EOut::Val { st: self@, v: gv }) by {
                                assert(s_eval(old(self)@, env as int, **value, fuel as nat, log)
                                    == (EOut::Val { st: st1, v: gv }));
                            }
                        }
                        Result::Ok(v)
                    },
                    Result::Err(er) => {
                        proof {
                            assert forall|log: Seq<GVal>| self.log@.is_prefix_of(log) implies #[trigger] s_eval(
                                old(self)@,
                                env as int,
                                *e,
                                fuel as nat,
                                log,
                            ) == (EOut::Fail { st: self@, e: er@ }) by {
                                assert(s_eval(old(self)@, env as int, **value, fuel as nat, log)
                                    == (EOut::Val { st: st1, v: gv }));
                            }
                        }
                        Result::Err(er)
                    },
                }
            },
            Expr::Unary { operator, right } => {
                let v = match self.eval_expr(host, env, &**right, fuel) {
                    Result::Ok(v) => v,
                    Result::Err(er) => {
                        proof {
                            assert forall|log: Seq<GVal>| self.log@.is_prefix_of(log) implies #[trigger] s_eval(
                                old(self)@,
                                env as int,
                                *e,
                                fuel as nat,
                                log,
                            ) == (EOut::Fail { st: self@, e: er@ }) by {
                                assert(s_eval(old(self)@, env as int, **right, fuel as nat, log)
                                    == (EOut::Fail { st: self@, e: er@ }));
                            }
                        }
                        return Result::Err(er);
                    },
                };
                let ghost st1 = self@;
                let ghost gv = v@;
                let res = eval_unary_op(operator, v);
                proof {
                    assert forall|log: Seq<GVal>| self.log@.is_prefix_of(log) implies #[trigger] s_eval(
                        old(self)@,
                        env as int,
                        *e,
                        fuel as nat,
                        log,
                    ) == (match res {
                        Result::Ok(rv) => EOut::Val { st: self@, v: rv@ },
                        Result::Err(er) => EOut::Fail { st: self@, e: er@ },
                    }) by {
                        assert(s_eval(old(self)@, env as int, **right, fuel as nat, log)
                            == (EOut::Val { st: st1, v: gv }));
                        assert(s_unary(st1, *operator, gv) == (match res {
                            Result::Ok(rv) => EOut::Val { st: self@, v: rv@ },
                            Result::Err(er) => EOut::Fail { st: self@, e: er@ },
                        }));
                    }
                }
                res
            },
            Expr::Binary { left, operator, right } => {
                let lv = match self.eval_expr(host, env, &**left, fuel) {
                    Result::Ok(v) => v,
                    Result::Err(er) => {
                        proof {
                            assert forall|log: Seq<GVal>| self.log@.is_prefix_of(log) implies #[trigger] s_eval(
                                old(self)@,
                                env as int,
                                *e,
                                fuel as nat,
                                log,
                            ) == (EOut::Fail { st: self@, e: er@ }) by {
                                assert(s_eval(old(self)@, env as int, **left, fuel as nat, log)
                                    == (EOut::Fail { st: self@, e: er@ }));
                            }
                        }
                        return Result::Err(er);
                    },
                };
                let ghost st1 = self@;
                let ghost log1 = self.log@;
                let ghost gl = lv@;
                let rv = match self.eval_expr(host, env, &**right, fuel) {
                    Result::Ok(v) => v,
                    Result::Err(er) => {
                        proof {
                            assert forall|log: Seq<GVal>| self.log@.is_prefix_of(log) implies #[trigger] s_eval(
                                old(self)@,
                                env as int,
                                *e,
                                fuel as nat,
                                log,
                            ) == (EOut::Fail { st: self@, e: er@ }) by {
                                assert(log1.is_prefix_of(log));
                                assert(s_eval(old(self)@, env as int, **left, fuel as nat, log)
                                    == (EOut::Val { st: st1, v: gl }));
                                assert(s_eval(st1, env as int, **right, fuel as nat, log)
                                    == (EOut::Fail { st: self@, e: er@ }));
                            }
                        }
                        return Result::Err(er);
                    },
                };
                let ghost st2 = self@;
                let ghost gr = rv@;
                let res = eval_binary_op(operator, lv, rv);
                proof {
                    assert forall|log: Seq<GVal>| self.log@.is_prefix_of(log) implies #[trigger] s_eval(
                        old(self)@,
                        env as int,
                        *e,
                        fuel as nat,
                        log,
                    ) == (match res {
                        Result::Ok(rsv) => EOut::Val { st: self@, v: rsv@ },
                        Result::Err(er) => EOut::Fail { st: self@, e: er@ },
                    }) by {
                        assert(log1.is_prefix_of(log));
                        assert(s_eval(old(self)@, env as int, **left, fuel as nat, log)
                            == (EOut::Val { st: st1, v: gl }));
                        assert(s_eval(st1, env as int, **right, fuel as nat, log)
                            == (EOut::Val { st: st2, v: gr }));
                        assert(s_binop(st2, *operator, gl, gr) == (match res {
                            Result::Ok(rsv) => EOut::Val { st: self@, v: rsv@ },
                            Result::Err(er) => EOut::Fail { st: self@, e: er@ },
                        }));
                    }
                }
                res
            },
            Expr::Logical { left, operator, right } => {
                let lv = match self.eval_expr(host, env, &**left, fuel) {
                    Result::Ok(v) => v,
                    Result::Err(er) => {
                        proof {
                            assert forall|log: Seq<GVal>| self.log@.is_prefix_of(log) implies #[trigger] s_eval(
                                old(self)@,
                                env as int,
                                *e,
                                fuel as nat,
                                log,
                            ) == (EOut::Fail { st: self@, e: er@ }) by {
                                assert(s_eval(old(self)@, env as int, **left, fuel as nat, log)
                                    == (EOut::Fail { st: self@, e: er@ }));
                            }
                        }
                        return Result::Err(er);
                    },
                };
                let ghost st1 = self@;
                let ghost log1 = self.log@;
                let ghost gl = lv@;
                if operator.token_type == TokenType::Or {
                    if lv.is_truthy() {
                        proof {
                            assert forall|log: Seq<GVal>| self.log@.is_prefix_of(log) implies #[trigger] s_eval(
                                old(self)@,
                                env as int,
                                *e,
                                fuel as nat,
                                log,
                            ) == (EOut::Val { st: self@, v: gl }) by {
                                assert(s_eval(old(self)@, env as int, **left, fuel as nat, log)
                                    == (EOut::Val { st: st1, v: gl }));
                            }
                        }
                        Result::Ok(lv)
                    } else {
                        let r = self.eval_expr(host, env, &**right, fuel);
                        proof {
                            assert forall|log: Seq<GVal>| self.log@.is_prefix_of(log) implies #[trigger] s_eval(
                                old(self)@,
                                env as int,
                                *e,
                                fuel as nat,
                                log,
                            ) == (match r {
                                Result::Ok(v) => EOut::Val { st: self@, v: v@ },
                                Result::Err(er) => EOut::Fail { st: self@, e: er@ },
                            }) by {
                                assert(log1.is_prefix_of(log));
                                assert(s_eval(old(self)@, env as int, **left, fuel as nat, log)
                                    == (EOut::Val { st: st1, v: gl }));
                                assert(s_eval(st1, env as int, **right, fuel as nat, log)
                                    == (match r {
                                    Result::Ok(v) => EOut::Val { st: self@, v: v@ },
                                    Result::Err(er) => EOut::Fail { st: self@, e: er@ },
                                }));
                            }
                        }
                        r
                    }
                } else if operator.token_type == TokenType::And {
                    if !lv.is_truthy() {
                        proof {
                            assert forall|log: Seq<GVal>| self.log@.is_prefix_of(log) implies #[trigger] s_eval(
                                old(self)@,
                                env as int,
                                *e,
                                fuel as nat,
                                log,
                            ) == (EOut::Val { st: self@, v: gl }) by {
                                assert(s_eval(old(self)@, env as int, **left, fuel as nat, log)
                                    == (EOut::Val { st: st1, v: gl }));
                            }
                        }
                        Result::Ok(lv)
                    } else {
                        let r = self.eval_expr(host, env, &**right, fuel);
                        proof {
                            assert forall|log: Seq<GVal>| self.log@.is_prefix_of(log) implies #[trigger] s_eval(
                                old(self)@,
                                env as int,
                                *e,
                                fuel as nat,
                                log,
                            ) == (match r {
                                Result::Ok(v) => EOut::Val { st: self@, v: v@ },
                                Result::Err(er) => EOut::Fail { st: self@, e: er@ },
                            }) by {
                                assert(log1.is_prefix_of(log));
                                assert(s_eval(old(self)@, env as int, **left, fuel as nat, log)
                                    == (EOut::Val { st: st1, v: gl }));
                                assert(s_eval(st1, env as int, **right, fuel as nat, log)
                                    == (match r {
                                    Result::Ok(v) => EOut::Val { st: self@, v: v@ },
                                    Result::Err(er) => EOut::Fail { st: self@, e: er@ },
                                }));
                            }
                        }
                        r
                    }
                } else {
                    proof {
                        assert forall|log: Seq<GVal>| self.log@.is_prefix_of(log) implies #[trigger] s_eval(
                            old(self)@,
                            env as int,
                            *e,
                            fuel as nat,
                            log,
                        ) == (EOut::Fail {
                            st: self@,
                            e: GErr::TypeError {
                                operator: operator.lexeme@,
                                line: operator.line as int,
                            },
                        }) by {
                            assert(s_eval(old(self)@, env as int, **left, fuel as nat, log)
                                == (EOut::Val { st: st1, v: gl }));
                        }
                    }
                    Result::Err(
                        RuntimeError::TypeError {
                            operator: operator.lexeme.clone(),
                            line: operator.line,
                        },
                    )
                }
            },
            Expr::Call { callee, paren, arguments } => {
                let cv = match self.eval_expr(host, env, &**callee, fuel) {
                    Result::Ok(v) => v,
                    Result::Err(er) => {
                        proof {
                            assert forall|log: Seq<GVal>| self.log@.is_prefix_of(log) implies #[trigger] s_eval(
                                old(self)@,
                                env as int,
                                *e,
                                fuel as nat,
                                log,
                            ) == (EOut::Fail { st: self@, e: er@ }) by {
                                assert(s_eval(old(self)@, env as int, **callee, fuel as nat, log)
                                    == (EOut::Fail { st: self@, e: er@ }));
                            }
                        }
                        return Result::Err(er);
                    },
                };
                let ghost st1 = self@;
                let ghost log1 = self.log@;
                let ghost gc = cv@;
                proof {
                    assert(arguments@.subrange(0, arguments@.len() as int) =~= arguments@);
                }
                let args = match self.eval_args(host, env, arguments, 0, fuel) {
                    Result::Ok(vs) => vs,
                    Result::Err(er) => {
                        proof {
                            assert forall|log: Seq<GVal>| self.log@.is_prefix_of(log) implies #[trigger] s_eval(
                                old(self)@,
                                env as int,
                                *e,
                                fuel as nat,
                                log,
                            ) == (EOut::Fail { st: self@, e: er@ }) by {
                                assert(log1.is_prefix_of(log));
                                assert(s_eval(old(self)@, env as int, **callee, fuel as nat, log)
                                    == (EOut::Val { st: st1, v: gc }));
                                assert(s_eval_list(st1, env as int, arguments@, fuel as nat, log)
                                    == (LOut::Fail { st: self@, e: er@ }));
                            }
                        }
                        return Result::Err(er);
                    },
                };
                let ghost st2 = self@;
                let ghost log2 = self.log@;
                let ghost gargs = vals_view(args@);
                match cv {
                    Value::Callable(callable) => {
                        let r = callable.call(self, host, args, paren.line, fuel);
                        proof {
                            assert forall|log: Seq<GVal>| self.log@.is_prefix_of(log) implies #[trigger] s_eval(
                                old(self)@,
                                env as int,
                                *e,
                                fuel as nat,
                                log,
                            ) == (match r {
                                Result::Ok(v) => EOut::Val { st: self@, v: v@ },
                                Result::Err(er) => EOut::Fail { st: self@, e: er@ },
                            }) by {
                                assert(log1.is_prefix_of(log));
                                assert(log2.is_prefix_of(log));
                                assert(s_eval(old(self)@, env as int, **callee, fuel as nat, log)
                                    == (EOut::Val { st: st1, v: gc }));
                                assert(s_eval_list(st1, env as int, arguments@, fuel as nat, log)
                                    == (LOut::Vals { st: st2, vs: gargs }));
                                assert(s_call(st2, gc, gargs, paren.line as int, fuel as nat, log)
                                    == (match r {
                                    Result::Ok(v) => EOut::Val { st: self@, v: v@ },
                                    Result::Err(er) => EOut::Fail { st: self@, e: er@ },
                                }));
                            }
                        }
                        r
                    },
                    other => {
                        proof {
                            match other {
                                Value::Number(_) => {},
                                Value::Str(_) => {},
                                Value::Boolean(_) => {},
                                Value::Nil => {},
                                Value::Callable(_) => {
                                    assert(false);
                                },
                            }
                            assert(gc is Num || gc is Str || gc is Bool || gc is Nil);
                            assert forall|log: Seq<GVal>| self.log@.is_prefix_of(log) implies #[trigger] s_eval(
                                old(self)@,
                                env as int,
                                *e,
                                fuel as nat,
                                log,
                            ) == (EOut::Fail {
                                st: self@,
                                e: GErr::NotCallable { line: paren.line as int },
                            }) by {
                                assert(log1.is_prefix_of(log));
                                assert(s_eval(old(self)@, env as int, **callee, fuel as nat, log)
                                    == (EOut::Val { st: st1, v: gc }));
                                assert(s_eval_list(st1, env as int, arguments@, fuel as nat, log)
                                    == (LOut::Vals { st: self@, vs: gargs }));
                                assert(s_call(
                                    self@,
                                    gc,
                                    gargs,
                                    paren.line as int,
                                    fuel as nat,
                                    log,
                                ) == (EOut::Fail {
                                    st: self@,
                                    e: GErr::NotCallable { line: paren.line as int },
                                }));
                            }
                        }
                        Result::Err(RuntimeError::NotCallable { line: paren.line })
                    },
                }
            },
        }
    }
}

/// The display form, re-exported under a local name so the `Print`
/// proofs can speak of it.
pub open spec fn val_display_of(v: GVal) -> Seq<char> {
    crate::display::val_display(v)
}

/// Applies a unary operator to an evaluated operand, exactly as
/// `s_unary` states, whatever state the evaluator is in.
fn eval_unary_op(op: &crate::token::Token, v: Value) -> (res: Result<Value, RuntimeError>)
    ensures
        forall|st: GState| #[trigger] s_unary(st, *op, v@) == (match res {
            Result::Ok(rv) => EOut::Val { st, v: rv@ },
            Result::Err(er) => EOut::Fail { st, e: er@ },
        }),
        (res matches Result::Ok(rv) ==> forall|n: int| gval_wf(rv@, n)),
{
    match op.token_type {
        TokenType::Bang => Result::Ok(Value::from_bool(!v.is_truthy())),
        TokenType::Minus => match v {
            Value::Number(n) => {
                if n == i64::MIN {
                    Result::Err(RuntimeError::Overflow { line: op.line })
                } else {
                    Result::Ok(Value::Number(-n))
                }
            },
            _ => Result::Err(
                RuntimeError::TypeError { operator: op.lexeme.clone(), line: op.line },
            ),
        },
        _ => Result::Err(RuntimeError::TypeError { operator: op.lexeme.clone(), line: op.line }),
    }
}

/// Applies a binary operator to two evaluated operands, exactly as
/// `s_binop` states, whatever state the evaluator is in.
fn eval_binary_op(op: &crate::token::Token, l: Value, r: Value) -> (res: Result<
    Value,
    RuntimeError,
>)
    ensures
        forall|st: GState| #[trigger] s_binop(st, *op, l@, r@) == (match res {
            Result::Ok(rv) => EOut::Val { st, v: rv@ },
            Result::Err(er) => EOut::Fail { st, e: er@ },
        }),
        (res matches Result::Ok(rv) ==> forall|n: int| gval_wf(rv@, n)),
{
    match op.token_type {
        TokenType::Plus => match (&l, &r) {
            (Value::Number(a), Value::Number(b)) => {
                let s: i128 = *a as i128 + *b as i128;
                if s < -0x8000_0000_0000_0000i128 || s > 0x7fff_ffff_ffff_ffffi128 {
                    Result::Err(RuntimeError::Overflow { line: op.line })
                } else {
                    Result::Ok(Value::Number(s as i64))
                }
            },
            (Value::Str(a), Value::Str(b)) => {
                let mut t = a.clone();
                t.append(b.as_str());
                Result::Ok(Value::Str(t))
            },
            _ => Result::Err(
                RuntimeError::TypeError { operator: op.lexeme.clone(), line: op.line },
            ),
        },
        TokenType::Minus => match (&l, &r) {
            (Value::Number(a), Value::Number(b)) => {
                let s: i128 = *a as i128 - *b as i128;
                if s < -0x8000_0000_0000_0000i128 || s > 0x7fff_ffff_ffff_ffffi128 {
                    Result::Err(RuntimeError::Overflow { line: op.line })
                } else {
                    Result::Ok(Value::Number(s as i64))
                }
            },
            _ => Result::Err(
                RuntimeError::TypeError { operator: op.lexeme.clone(), line: op.line },
            ),
        },
        TokenType::Star => match (&l, &r) {
            (Value::Number(a), Value::Number(b)) => {
                proof {
                    assert((*a as int) * (*b as int) < 0x8000_0000_0000_0000_0000_0000_0000_0000int
                        && (*a as int) * (*b as int)
                        > -0x8000_0000_0000_0000_0000_0000_0000_0000int) by (nonlinear_arith)
                        requires
                            -0x8000_0000_0000_0000 <= *a as int <= 0x7fff_ffff_ffff_ffff,
                            -0x8000_0000_0000_0000 <= *b as int <= 0x7fff_ffff_ffff_ffff,
                    ;
                }
                let s: i128 = *a as i128 * *b as i128;
                if s < -0x8000_0000_0000_0000i128 || s > 0x7fff_ffff_ffff_ffffi128 {
                    Result::Err(RuntimeError::Overflow { line: op.line })
                } else {
                    Result::Ok(Value::Number(s as i64))
                }
            },
            _ => Result::Err(
                RuntimeError::TypeError { operator: op.lexeme.clone(), line: op.line },
            ),
        },
        TokenType::Slash => match (&l, &r) {
            (Value::Number(a), Value::Number(b)) => eval_division(op, *a, *b),
            _ => Result::Err(
                RuntimeError::TypeError { operator: op.lexeme.clone(), line: op.line },
            ),
        },
        TokenType::Greater => match (&l, &r) {
            (Value::Number(a), Value::Number(b)) => Result::Ok(Value::from_bool(*a > *b)),
            _ => Result::Err(
                RuntimeError::TypeError { operator: op.lexeme.clone(), line: op.line },
            ),
        },
        TokenType::GreaterEqual => match (&l, &r) {
            (Value::Number(a), Value::Number(b)) => Result::Ok(Value::from_bool(*a >= *b)),
            _ => Result::Err(
                RuntimeError::TypeError { operator: op.lexeme.clone(), line: op.line },
            ),
        },
        TokenType::Less => match (&l, &r) {
            (Value::Number(a), Value::Number(b)) => Result::Ok(Value::from_bool(*a < *b)),
            _ => Result::Err(
                RuntimeError::TypeError { operator: op.lexeme.clone(), line: op.line },
            ),
        },
        TokenType::LessEqual => match (&l, &r) {
            (Value::Number(a), Value::Number(b)) => Result::Ok(Value::from_bool(*a <= *b)),
            _ => Result::Err(
                RuntimeError::TypeError { operator: op.lexeme.clone(), line: op.line },
            ),
        },
        TokenType::BangEqual => Result::Ok(Value::from_bool(!l.is_equal(&r))),
        TokenType::EqualEqual => Result::Ok(Value::from_bool(l.is_equal(&r))),
        _ => Result::Err(RuntimeError::TypeError { operator: op.lexeme.clone(), line: op.line }),
    }
}

/// Truncating division on numbers: quotient of the magnitudes, negated
/// when the signs differ; division by zero and the one overflowing case
/// are errors.
fn eval_division(op: &crate::token::Token, a: i64, b: i64) -> (res: Result<Value, RuntimeError>)
    requires
        op.token_type == TokenType::Slash,
    ensures
        forall|st: GState| #[trigger] s_binop(st, *op, GVal::Num(a), GVal::Num(b)) == (match res {
            Result::Ok(rv) => EOut::Val { st, v: rv@ },
            Result::Err(er) => EOut::Fail { st, e: er@ },
        }),
        (res matches Result::Ok(rv) ==> forall|n: int| gval_wf(rv@, n)),
{
    if b == 0 {
        return Result::Err(RuntimeError::DivisionByZero { line: op.line });
    }
    let ma: u64 = if a < 0 {
        (-(a as i128)) as u64
    } else {
        a as u64
    };
    let mb: u64 = if b < 0 {
        (-(b as i128)) as u64
    } else {
        b as u64
    };
    let q: u64 = ma / mb;
    proof {
        assert(ma as nat == crate::display::mag(a));
        assert(mb as nat == crate::display::mag(b));
        assert(q <= ma) by (nonlinear_arith)
            requires
                mb >= 1,
                q == ma / mb,
        ;
    }
    if (a < 0) == (b < 0) {
        if q <= 0x7fff_ffff_ffff_ffffu64 {
            Result::Ok(Value::Number(q as i64))
        } else {
            Result::Err(RuntimeError::Overflow { line: op.line })
        }
    } else {
        Result::Ok(Value::Number((-(q as i128)) as i64))
    }
}

} // verus!
