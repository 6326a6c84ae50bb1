//! First-class functions: user-defined closures and registered natives.
use vstd::prelude::*;

use std::rc::Rc;

use crate::environment::GFrame;
use crate::environment::frame_vals_wf;
use crate::environment::gval_wf;
use crate::environment::lemma_wf_define;
use crate::environment::lemma_wf_push;
use crate::environment::vals_wf;
use crate::error::RuntimeError;
use crate::interpreter::Interpreter;
use crate::interpreter::NativeHost;
use crate::semantics::EOut;
use crate::semantics::GState;
use crate::semantics::SOut;
use crate::semantics::s_exec_stmts;
use crate::semantics::bind_params;
use crate::semantics::lemma_prefix_char;
use crate::semantics::s_call;
use crate::stmt::FunDecl;
use crate::token::GVal;
use crate::token::Token;
use crate::token::Value;
use crate::token::lit_to_value;
use crate::token::vals_view;

verus! {

broadcast use lemma_prefix_char;

/// Relies on `Rc::clone` from std: cloning a reference-counted pointer
/// only bumps the count and hands back a pointer to the same value.
#[verifier::external_body]
pub(crate) fn rc_clone<T>(rc: &Rc<T>) -> (res: Rc<T>)
    ensures
        res == *rc,
{
    Rc::clone(rc)
}

/// A native function registered by the host: its name and arity.  What it
/// computes is the host's business; the interpreter only checks the arity
/// and hands the evaluated arguments over.
#[derive(Debug)]
pub struct BuiltInFunction {
    pub name: String,
    pub arity: usize,
}

/// A callable value: either a registered native or a user function paired
/// with the scope it was declared in (its closure).
#[derive(Debug)]
pub enum LoxCallable {
    BuiltIn(BuiltInFunction),
    LoxFunction { decl: Rc<FunDecl>, closure: usize },
}

impl View for LoxCallable {
    type V = GVal;

    open spec fn view(&self) -> GVal {
        match self {
            LoxCallable::BuiltIn(b) => GVal::Native { name: b.name@, arity: b.arity as int },
            LoxCallable::LoxFunction { decl, closure } => GVal::Fun {
                name: (**decl).name.lexeme@,
                params: (**decl).params@.map_values(|t: Token| t.lexeme@),
                body: (**decl).body@,
                closure: *closure as int,
            },
        }
    }
}

impl LoxCallable {
    /// The single calling convention (see `s_call`): check the arity,
    /// then either run a user function's body in a fresh scope enclosed
    /// by its captured closure scope — the parameters bound to the
    /// arguments in declared order, a body without a return signal
    /// yielding nil — or hand a native call to the host and record what
    /// it returned.
    #[verifier::rlimit(100)]
    pub fn call<H: NativeHost>(
        &self,
        interpreter: &mut Interpreter,
        host: &mut H,
        arguments: Vec<Value>,
        line: usize,
        fuel: u64,
    ) -> (r: Result<Value, RuntimeError>)
        requires
            old(interpreter).wf(),
            gval_wf(self@, old(interpreter)@.frames.len() as int),
            vals_wf(vals_view(arguments@), old(interpreter)@.frames.len() as int),
        ensures
            final(interpreter).wf(),
            old(interpreter)@.frames.len() <= final(interpreter)@.frames.len(),
            old(interpreter).log@.is_prefix_of(final(interpreter).log@),
            (r matches Result::Ok(v) ==> gval_wf(v@, final(interpreter)@.frames.len() as int)),
            forall|log: Seq<GVal>| final(interpreter).log@.is_prefix_of(log) ==> #[trigger] s_call(
                old(interpreter)@,
                self@,
                vals_view(arguments@),
                line as int,
                fuel as nat,
                log,
            ) == (match r {
                Result::Ok(v) => EOut::Val { st: final(interpreter)@, v: v@ },
                Result::Err(er) => EOut::Fail { st: final(interpreter)@, e: er@ },
            }),
        decreases fuel, 0nat, 4nat,
    {
        match self {
            LoxCallable::BuiltIn(b) => {
                if arguments.len() != b.arity {
                    return Result::Err(
                        RuntimeError::ArityMismatch {
                            expected: b.arity,
                            got: arguments.len(),
                            line,
                        },
                    );
                }
                let lit = host.call_native(b.name.as_str(), &arguments);
                let v = lit_to_value(&lit);
                proof {
                    interpreter.log@ = interpreter.log@ + seq![v@];
                }
                proof {
                    assert(old(interpreter).log@.is_prefix_of(interpreter.log@));
                    assert(interpreter@ =~~= (GState {
                        used: old(interpreter)@.used + 1,
                        ..old(interpreter)@
                    }));
                    assert forall|log: Seq<GVal>|
                        interpreter.log@.is_prefix_of(log) implies #[trigger] s_call(
                        old(interpreter)@,
                        self@,
                        vals_view(arguments@),
                        line as int,
                        fuel as nat,
                        log,
                    ) == (EOut::Val { st: interpreter@, v: v@ }) by {
                        assert(log[old(interpreter)@.used] == v@);
                    }
                }
                Result::Ok(v)
            },
            LoxCallable::LoxFunction { decl, closure } => {
                let n = decl.params.len();
                if arguments.len() != n {
                    return Result::Err(
                        RuntimeError::ArityMismatch { expected: n, got: arguments.len(), line },
                    );
                }
                if fuel == 0 {
                    return Result::Err(RuntimeError::ResourceExhausted);
                }
                let ghost st0 = interpreter@;
                let ghost pv = (**decl).params@.map_values(|t: Token| t.lexeme@);
                let ghost av = vals_view(arguments@);
                let callee_env = interpreter.env.new_scope(*closure);
                proof {
                    let empty_frame = GFrame {
                        vars: Map::empty(),
                        parent: Some(*closure as int),
                    };
                    assert(frame_vals_wf(empty_frame, st0.frames.len() as int));
                    lemma_wf_push(st0.frames, empty_frame);
                    assert(interpreter@.frames =~= st0.frames.push(empty_frame));
                    assert(interpreter@.frames.update(
                        callee_env as int,
                        empty_frame,
                    ) =~= interpreter@.frames);
                    assert(bind_params(pv.subrange(0, 0), av) =~= Map::<Seq<char>, GVal>::empty());
                }
                let ghost st_entry = interpreter@;
                let mut i: usize = 0;
                while i < n
                    invariant
                        interpreter.wf(),
                        i <= n,
                        n == (**decl).params@.len(),
                        n == arguments@.len(),
                        pv == (**decl).params@.map_values(|t: Token| t.lexeme@),
                        av == vals_view(arguments@),
                        vals_wf(av, st_entry.frames.len() as int - 1),
                        callee_env as int == st_entry.frames.len() - 1,
                        st_entry.frames.len() == interpreter@.frames.len(),
                        interpreter@ =~~= (GState {
                            frames: st_entry.frames.update(
                                callee_env as int,
                                GFrame {
                                    vars: bind_params(pv.subrange(0, i as int), av),
                                    parent: Some(*closure as int),
                                },
                            ),
                            ..st_entry
                        }),
                        interpreter.log@ == old(interpreter).log@,
                    decreases n - i,
                {
                    let pname = decl.params[i].lexeme.clone();
                    let varg = arguments[i].clone();
                    proof {
                        assert(av[i as int] == arguments@[i as int]@);
                        assert(gval_wf(varg@, interpreter@.frames.len() as int));
                        lemma_wf_define(
                            interpreter@.frames,
                            callee_env as int,
                            pname@,
                            varg@,
                        );
                    }
                    let ghost st_i = interpreter@;
                    interpreter.env.define(callee_env, pname, varg);
                    proof {
                        assert(pv.subrange(0, i + 1).subrange(0, i as int) =~= pv.subrange(
                            0,
                            i as int,
                        ));
                        assert(pv.subrange(0, i + 1)[i as int] == pv[i as int]);
                        assert(bind_params(pv.subrange(0, i + 1), av) == bind_params(
                            pv.subrange(0, i as int),
                            av,
                        ).insert(pv[i as int], av[i as int]));
                        assert(pv[i as int] == (**decl).params@[i as int].lexeme@);
                        assert(interpreter@ =~~= (GState {
                            frames: st_entry.frames.update(
                                callee_env as int,
                                GFrame {
                                    vars: bind_params(pv.subrange(0, i + 1), av),
                                    parent: Some(*closure as int),
                                },
                            ),
                            ..st_entry
                        }));
                    }
                    i = i + 1;
                }
                proof {
                    assert(pv.subrange(0, n as int) =~= pv);
                    assert(interpreter@.frames =~= st0.frames.push(
                        GFrame { vars: bind_params(pv, av), parent: Some(*closure as int) },
                    ));
                    assert(interpreter@ =~~= (GState {
                        frames: st0.frames.push(
                            GFrame { vars: bind_params(pv, av), parent: Some(*closure as int) },
                        ),
                        ..st0
                    }));
                }
                let ghost st_bound = interpreter@;
                let ghost log_bound = interpreter.log@;
                let r = interpreter.execute_block(host, &decl.body, callee_env, fuel - 1);
                proof {
                    assert forall|log: Seq<GVal>|
                        interpreter.log@.is_prefix_of(log) implies #[trigger] s_call(
                        old(interpreter)@,
                        self@,
                        vals_view(arguments@),
                        line as int,
                        fuel as nat,
                        log,
                    ) == (match r {
                        Result::Ok(v) => EOut::Val { st: interpreter@, v: v@ },
                        Result::Err(er) => EOut::Fail { st: interpreter@, e: er@ },
                    }) by {
                        assert(log_bound.is_prefix_of(log));
                        match s_exec_stmts(
                            st_bound,
                            callee_env as int,
                            (**decl).body@,
                            (fuel - 1) as nat,
                            log,
                        ) {
                            SOut::Norm { st } => {
                                assert(st == interpreter@);
                            },
                            SOut::Ret { st, v } => {
                                assert(st == interpreter@);
                            },
                            SOut::Fail { st, e } => {
                                assert(st == interpreter@);
                            },
                        }
                    }
                }
                r
            },
        }
    }
}

impl Clone for BuiltInFunction {
    fn clone(&self) -> (r: Self)
        ensures
            r == *self,
    {
        BuiltInFunction { name: self.name.clone(), arity: self.arity }
    }
}

impl Clone for LoxCallable {
    fn clone(&self) -> (r: Self)
        ensures
            r == *self,
    {
        match self {
            LoxCallable::BuiltIn(b) => LoxCallable::BuiltIn(b.clone()),
            LoxCallable::LoxFunction { decl, closure } => LoxCallable::LoxFunction {
                decl: rc_clone(decl),
                closure: *closure,
            },
        }
    }
}

} // verus!
