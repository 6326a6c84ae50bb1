//! Registration of the built-in native functions.
use vstd::prelude::*;

use crate::environment::Environment;
use crate::environment::GFrame;
use crate::lox_callable::BuiltInFunction;
use crate::lox_callable::LoxCallable;
use crate::token::GVal;
use crate::token::Value;

verus! {

/// Defines the built-in natives in the global scope: a single
/// `clock`-like function of no arguments.  What it returns is the
/// host's business (see `NativeHost`); here it only becomes a callable
/// value under its name.
pub fn register_builtins(environment: &mut Environment)
    requires
        old(environment)@.len() >= 1,
    ensures
        final(environment)@ =~= old(environment)@.update(
            0,
            GFrame {
                vars: old(environment)@[0].vars.insert(
                    "clock"@,
                    GVal::Native { name: "clock"@, arity: 0 },
                ),
                parent: old(environment)@[0].parent,
            },
        ),
{
    environment.define(
        0,
        "clock".to_owned(),
        Value::Callable(
            LoxCallable::BuiltIn(BuiltInFunction { name: "clock".to_owned(), arity: 0 }),
        ),
    );
}

} // verus!
