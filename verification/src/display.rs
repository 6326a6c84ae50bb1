//! The display form of values: what `print` writes.
use vstd::prelude::*;

use vstd::string::StringExecFns;

use crate::token::GVal;
use crate::token::Value;

verus! {

/// The character for one decimal digit.
pub open spec fn digit_char(d: int) -> char {
    if d == 0 {
        '0'
    } else if d == 1 {
        '1'
    } else if d == 2 {
        '2'
    } else if d == 3 {
        '3'
    } else if d == 4 {
        '4'
    } else if d == 5 {
        '5'
    } else if d == 6 {
        '6'
    } else if d == 7 {
        '7'
    } else if d == 8 {
        '8'
    } else {
        '9'
    }
}

/// The decimal digits of a natural number, most significant first.
pub open spec fn dec_str(n: nat) -> Seq<char>
    decreases n,
{
    if n < 10 {
        seq![digit_char(n as int)]
    } else {
        dec_str(n / 10) + seq![digit_char((n % 10) as int)]
    }
}

/// The magnitude of a number as a natural.
pub open spec fn mag(a: i64) -> nat {
    if a < 0 {
        (-(a as int)) as nat
    } else {
        a as nat
    }
}

/// The decimal rendering of a number, with a leading minus sign when
/// negative.
pub open spec fn int_display(n: i64) -> Seq<char> {
    if n < 0 {
        seq!['-'] + dec_str(mag(n))
    } else {
        dec_str(mag(n))
    }
}

/// The display form of a value: numbers in decimal, strings raw,
/// booleans as `true`/`false`, nil as `nil` and any callable as
/// `function`.
pub open spec fn val_display(v: GVal) -> Seq<char> {
    match v {
        GVal::Num(n) => int_display(n),
        GVal::Str(s) => s,
        GVal::Bool(b) => if b {
            "true"@
        } else {
            "false"@
        },
        GVal::Nil => "nil"@,
        GVal::Fun { name, params, body, closure } => "function"@,
        GVal::Native { name, arity } => "function"@,
    }
}

/// Relies on `String::push` from std: appends one character at the end.
#[verifier::external_body]
pub(crate) fn push_char(s: &mut String, c: char)
    ensures
        final(s)@ == old(s)@.push(c),
{
    s.push(c);
}

/// The character of one digit.
fn digit_to_char(d: u64) -> (c: char)
    requires
        d < 10,
    ensures
        c == digit_char(d as int),
{
    if d == 0 {
        '0'
    } else if d == 1 {
        '1'
    } else if d == 2 {
        '2'
    } else if d == 3 {
        '3'
    } else if d == 4 {
        '4'
    } else if d == 5 {
        '5'
    } else if d == 6 {
        '6'
    } else if d == 7 {
        '7'
    } else if d == 8 {
        '8'
    } else {
        '9'
    }
}

/// Renders a natural number in decimal.
pub fn dec_string(n: u64) -> (s: String)
    ensures
        s@ == dec_str(n as nat),
    decreases n,
{
    if n < 10 {
        let mut s = String::new();
        push_char(&mut s, digit_to_char(n));
        proof {
            assert(s@ =~= dec_str(n as nat));
        }
        s
    } else {
        let mut s = dec_string(n / 10);
        push_char(&mut s, digit_to_char(n % 10));
        proof {
            assert(s@ =~= dec_str((n / 10) as nat) + seq![digit_char((n % 10) as int)]);
        }
        s
    }
}

/// Renders a number in decimal, minus sign included.
pub fn number_string(n: i64) -> (s: String)
    ensures
        s@ == int_display(n),
{
    if n < 0 {
        let m: u64 = (-(n as i128)) as u64;
        proof {
            assert(m as nat == mag(n));
        }
        let mut s = String::new();
        push_char(&mut s, '-');
        let digits = dec_string(m);
        s.append(digits.as_str());
        proof {
            assert(s@ =~= seq!['-'] + dec_str(mag(n)));
        }
        s
    } else {
        let m: u64 = n as u64;
        dec_string(m)
    }
}

/// Renders a value for `print`, exactly as `val_display` states.
pub fn to_display_string(v: &Value) -> (s: String)
    ensures
        s@ == val_display(v@),
{
    match v {
        Value::Number(n) => number_string(*n),
        Value::Str(s) => s.clone(),
        Value::Boolean(b) => {
            if *b {
                "true".to_owned()
            } else {
                "false".to_owned()
            }
        },
        Value::Nil => "nil".to_owned(),
        Value::Callable(c) => "function".to_owned(),
    }
}

} // verus!
