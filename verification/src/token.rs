//! Tokens, runtime values and their ghost models.
use vstd::prelude::*;

use crate::lox_callable::LoxCallable;
use crate::stmt::Stmt;

verus! {

/// The lexical kind of a token.
#[derive(Clone, Copy, PartialEq, Eq, Structural, Debug)]
pub enum TokenType {
    LeftParen,
    RightParen,
    LeftBrace,
    RightBrace,
    Comma,
    Dot,
    Minus,
    Plus,
    Semicolon,
    Slash,
    Star,
    Bang,
    BangEqual,
    Equal,
    EqualEqual,
    Greater,
    GreaterEqual,
    Less,
    LessEqual,
    Identifier,
    Str,
    Num,
    And,
    Class,
    Else,
    False,
    Fun,
    For,
    If,
    Nil,
    Or,
    Print,
    Return,
    Super,
    This,
    True,
    Var,
    While,
    Eof,
}

/// The literal payload of a token or of a literal expression.  A literal is
/// always a plain value: numbers, strings, the two booleans and nil.  A
/// callable can never occur as a literal, which keeps every syntax tree a
/// valid program.
#[derive(Debug)]
pub enum Lit {
    Num(i64),
    Str(String),
    True,
    False,
    Nil,
}

/// A token produced by the scanner: its kind, the raw lexeme, an optional
/// literal payload (`Lit::Nil` when the kind carries none) and the source
/// line it came from.
#[derive(Debug)]
pub struct Token {
    pub token_type: TokenType,
    pub lexeme: String,
    pub literal: Lit,
    pub line: usize,
}

/// A runtime value: the closed tagged union the interpreter computes with.
#[derive(Debug)]
pub enum Value {
    Number(i64),
    Str(String),
    Boolean(bool),
    Nil,
    Callable(LoxCallable),
}

/// The ghost model of a runtime value.  Strings become character
/// sequences; a user function keeps its parameter names, its body and the
/// index of its captured scope; a native function keeps its name and arity.
pub ghost enum GVal {
    Num(i64),
    Str(Seq<char>),
    Bool(bool),
    Nil,
    Fun { name: Seq<char>, params: Seq<Seq<char>>, body: Seq<Stmt>, closure: int },
    Native { name: Seq<char>, arity: int },
}

/// The model of a literal.
pub open spec fn lit_view(l: Lit) -> GVal {
    match l {
        Lit::Num(n) => GVal::Num(n),
        Lit::Str(s) => GVal::Str(s@),
        Lit::True => GVal::Bool(true),
        Lit::False => GVal::Bool(false),
        Lit::Nil => GVal::Nil,
    }
}

impl View for Value {
    type V = GVal;

    open spec fn view(&self) -> GVal {
        match self {
            Value::Number(n) => GVal::Num(*n),
            Value::Str(s) => GVal::Str(s@),
            Value::Boolean(b) => GVal::Bool(*b),
            Value::Nil => GVal::Nil,
            Value::Callable(c) => c@,
        }
    }
}

/// The models of a sequence of values.
pub open spec fn vals_view(s: Seq<Value>) -> Seq<GVal> {
    s.map_values(|v: Value| v@)
}

/// Truthiness: only nil and false are falsy; every other value, including
/// the number zero and the empty string, is truthy.
pub open spec fn truthy(v: GVal) -> bool {
    !(v == GVal::Nil || v == GVal::Bool(false))
}

/// Value equality: total over the whole union.  Nil equals only nil,
/// numbers, strings and booleans compare structurally, and no callable is
/// ever equal to another value, itself included.
pub open spec fn val_eq(a: GVal, b: GVal) -> bool {
    match (a, b) {
        (GVal::Nil, GVal::Nil) => true,
        (GVal::Num(x), GVal::Num(y)) => x == y,
        (GVal::Str(x), GVal::Str(y)) => x == y,
        (GVal::Bool(x), GVal::Bool(y)) => x == y,
        _ => false,
    }
}

/// Turns a literal into the runtime value it denotes.
pub fn lit_to_value(l: &Lit) -> (v: Value)
    ensures
        v@ == lit_view(*l),
{
    match l {
        Lit::Num(n) => Value::Number(*n),
        Lit::Str(s) => Value::Str(s.clone()),
        Lit::True => Value::Boolean(true),
        Lit::False => Value::Boolean(false),
        Lit::Nil => Value::Nil,
    }
}

impl Value {
    /// Wraps a host boolean as a value.
    pub fn from_bool(b: bool) -> (v: Self)
        ensures
            v@ == GVal::Bool(b),
    {
        if b {
            Value::Boolean(true)
        } else {
            Value::Boolean(false)
        }
    }

    /// Decides truthiness, exactly as `truthy` states it.
    pub fn is_truthy(&self) -> (r: bool)
        ensures
            r == truthy(self@),
    {
        match self {
            Value::Nil => false,
            Value::Boolean(b) => *b,
            _ => true,
        }
    }

    /// Value equality; total, never fails, exactly `val_eq`.
    pub fn is_equal(&self, other: &Value) -> (r: bool)
        ensures
            r == val_eq(self@, other@),
    {
        match (self, other) {
            (Value::Nil, Value::Nil) => true,
            (Value::Number(x), Value::Number(y)) => *x == *y,
            (Value::Str(x), Value::Str(y)) => x.eq(y),
            (Value::Boolean(x), Value::Boolean(y)) => *x == *y,
            _ => false,
        }
    }
}

impl Clone for Lit {
    fn clone(&self) -> (r: Self)
        ensures
            r == *self,
    {
        match self {
            Lit::Num(n) => Lit::Num(*n),
            Lit::Str(s) => Lit::Str(s.clone()),
            Lit::True => Lit::True,
            Lit::False => Lit::False,
            Lit::Nil => Lit::Nil,
        }
    }
}

impl Clone for Token {
    fn clone(&self) -> (r: Self)
        ensures
            r == *self,
    {
        Token {
            token_type: self.token_type,
            lexeme: self.lexeme.clone(),
            literal: self.literal.clone(),
            line: self.line,
        }
    }
}

impl Clone for Value {
    fn clone(&self) -> (r: Self)
        ensures
            r == *self,
    {
        match self {
            Value::Number(n) => Value::Number(*n),
            Value::Str(s) => Value::Str(s.clone()),
            Value::Boolean(b) => Value::Boolean(*b),
            Value::Nil => Value::Nil,
            Value::Callable(c) => Value::Callable(c.clone()),
        }
    }
}

} // verus!
