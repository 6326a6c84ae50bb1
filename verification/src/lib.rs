//! A tree-walking evaluator for a small dynamically typed scripting
//! language: a scanner turns source text into tokens, a recursive-descent
//! parser turns tokens into an abstract syntax tree, and an interpreter
//! walks that tree against a chained lexical-scope model.
//!
//! The behaviour of the parser is pinned down by the grammar relations of
//! `grammar`; the behaviour of the interpreter by the fuel-indexed
//! big-step semantics of `semantics`.  `run` wires the pipeline together
//! for a host: it never prints and never aborts, handing back the output
//! lines and the first failure, if any, as values.
use vstd::prelude::*;

pub mod token;
pub mod expr;
pub mod stmt;
pub mod lox_callable;
pub mod error;
pub mod environment;
pub mod display;
pub mod semantics;
pub mod interpreter;
pub mod built_in;
pub mod grammar;
pub mod scoping;
pub mod parser;
pub mod scanner;
pub mod ast_printer;

use crate::display::dec_str;
use crate::display::dec_string;
use crate::environment::GFrame;
use crate::error::ParseError;
use crate::error::RuntimeError;
use crate::grammar::is_program;
use crate::interpreter::DEFAULT_FUEL;
use crate::interpreter::Interpreter;
use crate::interpreter::NativeHost;
use crate::parser::Parser;
use crate::scanner::Scanner;
use crate::scanner::errors_wf;
use crate::scanner::stream_wf;
use crate::grammar::err_line_in;
use crate::semantics::GState;
use crate::semantics::SOut;
use crate::semantics::lemma_prefix_char;
use crate::semantics::s_exec_stmts;
use crate::stmt::Stmt;
use crate::token::GVal;
use crate::token::Token;
use vstd::string::StringExecFns;

verus! {

broadcast use lemma_prefix_char;

/// What one run can fail with: a parse failure, which aborts before any
/// statement runs, or the first runtime failure.
#[derive(Debug)]
pub enum RunError {
    Parse(ParseError),
    Runtime(RuntimeError),
}

/// The state a fresh interpreter starts from: one global scope holding
/// the built-in natives, no output.
pub open spec fn initial_state() -> GState {
    GState {
        frames: seq![
            GFrame {
                vars: Map::empty().insert("clock"@, GVal::Native { name: "clock"@, arity: 0 }),
                parent: None,
            },
        ],
        output: Seq::empty(),
        used: 0,
    }
}

/// The evidence of one run: the scanned token stream, where in it the
/// parsed program ends, the program itself, and the native results the
/// host returned — so the contract below speaks of the actual pipeline
/// values rather than of existential witnesses.
pub ghost struct RunEvidence {
    pub tokens: Seq<Token>,
    pub end: int,
    pub program: Seq<Stmt>,
    pub natives: Seq<GVal>,
    pub scan_diagnostics: Seq<ParseError>,
}

/// Runs a source text through the whole pipeline — scan, parse,
/// interpret — against a fresh interpreter, and returns the printed
/// lines together with the first failure, if any, and the ghost
/// evidence of what ran.  A scan diagnostic or a parse failure aborts
/// before anything runs; a runtime failure keeps the output flushed so
/// far.  Otherwise the evidence holds the scanned stream (see
/// `stream_wf`), the program it parses to, and the lines are exactly
/// what the big-step semantics prints for that program.
#[verifier::rlimit(100)]
pub fn run<H: NativeHost>(source: &str, host: &mut H) -> (r: (
    Vec<String>,
    Option<RunError>,
    Ghost<RunEvidence>,
))
    ensures
        r.1 matches Some(RunError::Parse(pe)) ==> {
            &&& r.0@.len() == 0
            &&& stream_wf(r.2@.tokens)
            &&& (r.2@.scan_diagnostics.len() > 0 ==> errors_wf(r.2@.scan_diagnostics) && pe
                == r.2@.scan_diagnostics[0])
            &&& (r.2@.scan_diagnostics.len() == 0 ==> err_line_in(
                r.2@.tokens,
                0,
                r.2@.end,
                pe,
            ))
        },
        !(r.1 matches Some(RunError::Parse(_))) ==> {
            &&& stream_wf(r.2@.tokens)
            &&& r.2@.scan_diagnostics.len() == 0
            &&& is_program(r.2@.tokens, 0, r.2@.end, r.2@.program)
            &&& match s_exec_stmts(
                initial_state(),
                0,
                r.2@.program,
                DEFAULT_FUEL as nat,
                r.2@.natives,
            ) {
                SOut::Norm { st } => st.output == r.0.deep_view() && r.1 is None,
                SOut::Ret { st, v } => st.output == r.0.deep_view() && r.1 is None,
                SOut::Fail { st, e } => st.output == r.0.deep_view() && (r.1 matches Some(
                    RunError::Runtime(er),
                ) && er@ == e),
            }
        },
{
    let scanner = Scanner::new(source);
    let (tokens, mut scan_errors) = scanner.scan_tokens();
    let ghost ts = tokens@;
    let ghost gerrs = scan_errors@;
    if scan_errors.len() > 0 {
        let first = scan_errors.remove(0);
        let ghost ev = RunEvidence {
            tokens: ts,
            end: 0,
            program: Seq::empty(),
            natives: Seq::empty(),
            scan_diagnostics: gerrs,
        };
        return (Vec::new(), Some(RunError::Parse(first)), Ghost(ev));
    }
    let mut parser = Parser::new(tokens);
    let statements = match parser.parse() {
        Result::Ok(ss) => ss,
        Result::Err(pe) => {
            let ghost ev = RunEvidence {
                tokens: ts,
                end: parser.current as int,
                program: Seq::empty(),
                natives: Seq::empty(),
                scan_diagnostics: gerrs,
            };
            return (Vec::new(), Some(RunError::Parse(pe)), Ghost(ev));
        },
    };
    let ghost j = parser.current as int;
    let mut interpreter = Interpreter::new();
    proof {
        assert(interpreter@ =~~= initial_state());
    }
    match interpreter.interpret(host, &statements) {
        Result::Ok(_) => {
            let ghost ev = RunEvidence {
                tokens: ts,
                end: j,
                program: statements@,
                natives: interpreter.log@,
                scan_diagnostics: gerrs,
            };
            proof {
                assert(stream_wf(ts));
                assert(is_program(ts, 0, j, statements@));
                assert(interpreter.log@.is_prefix_of(interpreter.log@));
                assert(match s_exec_stmts(
                    initial_state(),
                    0,
                    statements@,
                    DEFAULT_FUEL as nat,
                    interpreter.log@,
                ) {
                    SOut::Norm { st } => st == interpreter@,
                    SOut::Ret { st, v } => st == interpreter@,
                    SOut::Fail { st, e } => false,
                });
            }
            (interpreter.output, None, Ghost(ev))
        },
        Result::Err(re) => {
            let ghost ev = RunEvidence {
                tokens: ts,
                end: j,
                program: statements@,
                natives: interpreter.log@,
                scan_diagnostics: gerrs,
            };
            proof {
                assert(stream_wf(ts));
                assert(is_program(ts, 0, j, statements@));
                assert(interpreter.log@.is_prefix_of(interpreter.log@));
                assert(match s_exec_stmts(
                    initial_state(),
                    0,
                    statements@,
                    DEFAULT_FUEL as nat,
                    interpreter.log@,
                ) {
                    SOut::Norm { st } => false,
                    SOut::Ret { st, v } => false,
                    SOut::Fail { st, e } => st == interpreter@ && e == re@,
                });
            }
            (interpreter.output, Some(RunError::Runtime(re)), Ghost(ev))
        },
    }
}

/// The diagnostic triple rendered as one line: the source line, a
/// location hint, and the message.
pub open spec fn report_text(line: nat, location: Seq<char>, message: Seq<char>) -> Seq<char> {
    "[line "@ + dec_str(line) + "] Error"@ + location + ": "@ + message
}

/// Renders a diagnostic with a location hint.
fn report(line: usize, location: &str, message: &str) -> (s: String)
    ensures
        s@ == report_text(line as nat, location@, message@),
{
    let mut s = "[line ".to_owned();
    let digits = dec_string(line as u64);
    s.append(digits.as_str());
    s.append("] Error");
    s.append(location);
    s.append(": ");
    s.append(message);
    proof {
        assert(s@ =~= report_text(line as nat, location@, message@));
    }
    s
}

/// Renders a diagnostic without a location hint, as the host prints it.
pub fn error(line: usize, message: &str) -> (s: String)
    ensures
        s@ == report_text(line as nat, Seq::empty(), message@),
{
    let s = report(line, "", message);
    proof {
        reveal_strlit("");
        assert(""@ =~= Seq::<char>::empty());
        assert(s@ =~= report_text(line as nat, Seq::empty(), message@));
    }
    s
}

} // verus!
