//! End-to-end tests: source text through scanner, parser and
//! interpreter, checking the printed lines and the reported failures.
use lox::error::RuntimeError;
use lox::interpreter::Interpreter;
use lox::interpreter::NativeHost;
use lox::interpreter::SilentHost;
use lox::parser::Parser;
use lox::scanner::Scanner;
use lox::token::Lit;
use lox::token::Value;

/// A host whose every native call returns the same number.
struct FixedHost(i64);

impl NativeHost for FixedHost {
    fn call_native(&mut self, _name: &str, _arguments: &Vec<Value>) -> Lit {
        Lit::Num(self.0)
    }
}

fn run_lines(source: &str) -> Vec<String> {
    let mut host = SilentHost;
    let (out, err, _) = lox::run(source, &mut host);
    assert!(err.is_none(), "unexpected failure: {:?}", err);
    out
}

fn run_failure(source: &str) -> RuntimeError {
    let mut host = SilentHost;
    let (_, err, _) = lox::run(source, &mut host);
    match err {
        Some(lox::RunError::Runtime(re)) => re,
        other => panic!("expected a runtime failure, got {:?}", other),
    }
}

#[test]
fn prints_a_sum() {
    assert_eq!(run_lines("print 1 + 2;"), vec!["3"]);
}

#[test]
fn concatenates_strings() {
    assert_eq!(run_lines("print \"a\" + \"b\";"), vec!["ab"]);
}

#[test]
fn adding_number_and_string_is_a_type_error() {
    match run_failure("print 1 + \"a\";") {
        RuntimeError::TypeError { operator, line } => {
            assert_eq!(operator, "+");
            assert_eq!(line, 1);
        },
        other => panic!("expected a type error, got {:?}", other),
    }
}

#[test]
fn equality_is_total() {
    assert_eq!(
        run_lines("print nil == nil; print nil == false; print 1 == \"1\";"),
        vec!["true", "false", "false"]
    );
}

#[test]
fn callables_never_compare_equal() {
    assert_eq!(run_lines("fun f() { return 1; } print f == f;"), vec!["false"]);
}

#[test]
fn shadowing_restores_the_outer_binding() {
    assert_eq!(run_lines("var x = 1; { var x = 2; print x; } print x;"), vec!["2", "1"]);
}

#[test]
fn closures_capture_by_reference() {
    let source = "\
        fun counter() { var i = 0; fun inc() { i = i + 1; print i; } return inc; }\n\
        var c = counter();\n\
        c(); c(); c();";
    assert_eq!(run_lines(source), vec!["1", "2", "3"]);
}

#[test]
fn closures_see_later_assignments() {
    let source = "var x = 1; fun get() { return x; } x = 2; print get();";
    assert_eq!(run_lines(source), vec!["2"]);
}

#[test]
fn and_short_circuits() {
    let source = "fun side() { print 1; return true; } print false and side();";
    assert_eq!(run_lines(source), vec!["false"]);
}

#[test]
fn or_short_circuits() {
    let source = "fun side() { print 1; return false; } print true or side();";
    assert_eq!(run_lines(source), vec!["true"]);
}

#[test]
fn recursion_unwinds_through_nested_frames() {
    let source = "fun f(n) { if (n <= 1) return 1; return n * f(n - 1); } print f(5);";
    assert_eq!(run_lines(source), vec!["120"]);
}

#[test]
fn for_loop_desugars_to_while() {
    assert_eq!(run_lines("for (var i = 0; i < 3; i = i + 1) print i;"), vec!["0", "1", "2"]);
}

#[test]
fn for_loop_without_initializer() {
    assert_eq!(run_lines("var i = 0; for (; i < 2; i = i + 1) print i;"), vec!["0", "1"]);
}

#[test]
fn while_loop_runs_and_stops() {
    assert_eq!(
        run_lines("var i = 0; while (i < 2) { print i; i = i + 1; }"),
        vec!["0", "1"]
    );
}

#[test]
fn if_else_takes_the_right_branch() {
    assert_eq!(run_lines("if (1 > 2) print \"a\"; else print \"b\";"), vec!["b"]);
}

#[test]
fn truthiness_of_zero_and_empty_string() {
    assert_eq!(run_lines("if (0) print \"y\"; if (\"\") print \"z\";"), vec!["y", "z"]);
}

#[test]
fn undefined_variable_read_fails() {
    match run_failure("print x;") {
        RuntimeError::UndefinedVariable { name, line } => {
            assert_eq!(name, "x");
            assert_eq!(line, 1);
        },
        other => panic!("expected an undefined variable, got {:?}", other),
    }
}

#[test]
fn undefined_variable_assignment_fails() {
    assert!(matches!(
        run_failure("x = 1;"),
        RuntimeError::UndefinedVariable { .. }
    ));
}

#[test]
fn assignment_is_an_expression() {
    assert_eq!(run_lines("var x = 1; print x = 5; print x;"), vec!["5", "5"]);
}

#[test]
fn calling_a_number_fails() {
    assert!(matches!(run_failure("var x = 1; x(2);"), RuntimeError::NotCallable { line: 1 }));
}

#[test]
fn user_function_arity_is_checked() {
    match run_failure("fun f(a) { return a; } f(1, 2);") {
        RuntimeError::ArityMismatch { expected, got, line } => {
            assert_eq!((expected, got, line), (1, 2, 1));
        },
        other => panic!("expected an arity mismatch, got {:?}", other),
    }
}

#[test]
fn native_arity_is_checked() {
    assert!(matches!(
        run_failure("clock(1);"),
        RuntimeError::ArityMismatch { expected: 0, got: 1, .. }
    ));
}

#[test]
fn division_truncates_toward_zero() {
    assert_eq!(run_lines("print 7 / 2; print 0 - 7; print (0 - 7) / 2;"), vec!["3", "-7", "-3"]);
}

#[test]
fn division_by_zero_fails() {
    assert!(matches!(run_failure("print 1 / 0;"), RuntimeError::DivisionByZero { line: 1 }));
}

#[test]
fn addition_overflow_fails() {
    assert!(matches!(
        run_failure("print 9223372036854775807 + 1;"),
        RuntimeError::Overflow { .. }
    ));
}

#[test]
fn a_function_without_return_yields_nil() {
    assert_eq!(run_lines("fun f() { } print f();"), vec!["nil"]);
}

#[test]
fn return_unwinds_out_of_a_loop() {
    let source = "fun f() { var i = 0; while (true) { if (i > 1) return i; i = i + 1; } } print f();";
    assert_eq!(run_lines(source), vec!["2"]);
}

#[test]
fn a_runaway_loop_exhausts_the_budget() {
    let (tokens, _) = Scanner::new("while (true) { }").scan_tokens();
    let mut parser = Parser::new(tokens);
    let program = parser.parse().unwrap();
    let mut interp = Interpreter::new();
    let mut host = SilentHost;
    let r = interp.interpret_with_fuel(&mut host, &program, 50);
    assert!(matches!(r, Err(RuntimeError::ResourceExhausted)));
}

#[test]
fn deep_recursion_exhausts_the_budget() {
    let (tokens, _) = Scanner::new("fun f(n) { return f(n + 1); } f(0);").scan_tokens();
    let mut parser = Parser::new(tokens);
    let program = parser.parse().unwrap();
    let mut interp = Interpreter::new();
    let mut host = SilentHost;
    let r = interp.interpret_with_fuel(&mut host, &program, 50);
    assert!(matches!(r, Err(RuntimeError::ResourceExhausted)));
}

#[test]
fn the_host_answers_native_calls() {
    let mut host = FixedHost(42);
    let (out, err, _) = lox::run("print clock(); print clock() + 1;", &mut host);
    assert!(err.is_none());
    assert_eq!(out, vec!["42", "43"]);
}

#[test]
fn the_silent_host_answers_nil() {
    assert_eq!(run_lines("print clock();"), vec!["nil"]);
}

#[test]
fn output_before_a_failure_is_kept() {
    let mut host = SilentHost;
    let (out, err, _) = lox::run("print 1; print y;", &mut host);
    assert_eq!(out, vec!["1"]);
    assert!(matches!(err, Some(lox::RunError::Runtime(_))));
}

#[test]
fn blocks_discard_their_scope() {
    assert!(matches!(
        run_failure("{ var a = 1; } print a;"),
        RuntimeError::UndefinedVariable { .. }
    ));
}

#[test]
fn booleans_and_nil_print_their_names() {
    assert_eq!(
        run_lines("print true; print false; print nil; print 1 < 2; print 2 <= 1;"),
        vec!["true", "false", "nil", "true", "false"]
    );
}

#[test]
fn unary_operators_work() {
    assert_eq!(
        run_lines("print !true; print !nil; print !0; print -(3 + 4);"),
        vec!["false", "true", "false", "-7"]
    );
}

#[test]
fn comments_and_whitespace_are_skipped() {
    assert_eq!(run_lines("// nothing here\nprint 1; // trailing\n"), vec!["1"]);
}

#[test]
fn strings_may_span_lines() {
    assert_eq!(run_lines("print \"a\nb\";"), vec!["a\nb"]);
}

#[test]
fn else_binds_to_the_nearest_if() {
    assert_eq!(
        run_lines("var x = true; var y = false; if (x) if (y) print 1; else print 2;"),
        vec!["2"]
    );
    assert_eq!(
        run_lines("var x = false; if (x) if (true) print 1; else print 2;"),
        Vec::<String>::new()
    );
}
