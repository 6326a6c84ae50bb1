//! Unit tests for the building blocks: values, display, scopes, the
//! scanner, the parser's failures, and the diagnostics rendering.
use lox::ast_printer::AstPrinter;
use lox::built_in::register_builtins;
use lox::display::dec_string;
use lox::display::number_string;
use lox::display::to_display_string;
use lox::environment::Environment;
use lox::error::RuntimeError;
use lox::interpreter::Interpreter;
use lox::parser::Parser;
use lox::scanner::Scanner;
use lox::scanner::build_keyword_map;
use lox::stmt::Stmt;
use lox::token::Lit;
use lox::token::Token;
use lox::token::TokenType;
use lox::token::Value;
use lox::token::lit_to_value;

fn ident(name: &str) -> Token {
    Token {
        token_type: TokenType::Identifier,
        lexeme: name.to_string(),
        literal: Lit::Nil,
        line: 1,
    }
}

#[test]
fn from_bool_wraps_booleans() {
    assert!(matches!(Value::from_bool(true), Value::Boolean(true)));
    assert!(matches!(Value::from_bool(false), Value::Boolean(false)));
}

#[test]
fn truthiness_follows_the_rule() {
    assert!(!Value::Nil.is_truthy());
    assert!(!Value::Boolean(false).is_truthy());
    assert!(Value::Boolean(true).is_truthy());
    assert!(Value::Number(0).is_truthy());
    assert!(Value::Str(String::new()).is_truthy());
}

#[test]
fn value_equality_compares_tag_and_payload() {
    assert!(Value::Nil.is_equal(&Value::Nil));
    assert!(!Value::Nil.is_equal(&Value::Boolean(false)));
    assert!(Value::Number(3).is_equal(&Value::Number(3)));
    assert!(!Value::Number(3).is_equal(&Value::Number(4)));
    assert!(Value::Str("a".to_string()).is_equal(&Value::Str("a".to_string())));
    assert!(!Value::Number(1).is_equal(&Value::Str("1".to_string())));
}

#[test]
fn numbers_render_in_decimal() {
    assert_eq!(dec_string(0), "0");
    assert_eq!(dec_string(907), "907");
    assert_eq!(number_string(-45), "-45");
    assert_eq!(number_string(9223372036854775807), "9223372036854775807");
    assert_eq!(number_string(i64::MIN), "-9223372036854775808");
}

#[test]
fn values_render_their_display_forms() {
    assert_eq!(to_display_string(&Value::Number(12)), "12");
    assert_eq!(to_display_string(&Value::Str("hi".to_string())), "hi");
    assert_eq!(to_display_string(&Value::Boolean(true)), "true");
    assert_eq!(to_display_string(&Value::Nil), "nil");
}

#[test]
fn lit_to_value_preserves_the_payload() {
    assert!(matches!(lit_to_value(&Lit::Num(7)), Value::Number(7)));
    assert!(matches!(lit_to_value(&Lit::Nil), Value::Nil));
    assert!(matches!(lit_to_value(&Lit::True), Value::Boolean(true)));
}

#[test]
fn define_get_and_assign_walk_the_chain() {
    let mut env = Environment::new();
    env.define(0, "x".to_string(), Value::Number(1));
    let inner = env.new_scope(0);
    let got = env.get(inner, &ident("x")).unwrap();
    assert!(got.is_equal(&Value::Number(1)));
    env.assign(inner, &ident("x"), Value::Number(2)).unwrap();
    let got = env.get(0, &ident("x")).unwrap();
    assert!(got.is_equal(&Value::Number(2)));
}

#[test]
fn define_shadows_only_the_inner_scope() {
    let mut env = Environment::new();
    env.define(0, "x".to_string(), Value::Number(1));
    let inner = env.new_scope(0);
    env.define(inner, "x".to_string(), Value::Number(2));
    assert!(env.get(inner, &ident("x")).unwrap().is_equal(&Value::Number(2)));
    assert!(env.get(0, &ident("x")).unwrap().is_equal(&Value::Number(1)));
}

#[test]
fn get_of_an_unknown_name_reports_it() {
    let env = Environment::new();
    match env.get(0, &ident("ghostly")) {
        Err(RuntimeError::UndefinedVariable { name, line }) => {
            assert_eq!(name, "ghostly");
            assert_eq!(line, 1);
        },
        other => panic!("expected an undefined variable, got {:?}", other),
    }
}

#[test]
fn assign_never_creates_a_binding() {
    let mut env = Environment::new();
    assert!(env.assign(0, &ident("x"), Value::Number(1)).is_err());
}

#[test]
fn redefining_a_name_replaces_its_value() {
    let mut env = Environment::new();
    env.define(0, "x".to_string(), Value::Number(1));
    env.define(0, "x".to_string(), Value::Number(9));
    assert!(env.get(0, &ident("x")).unwrap().is_equal(&Value::Number(9)));
}

#[test]
fn the_keyword_map_holds_the_reserved_words() {
    let map = build_keyword_map();
    assert_eq!(map.len(), 16);
    assert_eq!(map[0].0, "and");
    assert!(matches!(map[0].1, TokenType::And));
    assert_eq!(map[15].0, "while");
    assert!(matches!(map[15].1, TokenType::While));
}

#[test]
fn the_scanner_tags_kinds_lexemes_and_lines() {
    let (tokens, _) = Scanner::new("var x = 12;\nprint \"hi\";").scan_tokens();
    let kinds: Vec<TokenType> = tokens.iter().map(|t| t.token_type).collect();
    assert_eq!(
        kinds,
        vec![
            TokenType::Var,
            TokenType::Identifier,
            TokenType::Equal,
            TokenType::Num,
            TokenType::Semicolon,
            TokenType::Print,
            TokenType::Str,
            TokenType::Semicolon,
            TokenType::Eof,
        ]
    );
    assert_eq!(tokens[1].lexeme, "x");
    assert!(matches!(tokens[3].literal, Lit::Num(12)));
    assert!(matches!(tokens[6].literal, Lit::Str(ref s) if s == "hi"));
    assert_eq!(tokens[0].line, 1);
    assert_eq!(tokens[5].line, 2);
}

#[test]
fn the_printer_parenthesises_by_precedence() {
    let (tokens, _) = Scanner::new("(1 + 2) * 3;").scan_tokens();
    let mut parser = Parser::new(tokens);
    let program = parser.parse().unwrap();
    match &program[0] {
        Stmt::Expression { expression } => {
            assert_eq!(expression.accept(), "(* (group (+ 1 2)) 3)");
        },
        other => panic!("expected an expression statement, got {:?}", other),
    }
}

#[test]
fn the_printer_renders_assignment_and_calls() {
    let (tokens, _) = Scanner::new("x = f(1, -2);").scan_tokens();
    let mut parser = Parser::new(tokens);
    let program = parser.parse().unwrap();
    match &program[0] {
        Stmt::Expression { expression } => {
            assert_eq!(expression.accept(), "(= x (call f 1 (- 2)))");
        },
        other => panic!("expected an expression statement, got {:?}", other),
    }
}

#[test]
fn a_missing_parenthesis_is_a_parse_error() {
    let (tokens, _) = Scanner::new("print (1 + 2;").scan_tokens();
    let mut parser = Parser::new(tokens);
    let err = parser.parse().unwrap_err();
    assert_eq!(err.message, "Expect ')' after expression.");
    assert_eq!(err.line, 1);
}

#[test]
fn an_invalid_assignment_target_is_a_parse_error() {
    let (tokens, _) = Scanner::new("1 = 2;").scan_tokens();
    let mut parser = Parser::new(tokens);
    let err = parser.parse().unwrap_err();
    assert_eq!(err.message, "Invalid assignment target.");
}

#[test]
fn a_missing_semicolon_names_the_line() {
    let (tokens, _) = Scanner::new("var x = 1\nprint x;").scan_tokens();
    let mut parser = Parser::new(tokens);
    let err = parser.parse().unwrap_err();
    assert_eq!(err.message, "Expect ';' after variable declaration.");
    assert_eq!(err.line, 2);
}

#[test]
fn a_parse_failure_aborts_before_running() {
    let mut host = lox::interpreter::SilentHost;
    let (out, err, _) = lox::run("print 1; print (;", &mut host);
    assert!(out.is_empty());
    assert!(matches!(err, Some(lox::RunError::Parse(_))));
}

#[test]
fn diagnostics_carry_line_and_message() {
    assert_eq!(lox::error(7, "boom"), "[line 7] Error: boom");
    assert_eq!(lox::error(0, "x"), "[line 0] Error: x");
}

#[test]
fn the_globals_handle_is_the_root_scope() {
    let interp = Interpreter::new();
    assert_eq!(interp.get_globals(), 0);
}

#[test]
fn register_builtins_defines_clock() {
    let mut env = Environment::new();
    register_builtins(&mut env);
    let tok = Token {
        token_type: TokenType::Identifier,
        lexeme: "clock".to_string(),
        literal: Lit::Nil,
        line: 1,
    };
    assert!(matches!(env.get(0, &tok), Ok(Value::Callable(_))));
}

#[test]
fn an_oversized_numeric_literal_is_reported() {
    let (tokens, errors) = Scanner::new("99999999999999999999").scan_tokens();
    assert_eq!(tokens.len(), 1);
    assert!(matches!(tokens[0].token_type, TokenType::Eof));
    assert_eq!(errors.len(), 1);
    assert_eq!(errors[0].message, "Number literal too large.");
    let mut host = lox::interpreter::SilentHost;
    let (out, err, _) = lox::run("print 99999999999999999999;", &mut host);
    assert!(out.is_empty());
    match err {
        Some(lox::RunError::Parse(pe)) => assert_eq!(pe.message, "Number literal too large."),
        other => panic!("expected a scan diagnostic, got {:?}", other),
    }
}

#[test]
fn an_unterminated_string_is_reported() {
    let mut host = lox::interpreter::SilentHost;
    let (out, err, _) = lox::run("print \"oops;", &mut host);
    assert!(out.is_empty());
    match err {
        Some(lox::RunError::Parse(pe)) => assert_eq!(pe.message, "Unterminated string."),
        other => panic!("expected a scan diagnostic, got {:?}", other),
    }
}

#[test]
fn an_unexpected_character_is_reported() {
    let mut host = lox::interpreter::SilentHost;
    let (out, err, _) = lox::run("print 1; #", &mut host);
    assert!(out.is_empty());
    match err {
        Some(lox::RunError::Parse(pe)) => {
            assert_eq!(pe.message, "Unexpected character.");
            assert_eq!(pe.line, 1);
        },
        other => panic!("expected a scan diagnostic, got {:?}", other),
    }
}

#[test]
fn a_scanned_stream_ends_in_one_eof() {
    let (tokens, errors) = Scanner::new("var x = 1;\nprint x;").scan_tokens();
    assert!(errors.is_empty());
    let eofs = tokens.iter().filter(|t| matches!(t.token_type, TokenType::Eof)).count();
    assert_eq!(eofs, 1);
    assert!(matches!(tokens[tokens.len() - 1].token_type, TokenType::Eof));
    for w in tokens.windows(2) {
        assert!(w[0].line <= w[1].line);
    }
}

#[test]
fn an_overlong_argument_list_only_warns() {
    let mut source = String::from("f(");
    for _ in 0..256 {
        source.push_str("1,");
    }
    source.push_str("1);");
    let (tokens, _) = Scanner::new(&source).scan_tokens();
    let mut parser = Parser::new(tokens);
    assert!(parser.parse().is_ok());
    assert!(!parser.warnings.is_empty());
    assert_eq!(parser.warnings[0].message, "Can't have more than 255 arguments.");
}
