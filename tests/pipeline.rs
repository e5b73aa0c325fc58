use lox::ast::{Expr, Program};
use lox::interpreter::{evaluate, interpret_program, Environment, Numeric, RuntimeError, Value};
use lox::parser::{parse_expr, parse_program, ParseError};
use lox::tokenizer::{scan, tokenize, Token, TokenType};

#[derive(Clone, Copy, Debug, PartialEq)]
struct F(f64);

impl Numeric for F {
    fn from_literal(text: &str) -> Self {
        F(text.parse::<f64>().unwrap())
    }
    fn add(self, other: Self) -> Self {
        F(self.0 + other.0)
    }
    fn sub(self, other: Self) -> Self {
        F(self.0 - other.0)
    }
    fn mul(self, other: Self) -> Self {
        F(self.0 * other.0)
    }
    fn div(self, other: Self) -> Self {
        F(self.0 / other.0)
    }
    fn neg(self) -> Self {
        F(-self.0)
    }
    fn less(self, other: Self) -> bool {
        self.0 < other.0
    }
    fn less_eq(self, other: Self) -> bool {
        self.0 <= other.0
    }
    fn equals(self, other: Self) -> bool {
        self.0 == other.0
    }
    fn render(self) -> String {
        format!("{}", self.0)
    }
}

fn tokens(src: &str) -> Vec<Token> {
    let (toks, had_error) = tokenize(src);
    assert!(!had_error);
    toks
}

fn expr(src: &str) -> Result<Expr, ParseError> {
    parse_expr(&tokens(src))
}

fn program(src: &str) -> Program {
    match parse_program(&tokens(src)) {
        Ok(p) => p,
        Err(e) => panic!("parse error: {}", e.message),
    }
}

fn eval(src: &str) -> Result<Value<F>, RuntimeError> {
    let e = match expr(src) {
        Ok(e) => e,
        Err(_) => panic!("parse error"),
    };
    let mut env: Environment<F> = Environment::new();
    evaluate(&e, &mut env)
}

fn run(src: &str) -> (Vec<String>, Result<(), RuntimeError>) {
    let p = program(src);
    let mut out = Vec::new();
    let r = interpret_program::<F>(&p, &mut out);
    (out, r)
}

fn kinds(toks: &[Token]) -> Vec<TokenType> {
    toks.iter().map(|t| t.token_type).collect()
}

#[test]
fn number_literal_renders_canonical_decimal() {
    let toks = tokens("123");
    assert_eq!(kinds(&toks), vec![TokenType::Number, TokenType::Eof]);
    assert_eq!(toks[0].lexeme, "123");
    assert_eq!(toks[0].literal_str(), "123.0");
}

#[test]
fn number_literal_trims_zeros() {
    assert_eq!(tokens("1.50")[0].literal_str(), "1.5");
    assert_eq!(tokens("007")[0].literal_str(), "7.0");
    assert_eq!(tokens("0.000")[0].literal_str(), "0.0");
    assert_eq!(tokens("12.34")[0].literal_str(), "12.34");
}

#[test]
fn dot_without_digit_is_not_part_of_number() {
    let toks = tokens("12.");
    assert_eq!(kinds(&toks), vec![TokenType::Number, TokenType::Dot, TokenType::Eof]);
    assert_eq!(toks[0].lexeme, "12");
}

#[test]
fn unterminated_string_is_an_error_without_token() {
    let (toks, had_error) = tokenize("1 \"abc");
    assert!(had_error);
    assert_eq!(kinds(&toks), vec![TokenType::Number, TokenType::Eof]);
    let (_, errors) = scan("1 \"abc");
    assert_eq!(errors.len(), 1);
    assert_eq!(errors[0].message, "Unterminated string.");
    assert_eq!(errors[0].line, 1);
}

#[test]
fn unterminated_string_reported_at_its_start_line() {
    let (_, errors) = scan("\"abc\n\ndef");
    assert_eq!(errors.len(), 1);
    assert_eq!(errors[0].line, 1);
}

#[test]
fn unexpected_characters_are_all_reported() {
    let (toks, errors) = scan("@ + #");
    assert_eq!(kinds(&toks), vec![TokenType::Plus, TokenType::Eof]);
    assert_eq!(errors.len(), 2);
    assert_eq!(errors[0].message, "Unexpected character: @");
    assert_eq!(errors[1].message, "Unexpected character: #");
}

#[test]
fn two_character_operators_and_comments() {
    let toks = tokens("!= == <= >= ! = < > / // ignored\n*");
    assert_eq!(
        kinds(&toks),
        vec![
            TokenType::BangEqual,
            TokenType::EqualEqual,
            TokenType::LessEqual,
            TokenType::GreaterEqual,
            TokenType::Bang,
            TokenType::Equal,
            TokenType::Less,
            TokenType::Greater,
            TokenType::Slash,
            TokenType::Star,
            TokenType::Eof
        ]
    );
    assert_eq!(toks[9].line, 2);
    assert_eq!(toks[10].line, 2);
}

#[test]
fn keywords_and_identifiers() {
    let toks = tokens("var orchid = nil or _x1;");
    assert_eq!(
        kinds(&toks),
        vec![
            TokenType::Var,
            TokenType::Identifier,
            TokenType::Equal,
            TokenType::Nil,
            TokenType::Or,
            TokenType::Identifier,
            TokenType::Semicolon,
            TokenType::Eof
        ]
    );
    assert_eq!(toks[1].lexeme, "orchid");
    assert_eq!(toks[5].lexeme, "_x1");
}

#[test]
fn token_names_and_literals() {
    let toks = tokens("(\"hi\" and)");
    assert_eq!(toks[0].token_type.name(), "LEFT_PAREN");
    assert_eq!(toks[1].token_type.name(), "STRING");
    assert_eq!(toks[1].literal_str(), "hi");
    assert_eq!(toks[2].token_type.name(), "AND");
    assert_eq!(toks[2].literal_str(), "null");
    assert_eq!(toks[4].token_type.name(), "EOF");
    assert_eq!(toks[4].lexeme, "");
}

#[test]
fn factor_binds_tighter_than_term() {
    let e = expr("1 + 2 * 3").ok().unwrap();
    assert_eq!(e.to_string(), "(+ 1.0 (* 2.0 3.0))");
}

#[test]
fn prefix_forms() {
    assert_eq!(expr("(1 - 2)").ok().unwrap().to_string(), "(group (- 1.0 2.0))");
    assert_eq!(expr("!true == -x").ok().unwrap().to_string(), "(== (! true) (- (variable x)))");
    assert_eq!(
        expr("a = b or c and \"s\"").ok().unwrap().to_string(),
        "(assign a (or (variable b) (and (variable c) s)))"
    );
    assert_eq!(expr("1 - 2 - 3").ok().unwrap().to_string(), "(- (- 1.0 2.0) 3.0)");
}

#[test]
fn invalid_assignment_target() {
    let err = expr("1 = 2").err().unwrap();
    assert_eq!(err.message, "Invalid assignment target");
    assert_eq!(err.lexeme, "=");
    assert!(!err.at_end);
    assert!(expr("x = 2").is_ok());
}

#[test]
fn assignment_parses_and_runs_once_declared() {
    let (out, r) = run("var x; x = 2; print x;");
    assert!(r.is_ok());
    assert_eq!(out, vec!["2".to_string()]);
}

#[test]
fn missing_close_paren() {
    let err = expr("(1 + 2").err().unwrap();
    assert_eq!(err.message, "Expecting `)`");
    assert!(err.at_end);
}

#[test]
fn program_display() {
    let p = program("var a = 1; { print a; }");
    assert_eq!(p.to_string(), "(\n  (var a 1.0)\n  (block\n  (print (variable a))\n)\n\n)\n");
}

#[test]
fn adding_number_and_string_fails() {
    let err = eval("1 + \"a\"").err().unwrap();
    assert_eq!(err.msg, "Expecting a number");
    assert_eq!(err.line, 1);
    let err = eval("\"a\" + 1").err().unwrap();
    assert_eq!(err.msg, "Expecting a string");
    let err = eval("nil + 1").err().unwrap();
    assert_eq!(err.msg, "Expecting a number or a string");
}

#[test]
fn error_line_is_the_operator_line() {
    let err = eval("1\n+\n\"a\"").err().unwrap();
    assert_eq!(err.line, 2);
}

#[test]
fn concatenating_strings() {
    match eval("\"a\" + \"b\"") {
        Ok(Value::String(s)) => assert_eq!(s, "ab"),
        _ => panic!("expected a string"),
    }
}

#[test]
fn arithmetic_and_comparison() {
    match eval("(1 + 2) * 3 - 4 / 2") {
        Ok(Value::Number(F(x))) => assert_eq!(x, 7.0),
        _ => panic!("expected a number"),
    }
    match eval("2 >= 3") {
        Ok(Value::Bool(b)) => assert!(!b),
        _ => panic!("expected a bool"),
    }
    match eval("\"a\" == \"a\"") {
        Ok(Value::Bool(b)) => assert!(b),
        _ => panic!("expected a bool"),
    }
    match eval("nil != false") {
        Ok(Value::Bool(b)) => assert!(b),
        _ => panic!("expected a bool"),
    }
    assert_eq!(eval("1 < \"x\"").err().unwrap().msg, "Expecting a number");
    assert_eq!(eval("-\"x\"").err().unwrap().msg, "Expecting a number");
}

#[test]
fn truthiness() {
    match eval("!0") {
        Ok(Value::Bool(b)) => assert!(!b),
        _ => panic!("expected a bool"),
    }
    match eval("!\"\"") {
        Ok(Value::Bool(b)) => assert!(!b),
        _ => panic!("expected a bool"),
    }
    match eval("!nil") {
        Ok(Value::Bool(b)) => assert!(b),
        _ => panic!("expected a bool"),
    }
}

#[test]
fn block_shadowing_does_not_leak() {
    let (out, r) = run("var x = 1; { var x = 2; } print x;");
    assert!(r.is_ok());
    assert_eq!(out, vec!["1".to_string()]);
}

#[test]
fn inner_block_sees_and_assigns_outer() {
    let (out, r) = run("var x = 1; { x = x + 1; print x; } print x;");
    assert!(r.is_ok());
    assert_eq!(out, vec!["2".to_string(), "2".to_string()]);
}

#[test]
fn if_else_runs_one_branch() {
    let (out, r) = run("if (false) print 1; else print 2;");
    assert!(r.is_ok());
    assert_eq!(out, vec!["2".to_string()]);
    let (out, _) = run("if (nil) print 1;");
    assert!(out.is_empty());
}

#[test]
fn and_short_circuits() {
    match eval("nil and undefined_name") {
        Ok(Value::Nil) => {}
        _ => panic!("expected nil"),
    }
    match eval("1 or undefined_name") {
        Ok(Value::Number(F(x))) => assert_eq!(x, 1.0),
        _ => panic!("expected a number"),
    }
    assert_eq!(eval("true and undefined_name").err().unwrap().msg, "Undefined variable 'undefined_name'.");
}

#[test]
fn assigning_undeclared_name_fails() {
    let (out, r) = run("y = 1;");
    assert!(out.is_empty());
    let err = r.err().unwrap();
    assert_eq!(err.msg, "Variable 'y' not declared before assignment");
    assert_eq!(err.line, 1);
}

#[test]
fn runtime_error_stops_the_program() {
    let (out, r) = run("print \"a\";\nprint -nil;\nprint \"b\";");
    assert_eq!(out, vec!["a".to_string()]);
    let err = r.err().unwrap();
    assert_eq!(err.msg, "Expecting a number");
    assert_eq!(err.line, 2);
}

#[test]
fn print_display_forms() {
    let (out, _) = run("print nil; print true; print \"s\"; print 2.5; print 10;");
    assert_eq!(out, vec!["nil", "true", "s", "2.5", "10"]);
}
