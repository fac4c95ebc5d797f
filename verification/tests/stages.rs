use axi::ast::{BinOp, Expr, Stmt};
use axi::diagnostic::Diagnostic;
use axi::fault::Fault;
use axi::interpreter::{Env, Interpreter, Value};
use axi::lexer::{Lexer, Token};
use axi::parser::Parser;
use axi::typechecker::{TypeChecker, TypeEnv};
use axi::types::Type;

fn tokens_of(src: &str) -> Vec<Token> {
    let mut lexer = Lexer::new(src);
    let mut out = Vec::new();
    loop {
        let t = lexer.next_token().expect("tokenizing failed");
        let done = t == Token::EOF;
        out.push(t);
        if done {
            break;
        }
    }
    out
}

#[test]
fn tokenizing_is_deterministic() {
    let src = "let x = 1 + 2 * 3\nnow - x_9";
    assert_eq!(tokens_of(src), tokens_of(src));
}

#[test]
fn tokenizer_produces_the_expected_sequence() {
    let toks = tokens_of("let answer = 6 * 7");
    assert_eq!(
        toks,
        vec![
            Token::Let,
            Token::Ident("answer".to_string()),
            Token::Equal,
            Token::Number(6),
            Token::Star,
            Token::Number(7),
            Token::EOF,
        ]
    );
}

#[test]
fn tokenizer_is_idempotent_at_end_of_stream() {
    let mut lexer = Lexer::new("1");
    assert_eq!(lexer.next_token().unwrap(), Token::Number(1));
    assert_eq!(lexer.next_token().unwrap(), Token::EOF);
    assert_eq!(lexer.next_token().unwrap(), Token::EOF);
    assert_eq!(lexer.next_token().unwrap(), Token::EOF);
}

#[test]
fn tokenizer_skips_varied_whitespace() {
    assert_eq!(
        tokens_of(" \t\r\n 42 \t"),
        vec![Token::Number(42), Token::EOF]
    );
}

#[test]
fn tokenizer_keeps_now_a_plain_identifier() {
    assert_eq!(
        tokens_of("now"),
        vec![Token::Ident("now".to_string()), Token::EOF]
    );
}

#[test]
fn tokenizer_reports_unexpected_character() {
    let mut lexer = Lexer::new("#");
    assert_eq!(lexer.next_token(), Err(Fault::UnexpectedCharacter));
}

#[test]
fn tokenizer_reports_number_overflow() {
    let mut lexer = Lexer::new("18446744073709551616");
    assert_eq!(lexer.next_token(), Err(Fault::NumberOverflow));
}

#[test]
fn parser_builds_precedence_correct_tree() {
    let lexer = Lexer::new("1 + 2 * 3");
    let mut parser = Parser::new(lexer).expect("first token");
    let program = parser.parse().expect("parse failed");
    assert_eq!(
        program,
        vec![Stmt::Expr(Expr::Binary {
            left: Box::new(Expr::Number(1)),
            op: BinOp::Add,
            right: Box::new(Expr::Binary {
                left: Box::new(Expr::Number(2)),
                op: BinOp::Mul,
                right: Box::new(Expr::Number(3)),
            }),
        })]
    );
}

#[test]
fn parser_resolves_now_to_the_clock_primitive() {
    let lexer = Lexer::new("let t = now");
    let mut parser = Parser::new(lexer).expect("first token");
    let program = parser.parse().expect("parse failed");
    assert_eq!(
        program,
        vec![Stmt::Let { name: "t".to_string(), value: Expr::Now }]
    );
}

#[test]
fn parser_propagates_tokenizer_fault() {
    let lexer = Lexer::new("1 + ?");
    let mut parser = Parser::new(lexer).expect("first token");
    assert_eq!(parser.parse(), Err(Fault::UnexpectedCharacter));
}

#[test]
fn checker_accepts_integer_arithmetic() {
    let lexer = Lexer::new("let a = 1\nlet b = a + 2\nb * b");
    let mut parser = Parser::new(lexer).unwrap();
    let program = parser.parse().unwrap();
    let mut checker = TypeChecker::new();
    assert!(checker.check(&program).is_ok());
}

#[test]
fn checker_rejects_clock_arithmetic_with_mismatch() {
    let lexer = Lexer::new("now * now");
    let mut parser = Parser::new(lexer).unwrap();
    let program = parser.parse().unwrap();
    let mut checker = TypeChecker::new();
    let d = checker.check(&program).unwrap_err();
    assert_eq!(d.title, "Type Mismatch");
}

#[test]
fn interpreter_reports_undefined_variable_on_unchecked_ast() {
    // Reachable only when the checking pass is skipped.
    let program = vec![Stmt::Expr(Expr::Var("ghostly".to_string()))];
    let mut interpreter = Interpreter::new();
    assert_eq!(interpreter.execute(&program), Err(Fault::UndefinedVariable));
}

#[test]
fn interpreter_reports_kind_mismatch_on_unchecked_ast() {
    // Defensive only: checking already excludes clock operands.
    let program = vec![Stmt::Expr(Expr::Binary {
        left: Box::new(Expr::Now),
        op: BinOp::Add,
        right: Box::new(Expr::Now),
    })];
    let mut interpreter = Interpreter::new();
    assert_eq!(interpreter.execute(&program), Err(Fault::TypeMismatch));
}

#[test]
fn interpreter_evaluates_left_before_right() {
    let program = vec![
        Stmt::Let { name: "a".to_string(), value: Expr::Now },
        Stmt::Let { name: "b".to_string(), value: Expr::Now },
        Stmt::Expr(Expr::Var("a".to_string())),
    ];
    let mut interpreter = Interpreter::new();
    assert_eq!(interpreter.execute(&program), Ok(Some(Value::Time(0))));
}

#[test]
fn env_rebinding_overwrites() {
    let mut env = Env::new();
    env.set("x".to_string(), Value::Int(1));
    env.set("x".to_string(), Value::Time(9));
    assert_eq!(env.get("x"), Some(Value::Time(9)));
    assert_eq!(env.get("y"), None);
}

#[test]
fn type_env_rebinding_overwrites() {
    let mut tenv = TypeEnv::new();
    tenv.set("x".to_string(), Type::Int);
    tenv.set("x".to_string(), Type::Time);
    assert_eq!(tenv.get("x"), Some(Type::Time));
    assert_eq!(tenv.get("missing"), None);
}

#[test]
fn diagnostic_constructors_fill_the_record() {
    let d = Diagnostic::new("A Title", "a message");
    assert_eq!(d.title, "A Title");
    assert_eq!(d.message, "a message");
    assert!(d.help.is_none());
    let d2 = Diagnostic::new("T", "m").with_help("try this");
    assert_eq!(d2.help.as_deref(), Some("try this"));
}
