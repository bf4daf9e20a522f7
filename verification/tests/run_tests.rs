use std::rc::Rc;
use tox::expr::{Expr, LiteralValue};
use tox::interpreter::{Interpreter, Request};
use tox::list::List;
use tox::number::Number;
use tox::scanner::{attach_numbers, Scanner, Token, TokenType};
use tox::stmt::Stmt;
use tox::{run, run_string, Failure};

fn number(v: f64) -> Number {
    Number::new(v.to_bits(), v.to_string())
}

fn drive(interpreter: &mut Interpreter) -> Result<Vec<String>, String> {
    let mut printed = vec![];
    let mut reply: Option<Number> = None;
    loop {
        match interpreter.step(reply.take()) {
            Request::Continue => {}
            Request::Print(v) => printed.push(v.to_string()),
            Request::Negate(n) => reply = Some(number(-f64::from_bits(n.bits))),
            Request::Arithmetic { operator, left, right } => {
                let (a, b) = (f64::from_bits(left.bits), f64::from_bits(right.bits));
                reply = Some(number(match operator {
                    TokenType::Plus => a + b,
                    TokenType::Minus => a - b,
                    TokenType::Star => a * b,
                    _ => a / b,
                }));
            }
            Request::Native(_) => reply = Some(number(0.0)),
            Request::Finished => return Ok(printed),
            Request::Failed(e) => return Err(e.message()),
        }
    }
}

fn token(token_type: TokenType, lexeme: &str) -> Token {
    Token { token_type, lexeme: lexeme.to_string(), literal: None, line_number: 1 }
}

#[test]
fn run_string_starts_a_program() {
    let mut interpreter = run_string("print 1 + 2; print \"done\";", &vec![number(1.0), number(2.0)]).ok().unwrap();
    assert_eq!(drive(&mut interpreter).unwrap(), vec!["3", "\"done\""]);
}

#[test]
fn run_string_gives_the_numbers_in_order() {
    let mut interpreter =
        run_string("print 10; print 20; print 30;", &vec![number(3.0), number(2.0), number(1.0)]).ok().unwrap();
    assert_eq!(drive(&mut interpreter).unwrap(), vec!["3", "2", "1"]);
}

#[test]
fn run_string_needs_one_number_for_each_literal() {
    assert!(matches!(run_string("print 1 + 2;", &vec![number(1.0)]), Err(Failure::Numbers)));
    assert!(matches!(run_string("print 1;", &vec![number(1.0), number(2.0)]), Err(Failure::Numbers)));
    assert!(matches!(run_string("print nil;", &vec![number(1.0)]), Err(Failure::Numbers)));
    assert!(run_string("print nil;", &vec![]).is_ok());
    assert_eq!(
        run_string("1;", &vec![]).err().unwrap().message(),
        "The numbers do not match the number literals"
    );
}

#[test]
fn run_string_reports_each_stage() {
    match run_string("print @;", &vec![]) {
        Err(Failure::Lexical(errors)) => assert_eq!(errors.len(), 1),
        other => panic!("unexpected result {:?}", other.map(|_| ())),
    }
    assert_eq!(run_string("print @; #", &vec![]).err().unwrap().message(), "Unrecognised char @ at line 1\nUnrecognised char # at line 1\n");
    match run_string("print ;", &vec![]) {
        Err(Failure::Syntax(errors)) => assert_eq!(errors.len(), 1),
        other => panic!("unexpected result {:?}", other.map(|_| ())),
    }
    assert_eq!(run_string("print nil", &vec![]).err().unwrap().message(), "Expected ';' after value\n");
    match run_string("{ var a = a; }", &vec![]) {
        Err(Failure::Resolution(_)) => {}
        other => panic!("unexpected result {:?}", other.map(|_| ())),
    }
    assert_eq!(
        run_string("{ var a = a; }", &vec![]).err().unwrap().message(),
        "Cannot read local variable in its own initialization"
    );
}

#[test]
fn run_needs_the_end_marker() {
    let mut interpreter = Interpreter::new();
    assert!(matches!(run(&mut interpreter, vec![]), Err(Failure::Unterminated)));
    assert!(matches!(
        run(&mut interpreter, vec![token(TokenType::Nil, "nil"), token(TokenType::Semicolon, ";")]),
        Err(Failure::Unterminated)
    ));
    assert!(run(&mut interpreter, vec![token(TokenType::Eof, "")]).is_ok());
    assert_eq!(interpreter.reserve(usize::MAX - 1), Some(1));
    assert!(matches!(
        run(&mut interpreter, vec![token(TokenType::Eof, "")]),
        Err(Failure::Unterminated)
    ));
    assert_eq!(
        Failure::Unterminated.message(),
        "The tokens do not end with the end marker"
    );
}

#[test]
fn identities_are_set_aside_in_turn() {
    let mut interpreter = Interpreter::new();
    assert_eq!(interpreter.reserve(0), Some(0));
    assert_eq!(interpreter.reserve(5), Some(0));
    assert_eq!(interpreter.reserve(2), Some(5));
    assert_eq!(interpreter.reserve(usize::MAX), None);
    assert_eq!(interpreter.reserve(usize::MAX - 7), Some(7));
    assert_eq!(interpreter.reserve(1), None);
    assert_eq!(interpreter.reserve(0), Some(usize::MAX));
}

#[test]
fn run_keeps_the_session() {
    let mut interpreter = Interpreter::new();
    for (source, expected) in [
        ("var a = \"x\"; func get() { return a; }", vec![]),
        ("{ var a = \"y\"; print get(); }", vec!["\"x\""]),
        ("a = a + a; print get();", vec!["\"xx\""]),
    ] {
        let mut scanner = Scanner::new(source);
        let tokens = scanner.scan_tokens().unwrap();
        run(&mut interpreter, tokens).unwrap();
        assert_eq!(drive(&mut interpreter).unwrap(), expected);
    }
}

#[test]
fn numbers_are_attached_to_number_tokens() {
    let mut scanner = Scanner::new("a 1 \"2\" 3");
    let tokens = scanner.scan_tokens().unwrap();
    let done = attach_numbers(tokens, &vec![number(1.0), number(3.0)]).unwrap();
    assert_eq!(done.len(), 5);
    assert!(done[0].literal.is_none());
    match &done[1].literal {
        Some(tox::scanner::LiteralValue::FloatValue(n)) => assert_eq!(n.text, "1"),
        other => panic!("unexpected literal {:?}", other),
    }
    match &done[3].literal {
        Some(tox::scanner::LiteralValue::FloatValue(n)) => assert_eq!(n.text, "3"),
        other => panic!("unexpected literal {:?}", other),
    }
    assert_eq!(done[3].lexeme, "3");
    assert_eq!(done[4].token_type, TokenType::Eof);
}

#[test]
fn anonymous_function_is_a_value() {
    // (anonymous function of x that returns x)("given"), printed
    let x = token(TokenType::Identifier, "x");
    let body = List::from_vec(vec![Rc::new(Stmt::Return {
        keyword: token(TokenType::Return, "return"),
        value: Some(Rc::new(Expr::Variable { name: x.clone(), id: 1 })),
    })]);
    let anon = Rc::new(Expr::AnonFunc {
        paren: token(TokenType::LeftParen, "("),
        args: List::from_vec(vec![x]),
        body,
    });
    let call = Rc::new(Expr::Call {
        callee: anon.clone(),
        paren: token(TokenType::RightParen, ")"),
        args: List::from_vec(vec![Rc::new(Expr::Literal {
            literal: LiteralValue::StringValue("given".to_string()),
        })]),
    });
    let program = vec![Stmt::Print { expression: call }, Stmt::Print { expression: anon }];
    let mut interpreter = Interpreter::new();
    let mut resolver = tox::resolver::Resolver::new();
    resolver.resolve_many(&program, &mut interpreter).unwrap();
    assert_eq!(interpreter.get_distance(1), Some(0));
    interpreter.interpret(program);
    assert_eq!(drive(&mut interpreter).unwrap(), vec!["\"given\"", "<fn anon_function>/1"]);
}

#[test]
fn a_distance_that_does_not_fit_is_a_violation() {
    let program = vec![Stmt::Print {
        expression: Rc::new(Expr::Variable { name: token(TokenType::Identifier, "a"), id: 0 }),
    }];
    let mut interpreter = Interpreter::new();
    interpreter.resolve(0, 3);
    interpreter.interpret(program);
    assert_eq!(
        drive(&mut interpreter).unwrap_err(),
        "Tried to reach a frame deeper than the current env depth"
    );
}

#[test]
fn local_assignment_to_an_undeclared_name_fails() {
    let program = vec![Stmt::Expression {
        expression: Rc::new(Expr::Assign {
            name: token(TokenType::Identifier, "a"),
            value: Rc::new(Expr::Literal { literal: LiteralValue::Nil }),
            id: 0,
        }),
    }];
    let mut interpreter = Interpreter::new();
    interpreter.resolve(0, 0);
    interpreter.interpret(program);
    assert_eq!(drive(&mut interpreter).unwrap_err(), "Variable a has not been declared");
}

#[test]
fn for_anon_makes_the_frame_of_a_call() {
    let mut interpreter = Interpreter::new();
    assert_eq!(interpreter.for_anon(0), Some(1));
    assert_eq!(interpreter.for_anon(1), Some(2));
    assert_eq!(interpreter.for_anon(5), None);
    assert_eq!(interpreter.for_anon(0), Some(3));
}

#[test]
fn a_callable_literal_must_name_a_frame_that_exists() {
    let fun = Rc::new(tox::expr::Function { params: List::empty(), body: List::empty(), closure: 99 });
    let program = vec![Stmt::Print {
        expression: Rc::new(Expr::Literal {
            literal: LiteralValue::Callable { name: None, arity: 0, fun },
        }),
    }];
    let mut interpreter = Interpreter::new();
    interpreter.interpret(program);
    assert_eq!(
        drive(&mut interpreter).unwrap_err(),
        "Tried to reach a frame deeper than the current env depth"
    );
    let fun = Rc::new(tox::expr::Function { params: List::empty(), body: List::empty(), closure: 0 });
    let call = Rc::new(Expr::Call {
        callee: Rc::new(Expr::Literal { literal: LiteralValue::Callable { name: None, arity: 0, fun } }),
        paren: token(TokenType::RightParen, ")"),
        args: List::empty(),
    });
    interpreter.interpret(vec![Stmt::Print { expression: call }]);
    assert_eq!(drive(&mut interpreter).unwrap(), vec!["nil"]);
    assert_eq!(interpreter.frames(), 1);
}
