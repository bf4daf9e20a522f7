use std::rc::Rc;
use tox::expr::{unwrap_as_string, Expr, Function, Kind, LiteralValue};
use tox::interpreter::Interpreter;
use tox::list::List;
use tox::number::Number;
use tox::scanner;
use tox::scanner::{Token, TokenType};

fn number(v: f64) -> Number {
    Number::new(v.to_bits(), v.to_string())
}

fn token(token_type: TokenType, lexeme: &str) -> Token {
    Token { token_type, lexeme: lexeme.to_string(), literal: None, line_number: 1 as usize }
}

fn sample(id: usize) -> Expr {
    let minus_token = Token {
        token_type: TokenType::Minus,
        lexeme: "-".to_string(),
        literal: None,
        line_number: 1 as usize,
    };
    let onetwothree = Rc::new(Expr::Literal { literal: LiteralValue::Number(number(123.0)) });
    let multi = Token {
        token_type: TokenType::Star,
        lexeme: "*".to_string(),
        literal: None,
        line_number: 1 as usize,
    };
    let group = Rc::new(Expr::Grouping {
        expression: Rc::new(Expr::Literal { literal: LiteralValue::Number(number(45.67)) }),
    });
    let _ = id;
    Expr::Binary {
        left: Rc::new(Expr::Unary { operator: minus_token, right: onetwothree }),
        operator: multi,
        right: group,
    }
}

#[test]
fn pretty_print_ast() {
    let ast = sample(0);
    assert_eq!(ast.to_string(), "(* (- 123) (group 45.67))".to_string());
}

#[test]
fn expr_traits() {
    // Two references that look alike are two nodes: what is recorded for
    // one is not found for the other.
    let first = Expr::Variable { name: token(TokenType::Identifier, "a"), id: 2 };
    let second = Expr::Variable { name: token(TokenType::Identifier, "a"), id: 7 };
    assert_eq!(first.to_string(), second.to_string());
    let mut interpreter = Interpreter::new();
    let (first_id, second_id) = match (&first, &second) {
        (Expr::Variable { id: a, .. }, Expr::Variable { id: b, .. }) => (*a, *b),
        _ => unreachable!(),
    };
    interpreter.resolve(first_id, 2);
    match interpreter.get_distance(first_id) {
        Some(_) => (),
        None => panic!("Should be able to get the value in trait expr"),
    }
    match interpreter.get_distance(second_id) {
        None => (),
        Some(_) => panic!("Should get None in expr traits"),
    }
}

#[test]
fn values_are_written_out() {
    assert_eq!(LiteralValue::Number(number(123.0)).to_string(), "123");
    assert_eq!(LiteralValue::Number(number(0.5)).to_string(), "0.5");
    assert_eq!(LiteralValue::StringValue("a b".to_string()).to_string(), "\"a b\"");
    assert_eq!(LiteralValue::StringValue(String::new()).to_string(), "\"\"");
    assert_eq!(LiteralValue::True.to_string(), "true");
    assert_eq!(LiteralValue::False.to_string(), "false");
    assert_eq!(LiteralValue::Nil.to_string(), "nil");
    let fun = Rc::new(Function { params: List::empty(), body: List::empty(), closure: 0 });
    assert_eq!(
        LiteralValue::Callable { name: None, arity: 12, fun: fun.clone() }.to_string(),
        "<fn anon_function>/12"
    );
    assert_eq!(
        LiteralValue::Callable { name: Some(token(TokenType::Identifier, "go")), arity: 0, fun }.to_string(),
        "<fn Identifier go None>/0"
    );
}

#[test]
fn kinds_of_values() {
    assert_eq!(LiteralValue::Number(number(1.0)).to_type(), "Number");
    assert_eq!(LiteralValue::StringValue("x".to_string()).to_type(), "String");
    assert_eq!(LiteralValue::True.to_type(), "Boolean");
    assert_eq!(LiteralValue::False.to_type(), "Boolean");
    assert_eq!(LiteralValue::Nil.to_type(), "Nil");
    let fun = Rc::new(Function { params: List::empty(), body: List::empty(), closure: 0 });
    let callable = LiteralValue::Callable { name: None, arity: 0, fun };
    assert_eq!(callable.to_type(), "Callable");
    assert_eq!(callable.kind(), Kind::Callable);
    assert_eq!(Kind::Boolean.name(), "Boolean");
}

fn is_true(v: LiteralValue) -> bool {
    matches!(v, LiteralValue::True)
}

#[test]
fn truthiness_of_values() {
    assert!(is_true(LiteralValue::Number(number(0.0)).is_falsy()));
    assert!(is_true(LiteralValue::Number(number(-0.0)).is_falsy()));
    assert!(is_true(LiteralValue::StringValue(String::new()).is_falsy()));
    assert!(is_true(LiteralValue::StringValue("0".to_string()).is_truthy()));
    assert!(is_true(LiteralValue::Nil.is_falsy()));
    assert!(is_true(LiteralValue::False.is_falsy()));
    assert!(is_true(LiteralValue::True.is_truthy()));
    assert!(is_true(LiteralValue::Number(number(1e-300)).is_truthy()));
    assert!(is_true(LiteralValue::Number(number(f64::NAN)).is_truthy()));
    assert!(is_true(LiteralValue::Number(number(f64::NEG_INFINITY)).is_truthy()));
    assert!(is_true(LiteralValue::StringValue(" ".to_string()).is_truthy()));
    let fun = Rc::new(Function { params: List::empty(), body: List::empty(), closure: 0 });
    assert!(is_true(LiteralValue::Callable { name: None, arity: 0, fun }.is_truthy()));
    assert!(!is_true(LiteralValue::Number(number(0.0)).is_truthy()));
    assert!(!is_true(LiteralValue::True.is_falsy()));
    assert!(LiteralValue::True.truthy());
    assert!(!LiteralValue::Nil.truthy());
    assert!(is_true(LiteralValue::from_bool(true)));
    assert!(!is_true(LiteralValue::from_bool(false)));
}

#[test]
fn literal_tokens_become_values() {
    let mut n = token(TokenType::Number, "1.5");
    n.literal = Some(scanner::LiteralValue::FloatValue(number(1.5)));
    match LiteralValue::from_token(&n) {
        LiteralValue::Number(v) => assert_eq!(f64::from_bits(v.bits), 1.5),
        other => panic!("unexpected value {:?}", other),
    }
    let mut s = token(TokenType::String_, "\"hi\"");
    s.literal = Some(scanner::LiteralValue::StringValue("hi".to_string()));
    match LiteralValue::from_token(&s) {
        LiteralValue::StringValue(v) => assert_eq!(v, "hi"),
        other => panic!("unexpected value {:?}", other),
    }
    assert!(matches!(LiteralValue::from_token(&token(TokenType::True, "true")), LiteralValue::True));
    assert!(matches!(LiteralValue::from_token(&token(TokenType::False, "false")), LiteralValue::False));
    assert!(matches!(LiteralValue::from_token(&token(TokenType::Nil, "nil")), LiteralValue::Nil));
    assert_eq!(
        unwrap_as_string(Some(scanner::LiteralValue::StringValue("text".to_string()))),
        "text"
    );
}

#[test]
fn equality_of_values() {
    let one = LiteralValue::Number(number(1.0));
    assert!(one.equals(&LiteralValue::Number(number(1.0))));
    assert!(!one.equals(&LiteralValue::Number(number(2.0))));
    assert!(LiteralValue::Number(number(0.0)).equals(&LiteralValue::Number(number(-0.0))));
    assert!(!LiteralValue::Number(number(f64::NAN)).equals(&LiteralValue::Number(number(f64::NAN))));
    assert!(!one.equals(&LiteralValue::StringValue("1".to_string())));
    assert!(!LiteralValue::Nil.equals(&LiteralValue::False));
    assert!(LiteralValue::Nil.equals(&LiteralValue::Nil));
    assert!(!LiteralValue::True.equals(&LiteralValue::False));
    assert!(LiteralValue::StringValue("a".to_string()).equals(&LiteralValue::StringValue("a".to_string())));
}

#[test]
fn other_expressions_are_written_out() {
    let a = Rc::new(Expr::Variable { name: token(TokenType::Identifier, "a"), id: 0 });
    assert_eq!(
        a.to_string(),
        "(var Token { token_type: Identifier, lexeme: \"a\", literal: None, line_number: 1 })"
    );
    let or = Expr::Logical {
        left: Rc::new(Expr::Literal { literal: LiteralValue::True }),
        operator: token(TokenType::Or, "or"),
        right: Rc::new(Expr::Literal { literal: LiteralValue::Nil }),
    };
    assert_eq!(or.to_string(), "(Or true nil)");
    let anon = Expr::AnonFunc {
        paren: token(TokenType::LeftParen, "("),
        args: List::from_vec(vec![token(TokenType::Identifier, "x"), token(TokenType::Identifier, "y")]),
        body: List::empty(),
    };
    assert_eq!(anon.to_string(), "anon/2");
}
