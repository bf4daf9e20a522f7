use tox::number::Number;
use tox::parser::{Expectation, ParseError, Parser};
use tox::scanner;
use tox::scanner::{Scanner, Token, TokenType};
use tox::stmt::Stmt;

fn number(v: f64) -> Number {
    Number::new(v.to_bits(), v.to_string())
}

fn tokens_of(source: &str) -> Vec<Token> {
    let mut scanner = Scanner::new(source);
    let mut tokens = scanner.scan_tokens().unwrap();
    for token in tokens.iter_mut() {
        if token.token_type == TokenType::Number {
            let v: f64 = token.lexeme.parse().unwrap();
            token.literal = Some(scanner::LiteralValue::FloatValue(number(v)));
        }
    }
    tokens
}

fn parse(source: &str) -> Result<Vec<Stmt>, Vec<ParseError>> {
    Parser::new(tokens_of(source)).parse()
}

fn text(source: &str) -> Vec<String> {
    parse(source).unwrap().iter().map(|s| s.to_string()).collect()
}

fn messages(source: &str) -> Vec<String> {
    parse(source).unwrap_err().iter().map(|e| e.message()).collect()
}

#[test]
fn test_addition() {
    let source = "1+2;";
    let mut scanner = Scanner::new(source);
    let tokens = scanner.scan_tokens().unwrap();
    assert_eq!(tokens.len(), 5);
    let parsed_expr = parse(source).unwrap();
    assert_eq!(parsed_expr.len(), 1);
    assert_eq!(parsed_expr[0].to_string(), "(+ 1 2)");
}

#[test]
fn test_comparison() {
    let source = "1+2 == 3+4;";
    let parsed_expr = parse(source).unwrap();
    assert_eq!(parsed_expr.len(), 1);
    assert_eq!(parsed_expr[0].to_string(), "(== (+ 1 2) (+ 3 4))");
}

#[test]
fn test_factor() {
    let source = "3-4*2;";
    let parsed_expr = parse(source).unwrap();
    assert_eq!(parsed_expr.len(), 1);
    assert_eq!(parsed_expr[0].to_string(), "(- 3 (* 4 2))");
}

#[test]
fn test_eq_with_paren() {
    let source = "1 == (2+2);";
    let parsed_expr = parse(source).unwrap();
    assert_eq!(parsed_expr.len(), 1);
    assert_eq!(parsed_expr[0].to_string(), "(== 1 (group (+ 2 2)))");
}

#[test]
fn parsed_source_prints_as_its_tree() {
    assert_eq!(text("-123 * (45.67);"), vec!["(* (- 123) (group 45.67))"]);
}

#[test]
fn binary_levels_associate_to_the_left() {
    assert_eq!(text("1 - 2 - 3;"), vec!["(- (- 1 2) 3)"]);
    assert_eq!(text("8 / 4 / 2 * 3;"), vec!["(* (/ (/ 8 4) 2) 3)"]);
    assert_eq!(text("1 < 2 <= 3 > 4 >= 5;"), vec!["(>= (> (<= (< 1 2) 3) 4) 5)"]);
    assert_eq!(text("1 == 2 != 3;"), vec!["(!= (== 1 2) 3)"]);
    assert_eq!(text("true or false or nil;"), vec!["(Or (Or true false) nil)"]);
    assert_eq!(text("true and false and nil;"), vec!["(And (And true false) nil)"]);
}

#[test]
fn precedence_from_loose_to_tight() {
    assert_eq!(
        text("1 or 2 and 3 == 4 < 5 + 6 * -7;"),
        vec!["(Or 1 (And 2 (== 3 (< 4 (+ 5 (* 6 (- 7)))))))"]
    );
    assert_eq!(text("!true == false;"), vec!["(== (! true) false)"]);
    assert_eq!(text("!!-1;"), vec!["(! (! (- 1)))"]);
}

#[test]
fn assignment_associates_to_the_right() {
    let stmts = parse("a = b = 1;").unwrap();
    assert_eq!(
        stmts[0].to_string(),
        "(assign Token { token_type: Identifier, lexeme: \"a\", literal: None, line_number: 1 } (assign Token { token_type: Identifier, lexeme: \"b\", literal: None, line_number: 1 } 1))"
    );
}

#[test]
fn assignment_takes_a_bare_variable_only() {
    assert_eq!(messages("1 = 2;"), vec!["Invalid assignment target"]);
    assert_eq!(messages("(a) = 2;"), vec!["Invalid assignment target"]);
    assert_eq!(messages("a + b = 2;"), vec!["Invalid assignment target"]);
    assert_eq!(messages("f() = 2;"), vec!["Invalid assignment target"]);
}

#[test]
fn calls_chain_on_any_callee() {
    assert_eq!(
        text("f(1)(2, 3)();"),
        vec!["<fn <fn <fn (var Token { token_type: Identifier, lexeme: \"f\", literal: None, line_number: 1 })> [1]> [2, 3]> []"]
    );
    assert_eq!(text("(1)(2);"), vec!["<fn (group 1)> [2]"]);
}

#[test]
fn statements_print_as_their_tree() {
    assert_eq!(text("print 1 + 2;"), vec!["(print (+ 1 2))"]);
    assert_eq!(text("var a = 1; var b;"), vec!["(var a)", "(var b)"]);
    assert_eq!(text("{ print 1; print 2; }"), vec!["(print 1)(print 2)"]);
    assert_eq!(text("if (true) print 1; else print 2;"), vec!["(if true (print 1) (print 2))"]);
    assert_eq!(text("if (true) print 1;"), vec!["(if true (print 1))"]);
    assert_eq!(text("while (false) print 1;"), vec!["(while false (print 1))"]);
    assert_eq!(text("func f(a) { return a; }"), vec!["(fun f)"]);
    assert_eq!(text("return; return 1;"), vec!["(return)", "(return 1)"]);
}

#[test]
fn else_belongs_to_the_nearest_if() {
    assert_eq!(
        text("if (1) if (2) print 3; else print 4;"),
        vec!["(if 1 (if 2 (print 3) (print 4)))"]
    );
}

#[test]
fn for_becomes_a_while_loop() {
    assert_eq!(
        text("for (var i = 0; i < 3; i = i + 1) print i;"),
        vec!["(var i)(while (< (var Token { token_type: Identifier, lexeme: \"i\", literal: None, line_number: 1 }) 3) (print (var Token { token_type: Identifier, lexeme: \"i\", literal: None, line_number: 1 }))(assign Token { token_type: Identifier, lexeme: \"i\", literal: None, line_number: 1 } (+ (var Token { token_type: Identifier, lexeme: \"i\", literal: None, line_number: 1 }) 1)))"]
    );
    assert_eq!(text("for (;;) print 1;"), vec!["(while true (print 1))"]);
    assert_eq!(text("for (; false;) print 1;"), vec!["(while false (print 1))"]);
    assert_eq!(text("for (1; 2; 3) print 4;"), vec!["1(while 2 (print 4)3)"]);
    match &parse("for (;;) print 1;").unwrap()[0] {
        Stmt::WhileLoop { .. } => {}
        other => panic!("unexpected statement {:?}", other),
    }
    match &parse("for (var i = 0;;) print 1;").unwrap()[0] {
        Stmt::Block { .. } => {}
        other => panic!("unexpected statement {:?}", other),
    }
}

#[test]
fn variable_nodes_are_numbered_by_their_token() {
    let stmts = Parser::numbered(tokens_of("a; a;"), 100).parse().unwrap();
    let ids: Vec<usize> = stmts
        .iter()
        .map(|s| match s {
            Stmt::Expression { expression } => match &**expression {
                tox::expr::Expr::Variable { id, .. } => *id,
                other => panic!("unexpected expression {:?}", other),
            },
            other => panic!("unexpected statement {:?}", other),
        })
        .collect();
    assert_eq!(ids, vec![100, 102]);
}

#[test]
fn missing_delimiters() {
    assert_eq!(messages("print 1"), vec!["Expected ';' after value"]);
    assert_eq!(messages("1 + 2"), vec!["Expected ';' after expression"]);
    assert_eq!(messages("var a = 1"), vec!["Expected ';' after variable declaration"]);
    assert_eq!(messages("var 1;"), vec!["Expect variable name."]);
    assert_eq!(messages("{ print 1;"), vec!["Expect '}' after block."]);
    assert_eq!(messages("(1 + 2;"), vec!["Expected ')'"]);
    assert_eq!(messages("f(1, 2;"), vec!["Expexted ')' after arguments"]);
    assert_eq!(messages("if true) print 1;"), vec!["Expected '(' after 'if'"]);
    assert_eq!(messages("if (true print 1;"), vec!["Expected ')' after if-predicate"]);
    assert_eq!(messages("while true) print 1;"), vec!["Expect '(' after 'while'."]);
    assert_eq!(messages("while (true print 1;"), vec!["Expect ')' after condition."]);
    assert_eq!(messages("for var i = 0;;) print 1;"), vec!["Expect '(' after 'for'."]);
    assert_eq!(messages("for (;true) print 1;"), vec!["Expect ';' after loop condition."]);
    assert_eq!(messages("for (;;1 print 1;"), vec!["Expect ')' after for clauses."]);
    assert_eq!(messages("func (a) {}"), vec!["Expected Function name"]);
    assert_eq!(messages("func f a) {}"), vec!["Expected '(' after Function name"]);
    assert_eq!(messages("func f(1) {}"), vec!["Expected parameter name"]);
    assert_eq!(messages("func f(a {}"), vec!["Expected ')' after parameters"]);
    assert_eq!(messages("func f(a) print 1;"), vec!["Expected '{' before Function name"]);
    assert_eq!(messages("func f(a) { print 1;"), vec!["Expect '}' after block."]);
    assert_eq!(messages("return 1"), vec!["Expected ';' after return value"]);
}

#[test]
fn token_that_begins_no_expression() {
    let errors = parse("print +;").unwrap_err();
    assert_eq!(errors.len(), 1);
    match &errors[0] {
        ParseError::NotPrimary { token } => {
            assert_eq!(token.token_type, TokenType::Plus);
            assert_eq!(token.line_number, 1);
        }
        other => panic!("unexpected error {:?}", other),
    }
    assert_eq!(
        errors[0].message(),
        "Token { token_type: Plus, lexeme: \"+\", literal: None, line_number: 1 } is not a primary"
    );
}

#[test]
fn number_token_without_its_number_begins_no_expression() {
    let mut scanner = Scanner::new("print 1;");
    let tokens = scanner.scan_tokens().unwrap();
    let errors = Parser::new(tokens).parse().unwrap_err();
    match &errors[0] {
        ParseError::NotPrimary { token } => assert_eq!(token.token_type, TokenType::Number),
        other => panic!("unexpected error {:?}", other),
    }
}

#[test]
fn parser_goes_on_after_an_error() {
    let errors = parse("print 1 print 2; var = 3; print 4; { 5 }").unwrap_err();
    let got: Vec<String> = errors.iter().map(|e| e.message()).collect();
    assert_eq!(
        got,
        vec!["Expected ';' after value", "Expect variable name.", "Expected ';' after expression"]
    );
    assert_eq!(
        ParseError::report(&errors),
        "Expected ';' after value\nExpect variable name.\nExpected ';' after expression\n"
    );
}

#[test]
fn synchronizing_skips_to_the_next_keyword() {
    let errors = parse("1 2 3 4 ; 5 ; print 6; + ; 7; var a;").unwrap_err();
    assert_eq!(errors.len(), 2);
    match (&errors[0], &errors[1]) {
        (ParseError::Expected(Expectation::SemicolonAfterExpression), ParseError::NotPrimary { token }) => {
            assert_eq!(token.token_type, TokenType::Plus)
        }
        other => panic!("unexpected errors {:?}", other),
    }
}

fn call_with(arguments: usize) -> String {
    let mut source = String::from("f(");
    for i in 0..arguments {
        if i > 0 {
            source.push_str(", ");
        }
        source.push('1');
    }
    source.push_str(");");
    source
}

fn function_with(parameters: usize) -> String {
    let mut source = String::from("func f(");
    for i in 0..parameters {
        if i > 0 {
            source.push_str(", ");
        }
        source.push_str(&format!("p{}", i));
    }
    source.push_str(") { }");
    source
}

#[test]
fn at_most_255_arguments() {
    assert!(parse(&call_with(0)).is_ok());
    assert!(parse(&call_with(255)).is_ok());
    assert_eq!(messages(&call_with(256)), vec!["Line 1: Cannot have more than 255 args"]);
    match &parse(&call_with(300)).unwrap_err()[0] {
        ParseError::TooManyArguments { line } => assert_eq!(*line, 1),
        other => panic!("unexpected error {:?}", other),
    }
}

#[test]
fn at_most_255_parameters() {
    assert!(parse(&function_with(0)).is_ok());
    assert!(parse(&function_with(255)).is_ok());
    assert_eq!(messages(&function_with(256)), vec!["Line 1: Cannot have more than 255 args"]);
}

#[test]
fn empty_program() {
    assert!(parse("").unwrap().is_empty());
    assert!(parse("// nothing\n").unwrap().is_empty());
}
