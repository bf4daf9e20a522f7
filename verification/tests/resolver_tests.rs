use tox::expr::Expr;
use tox::interpreter::Interpreter;
use tox::parser::Parser;
use tox::resolver::{ResolutionError, Resolver};
use tox::scanner::Scanner;
use tox::stmt::Stmt;

fn parse(source: &str) -> Vec<Stmt> {
    let mut scanner = Scanner::new(source);
    Parser::new(scanner.scan_tokens().unwrap()).parse().unwrap()
}

fn resolve(source: &str) -> Result<Interpreter, ResolutionError> {
    let stmts = parse(source);
    let mut interpreter = Interpreter::new();
    let mut resolver = Resolver::new();
    resolver.resolve_many(&stmts, &mut interpreter)?;
    Ok(interpreter)
}

/// The identities of the variable and assignment nodes named `name`, in
/// the order of their tokens.
fn nodes(source: &str, name: &str) -> Vec<usize> {
    let mut scanner = Scanner::new(source);
    let tokens = scanner.scan_tokens().unwrap();
    tokens.iter().enumerate().filter(|(_, t)| t.lexeme == name).map(|(i, _)| i).collect()
}

fn distances(source: &str, name: &str) -> Vec<Option<usize>> {
    let interpreter = resolve(source).unwrap();
    nodes(source, name).iter().map(|id| interpreter.get_distance(*id)).collect()
}

#[test]
fn global_references_get_no_distance() {
    assert_eq!(distances("var a; a; a = nil;", "a"), vec![None, None, None]);
    assert_eq!(distances("var a; { a; { a; } }", "a"), vec![None, None, None]);
    assert_eq!(distances("{ missing; }", "missing"), vec![None]);
}

#[test]
fn distance_counts_the_scopes_in_between() {
    // declaration, then reads at distance 0, 1 and 2
    assert_eq!(
        distances("{ var a; a; { a; { a; } } }", "a"),
        vec![None, Some(0), Some(1), Some(2)]
    );
}

#[test]
fn nearest_declaration_wins() {
    assert_eq!(
        distances("{ var a; { var a; a; { a; } } a; }", "a"),
        vec![None, None, Some(0), Some(1), Some(0)]
    );
}

#[test]
fn a_reference_before_a_later_shadowing_keeps_the_outer_binding() {
    assert_eq!(
        distances("{ var a; { a; var a; a; } }", "a"),
        vec![None, Some(1), None, Some(0)]
    );
}

#[test]
fn parameters_and_body_share_a_scope() {
    assert_eq!(
        distances("{ func f(p) { p; { p = nil; } } }", "p"),
        vec![None, Some(0), Some(1)]
    );
}

#[test]
fn a_function_can_name_itself() {
    assert_eq!(distances("{ func f() { f(); } f; }", "f"), vec![None, Some(1), Some(0)]);
    assert_eq!(distances("func f() { f(); }", "f"), vec![None, None]);
}

#[test]
fn assignment_resolves_its_value_first() {
    assert_eq!(
        distances("{ var a; var b; a = b; }", "b"),
        vec![None, Some(0)]
    );
    assert_eq!(distances("{ var a; { a = a; } }", "a"), vec![None, Some(1), Some(1)]);
}

#[test]
fn own_initializer_is_refused_in_a_scope() {
    match resolve("{ var a = a; }") {
        Err(ResolutionError::OwnInitializer { name }) => {
            assert_eq!(name.lexeme, "a");
            assert_eq!(name.line_number, 1);
        }
        Ok(_) => panic!("resolution should fail"),
    }
    assert!(resolve("{ var a; { var a = a; } }").is_err());
    assert!(resolve("func f(a) { var a = a; }").is_err());
    assert!(resolve("{ var a = nil + (nil * a); }").is_err());
    assert!(resolve("{ var a = nil; a = a; }").is_ok());
    assert!(resolve("{ var b; var a = b; }").is_ok());
}

#[test]
fn own_initializer_is_accepted_at_global_level() {
    assert!(resolve("var a = a;").is_ok());
    assert_eq!(distances("var a = a;", "a"), vec![None, None]);
}

#[test]
fn resolution_stops_at_the_first_error() {
    let source = "{ var x; { x; } { var a = a; } { x; } }";
    let stmts = parse(source);
    let mut interpreter = Interpreter::new();
    let mut resolver = Resolver::new();
    assert!(resolver.resolve_many(&stmts, &mut interpreter).is_err());
    let ids = nodes(source, "x");
    assert_eq!(interpreter.get_distance(ids[1]), Some(1));
    assert_eq!(interpreter.get_distance(ids[2]), None);
    assert_eq!(
        ResolutionError::OwnInitializer { name: scanner_token("a") }.message(),
        "Cannot read local variable in its own initialization"
    );
}

fn scanner_token(name: &str) -> tox::scanner::Token {
    let mut scanner = Scanner::new(name);
    scanner.scan_tokens().unwrap().remove(0)
}

#[test]
fn every_kind_of_node_is_visited() {
    let source =
        "{ var v; if (v) print v; else v; while (v) { return v; } v(v, -v) or !v and v == (v); func f() { v = v; } }";
    let got = distances(source, "v");
    assert_eq!(got.len(), 14);
    assert_eq!(got[0], None);
    // the loop body and the function body are one scope further in
    let expected: Vec<Option<usize>> = vec![
        None,
        Some(0),
        Some(0),
        Some(0),
        Some(0),
        Some(1),
        Some(0),
        Some(0),
        Some(0),
        Some(0),
        Some(0),
        Some(0),
        Some(1),
        Some(1),
    ];
    assert_eq!(got, expected);
}

#[test]
fn resolve_takes_one_statement() {
    let stmts = parse("{ var a; a; }");
    let mut interpreter = Interpreter::new();
    let mut resolver = Resolver::new();
    assert!(resolver.resolve(&stmts[0], &mut interpreter).is_ok());
    assert_eq!(interpreter.get_distance(4), Some(0));
    match &stmts[0] {
        Stmt::Block { stmts } => match &**stmts {
            tox::list::List::Cons { tail, .. } => match &**tail {
                tox::list::List::Cons { head, .. } => match &**head {
                    Stmt::Expression { expression } => match &**expression {
                        Expr::Variable { id, .. } => assert_eq!(*id, 4),
                        other => panic!("unexpected expression {:?}", other),
                    },
                    other => panic!("unexpected statement {:?}", other),
                },
                other => panic!("unexpected list {:?}", other),
            },
            other => panic!("unexpected list {:?}", other),
        },
        other => panic!("unexpected statement {:?}", other),
    }
}
