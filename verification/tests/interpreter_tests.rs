use tox::expr::{LiteralValue, Native, RuntimeError};
use tox::interpreter::{Interpreter, Request};
use tox::number::Number;
use tox::parser::Parser;
use tox::scanner;
use tox::scanner::{LexError, Scanner, TokenType};

fn number(v: f64) -> Number {
    Number::new(v.to_bits(), v.to_string())
}

fn value(n: &Number) -> f64 {
    f64::from_bits(n.bits)
}

/// Everything a driver does around the library: converts number literals,
/// computes arithmetic, and collects what is printed.
struct Session {
    interpreter: Interpreter,
    printed: Vec<String>,
    clock: f64,
}

fn session() -> Session {
    Session { interpreter: Interpreter::new(), printed: vec![], clock: 0.0 }
}

fn submit(session: &mut Session, source: &str) -> Result<(), String> {
    let mut scanner = Scanner::new(source);
    let mut tokens = scanner.scan_tokens().map_err(|e| LexError::report(&e))?;
    for token in tokens.iter_mut() {
        if token.token_type == TokenType::Number {
            let v: f64 = token.lexeme.parse().unwrap();
            token.literal = Some(scanner::LiteralValue::FloatValue(number(v)));
        }
    }
    tox::run(&mut session.interpreter, tokens).map_err(|e| e.message())?;
    let mut reply: Option<Number> = None;
    let mut steps: u64 = 0;
    loop {
        steps += 1;
        assert!(steps < 50_000_000, "the program does not end");
        match session.interpreter.step(reply.take()) {
            Request::Continue => {}
            Request::Print(v) => session.printed.push(v.to_string()),
            Request::Negate(n) => reply = Some(number(-value(&n))),
            Request::Arithmetic { operator, left, right } => {
                let (a, b) = (value(&left), value(&right));
                reply = Some(number(match operator {
                    TokenType::Plus => a + b,
                    TokenType::Minus => a - b,
                    TokenType::Star => a * b,
                    TokenType::Slash => a / b,
                    other => panic!("no arithmetic operator: {:?}", other),
                }));
            }
            Request::Native(Native::Clock) => {
                session.clock += 1.5;
                reply = Some(number(session.clock));
            }
            Request::Finished => return Ok(()),
            Request::Failed(e) => return Err(e.message()),
        }
    }
}

fn run(source: &str) -> Result<Vec<String>, String> {
    let mut s = session();
    submit(&mut s, source)?;
    Ok(s.printed)
}

fn lines(source: &str) -> Vec<String> {
    run(source).unwrap()
}

fn failure(source: &str) -> String {
    run(source).unwrap_err()
}

#[test]
fn factor_binds_tighter_than_term() {
    assert_eq!(lines("print 3-4*2;"), vec!["-5"]);
    assert_eq!(lines("print (3-4)*2;"), vec!["-2"]);
    assert_eq!(lines("print 1+2*3-4/2;"), vec!["5"]);
}

#[test]
fn interpret_block() {
    let out = lines("var a = 1; { var b = 2; print a + b; } var c = 3; print c;");
    assert_eq!(out.len() + 1, 3);
    assert_eq!(out[0], "3");
    assert_eq!(out[1], "3");
}

#[test]
fn interpret_while() {
    let out = lines("var i = 2; while (i > 0) { i = i - 1; print i; }");
    assert_eq!(out.len() + 1, 3);
    assert_eq!(out[0], "1");
    assert_eq!(out[1], "0");
}

#[test]
fn interpret_while_math() {
    let out = lines(
        "var p = 1; var i = 10; while (i > 1) { p = p * i; print p; i = i - 1; } print p;",
    );
    assert_eq!(out.len() + 1, 11);
    assert_eq!(out[0], "10");
    assert_eq!(out[1], "90");
    assert_eq!(out[2], "720");
    assert_eq!(out[3], "5040");
    assert_eq!(out[4], "30240");
    assert_eq!(out[5], "151200");
    assert_eq!(out[6], "604800");
    assert_eq!(out[7], "1814400");
    assert_eq!(out[8], "3628800");
    assert_eq!(out[9], "3628800");
}

#[test]
fn interpret_for_loop() {
    let out = lines(
        "var a = 0; var b = 1; var temp; for (var i = 0; i < 21; i = i + 1) { print a; temp = b; b = a + b; a = temp; }",
    );
    let mut fibo = vec![];
    let mut a = 0;
    let mut b = 1;
    let mut temp;
    for _i in 0..21 {
        fibo.push(a);
        temp = b;
        b = a + b;
        a = temp;
    }
    assert_eq!(out.len() + 1, fibo.len() + 1);
    for i in 0..fibo.len() {
        assert_eq!(out[i], fibo[i].to_string());
    }
}

#[test]
fn function_defination() {
    let out = lines("func show(a, b, c) { print a; print b; print c; } show(1, 2, 3);");
    assert_eq!(out.len() + 1, 4);
    assert_eq!(out[0], "1");
    assert_eq!(out[1], "2");
    assert_eq!(out[2], "3");
}

#[test]
fn function_changes_local_env() {
    let out = lines("var a = 1; func change() { var a = 3; print a; } change();");
    assert_eq!(out.len() + 1, 2);
    assert_eq!(out[0], "3");
}

#[test]
fn function_return() {
    let out = lines("func add(a, b) { return a + b; print 0; } print add(2, 3);");
    assert_eq!(out.len() + 1, 2);
    assert_eq!(out[0], "5");
}

#[test]
fn function_return_nil() {
    let out = lines("func nothing() { return; } print nothing();");
    assert_eq!(out.len() + 1, 2);
    assert_eq!(out[0], "nil");
    assert_eq!(lines("func empty() { } print empty();"), vec!["nil"]);
}

#[test]
fn function_cond() {
    let out = lines(
        "func pick(n) { if (n > 3) { return 5; } else { return 1; } } print pick(4); print pick(2);",
    );
    assert_eq!(out[0], "5");
    assert_eq!(out[1], "1");
}

#[test]
fn fibonacci_series() {
    let out = lines(
        "func fib(n) { if (n < 3) return 1; return fib(n - 1) + fib(n - 2); } for (var i = 1; i <= 20; i = i + 1) print fib(i);",
    );
    assert_eq!(out[0], "1");
    assert_eq!(out[1], "1");
    assert_eq!(out[2], "2");
    assert_eq!(out[3], "3");
    assert_eq!(out[4], "5");
    assert_eq!(out[5], "8");
    assert_eq!(out[6], "13");
    assert_eq!(out[7], "21");
    assert_eq!(out[8], "34");
    assert_eq!(out[9], "55");
    assert_eq!(out[10], "89");
    assert_eq!(out[11], "144");
    assert_eq!(out[12], "233");
    assert_eq!(out[13], "377");
    assert_eq!(out[14], "610");
    assert_eq!(out[15], "987");
    assert_eq!(out[16], "1597");
    assert_eq!(out[17], "2584");
    assert_eq!(out[18], "4181");
    assert_eq!(out[19], "6765");
}

#[test]
fn for_loop_counts_and_leaves_no_variable_behind() {
    assert_eq!(lines("for (var i=0; i<3; i=i+1) print i;"), vec!["0", "1", "2"]);
    assert_eq!(
        failure("for (var i=0; i<3; i=i+1) print i; print i;"),
        "Variable 'i' is not defined"
    );
}

#[test]
fn closure_reads_the_current_value_of_a_captured_variable() {
    let out = lines(
        "var get; var x = 1; { func read() { return x; } get = read; } x = 2; print get(); x = x + 40; print get();",
    );
    assert_eq!(out, vec!["2", "42"]);
}

#[test]
fn closure_keeps_its_frame_after_the_block_is_left() {
    let out = lines(
        "func counter() { var n = 0; func next() { n = n + 1; return n; } return next; } var a = counter(); var b = counter(); print a(); print a(); print b(); print a();",
    );
    assert_eq!(out, vec!["1", "2", "1", "3"]);
}

#[test]
fn later_shadowing_does_not_change_what_a_closure_sees() {
    let out = lines(
        "var a = 1; { func show() { print a; } show(); var a = 2; show(); print a; }",
    );
    assert_eq!(out, vec!["1", "1", "2"]);
}

#[test]
fn arity_mismatch_names_both_counts() {
    assert_eq!(
        failure("func two(a, b) { return a; } two(1);"),
        "Callable 'Identifier two None' expexted 2 arguments and got 1 arguments"
    );
    assert_eq!(
        failure("func two(a, b) { return a; } two(1, 2, 3);"),
        "Callable 'Identifier two None' expexted 2 arguments and got 3 arguments"
    );
    assert_eq!(lines("func two(a, b) { return b; } print two(1, 2);"), vec!["2"]);
}

#[test]
fn arguments_are_not_evaluated_when_the_count_is_wrong() {
    assert_eq!(
        failure("func one(a) { return a; } one(1, missing);"),
        "Callable 'Identifier one None' expexted 1 arguments and got 2 arguments"
    );
}

#[test]
fn own_initializer_is_an_error_in_a_local_scope_only() {
    assert_eq!(
        failure("{ var a = a; }"),
        "Cannot read local variable in its own initialization"
    );
    assert_eq!(
        failure("var a = 1; func f() { var a = a; } f();"),
        "Cannot read local variable in its own initialization"
    );
    assert_eq!(lines("var a = 1; var a = a; print a;"), vec!["1"]);
    assert_eq!(failure("var a = a;"), "Variable 'a' is not defined");
}

#[test]
fn truthiness() {
    let out = lines(
        "if (0) print 1; else print 2; if (\"\") print 1; else print 2; if (\"0\") print 1; else print 2; if (nil) print 1; else print 2; if (false) print 1; else print 2; if (true) print 1; else print 2; if (0.5) print 1; else print 2; func f() {} if (f) print 1; else print 2;",
    );
    assert_eq!(out, vec!["2", "2", "1", "2", "2", "1", "1", "1"]);
    assert_eq!(lines("print !0; print !1; print !\"\"; print !nil; print !!2;"), vec!["true", "false", "true", "true", "true"]);
    assert_eq!(lines("print !(0 - 0); print !(0 * (0 - 1));"), vec!["true", "true"]);
}

#[test]
fn logical_operators_return_an_operand() {
    assert_eq!(lines("print 1 or 2; print 0 or 2; print nil or false;"), vec!["1", "2", "false"]);
    assert_eq!(lines("print 1 and 2; print 0 and 2; print nil and 1;"), vec!["2", "0", "nil"]);
    assert_eq!(lines("print \"\" or \"x\"; print \"a\" and \"\";"), vec!["\"x\"", "\"\""]);
    assert_eq!(lines("var a = 1; true or (a = 2); false and (a = 3); print a;"), vec!["1"]);
    assert_eq!(lines("print 0 or 0 or 3; print 1 and 2 and 3; print 0 or 1 and 2;"), vec!["3", "3", "2"]);
}

#[test]
fn comparison_and_equality() {
    assert_eq!(lines("print 1 < 2; print 2 <= 2; print 3 > 4; print 4 >= 4;"), vec!["true", "true", "false", "true"]);
    assert_eq!(lines("print 0 - 1 < 0; print 0 - 2 < 0 - 1; print 0 - 1 > 0 - 2; print 0 * (0 - 1) == 0;"), vec!["true", "true", "true", "true"]);
    assert_eq!(lines("print \"a\" < \"b\"; print \"ab\" < \"a\"; print \"a\" <= \"a\"; print \"b\" > \"ab\"; print \"\" >= \"a\";"), vec!["true", "false", "true", "true", "false"]);
    assert_eq!(lines("print 1 == 1; print 1 != 1; print \"a\" == \"a\"; print nil == nil; print true == false;"), vec!["true", "false", "true", "true", "false"]);
    assert_eq!(lines("print 1 == \"1\"; print nil == false; print 0 != nil; print \"\" == nil;"), vec!["false", "false", "true", "false"]);
    assert_eq!(lines("func f() {} func g() {} var h = f; print f == h; print f == g;"), vec!["true", "false"]);
}

#[test]
fn not_a_number_is_unordered_and_unequal() {
    let out = lines("var n = 0 / 0; print n == n; print n != n; print n < 1; print n >= 1; print n <= n; if (n) print 1; else print 2;");
    assert_eq!(out, vec!["false", "true", "false", "false", "false", "1"]);
}

#[test]
fn arithmetic_is_done_in_binary64() {
    assert_eq!(lines("print 0.1 + 0.2; print 1 / 3; print 7 / 2; print 1 / 0; print -(1 / 0);"), vec![
        "0.30000000000000004",
        "0.3333333333333333",
        "3.5",
        "inf",
        "-inf"
    ]);
    assert_eq!(lines("print -3; print --3; print -0; print 2 * -3;"), vec!["-3", "3", "-0", "-6"]);
}

#[test]
fn strings_concatenate() {
    assert_eq!(lines("print \"ab\" + \"cd\"; print \"\" + \"\"; var s = \"x\"; s = s + s + s; print s;"), vec!["\"abcd\"", "\"\"", "\"xxx\""]);
}

#[test]
fn operators_reject_mixed_kinds() {
    assert_eq!(failure("print 1 + \"a\";"), "Plus Not implemented on 'Number' and 'String'");
    assert_eq!(failure("print \"a\" - \"b\";"), "Minus Not implemented on 'String' and 'String'");
    assert_eq!(failure("print nil < 1;"), "Less Not implemented on 'Nil' and 'Number'");
    assert_eq!(failure("print true * false;"), "Star Not implemented on 'Boolean' and 'Boolean'");
    assert_eq!(failure("print -\"a\";"), "Minus Not not a valid Unary operator on String");
    assert_eq!(failure("print -nil;"), "Minus Not not a valid Unary operator on Nil");
}

#[test]
fn calling_what_is_no_callable_fails() {
    assert_eq!(failure("var a = 1; a();"), "Number is not callable");
    assert_eq!(failure("\"f\"(1);"), "String is not callable");
    assert_eq!(failure("nil();"), "Nil is not callable");
}

#[test]
fn undefined_variable_fails() {
    assert_eq!(failure("print missing;"), "Variable 'missing' is not defined");
    assert_eq!(failure("{ print missing; }"), "Variable 'missing' is not defined");
}

#[test]
fn global_assignment_creates_the_variable() {
    assert_eq!(lines("made = 3; print made;"), vec!["3"]);
    assert_eq!(lines("func f() { made = 4; } f(); print made;"), vec!["4"]);
}

#[test]
fn assignment_is_an_expression_and_associates_to_the_right() {
    assert_eq!(lines("var a; var b; a = b = 2; print a; print b; print a = 5;"), vec!["2", "2", "5"]);
}

#[test]
fn assignment_reaches_the_declaring_scope() {
    assert_eq!(lines("{ var a = 1; { { a = 2; } print a; } print a; }"), vec!["2", "2"]);
    assert_eq!(lines("{ var a = 1; { var a = 2; a = 3; print a; } print a; }"), vec!["3", "1"]);
}

#[test]
fn return_leaves_nested_blocks_and_loops() {
    let out = lines(
        "func find() { var i = 0; while (true) { { if (i == 3) { return i; } } i = i + 1; } } print find(); print 9;",
    );
    assert_eq!(out, vec!["3", "9"]);
}

#[test]
fn return_value_reaches_the_calling_expression() {
    assert_eq!(lines("func two() { return 2; } print two() * two() + two();"), vec!["6"]);
    assert_eq!(lines("func id(x) { return x; } print id(id(id(7)));"), vec!["7"]);
}

#[test]
fn calls_chain() {
    assert_eq!(
        lines("func adder(a) { func add(b) { return a + b; } return add; } print adder(1)(2);"),
        vec!["3"]
    );
}

#[test]
fn arguments_are_evaluated_in_order_in_the_callers_scope() {
    let out = lines(
        "var n = 0; func tick() { n = n + 1; return n; } func pair(a, b) { print a; print b; } pair(tick(), tick());",
    );
    assert_eq!(out, vec!["1", "2"]);
}

#[test]
fn recursion_goes_deep() {
    assert_eq!(
        lines("func sum(n) { if (n == 0) return 0; return n + sum(n - 1); } print sum(20000);"),
        vec!["200010000"]
    );
}

#[test]
fn printing_values() {
    assert_eq!(lines("print 45.67; print 1.0; print 100; print \"hi\"; print true; print false; print nil;"), vec![
        "45.67", "1", "100", "\"hi\"", "true", "false", "nil"
    ]);
    assert_eq!(lines("func f(a, b) {} print f;"), vec!["<fn Identifier f None>/2"]);
}

#[test]
fn what_was_printed_before_a_failure_stays() {
    let mut s = session();
    let r = submit(&mut s, "print 1; print 2; print missing; print 3;");
    assert_eq!(r.unwrap_err(), "Variable 'missing' is not defined");
    assert_eq!(s.printed, vec!["1", "2"]);
}

#[test]
fn a_session_goes_on_after_a_failure() {
    let mut s = session();
    submit(&mut s, "var a = 1; func get() { return a; }").unwrap();
    assert!(submit(&mut s, "{ var b = 2; print b + nil; }").is_err());
    submit(&mut s, "a = a + 1; print get();").unwrap();
    assert_eq!(s.printed, vec!["2"]);
    assert!(submit(&mut s, "print b;").is_err());
}

#[test]
fn parse_errors_stop_before_anything_runs() {
    let mut s = session();
    let r = submit(&mut s, "print 1; print ; print 2");
    assert_eq!(
        r.unwrap_err(),
        "Token { token_type: Semicolon, lexeme: \";\", literal: None, line_number: 1 } is not a primary\nExpected ';' after value\n"
    );
    assert!(s.printed.is_empty());
}

#[test]
fn machine_asks_for_arithmetic_until_it_is_answered() {
    let mut s = session();
    let mut scanner = Scanner::new("print 1 + 2;");
    let mut tokens = scanner.scan_tokens().unwrap();
    for token in tokens.iter_mut() {
        if token.token_type == TokenType::Number {
            let v: f64 = token.lexeme.parse().unwrap();
            token.literal = Some(scanner::LiteralValue::FloatValue(number(v)));
        }
    }
    let stmts = Parser::new(tokens).parse().unwrap();
    s.interpreter.interpret(stmts);
    let mut asked = 0;
    let mut printed = vec![];
    let mut reply = None;
    loop {
        match s.interpreter.step(reply.take()) {
            Request::Arithmetic { operator, left, right } => {
                assert_eq!(operator, TokenType::Plus);
                assert_eq!(value(&left), 1.0);
                assert_eq!(value(&right), 2.0);
                asked += 1;
                if asked == 3 {
                    reply = Some(number(3.0));
                }
            }
            Request::Print(v) => printed.push(v.to_string()),
            Request::Finished => break,
            Request::Continue => {}
            other => panic!("unexpected request {:?}", other),
        }
    }
    assert_eq!(asked, 3);
    assert_eq!(printed, vec!["3"]);
}

#[test]
fn a_finished_machine_stays_finished() {
    let mut interpreter = Interpreter::new();
    assert!(matches!(interpreter.step(None), Request::Finished));
    assert!(matches!(interpreter.step(Some(number(1.0))), Request::Finished));
    interpreter.interpret(vec![]);
    assert!(matches!(interpreter.step(None), Request::Continue));
    assert!(matches!(interpreter.step(None), Request::Finished));
}

#[test]
fn return_outside_a_function_ends_the_run() {
    assert_eq!(lines("print 1; return; print 2;"), vec!["1"]);
    assert_eq!(lines("print 1; { return 5; } print 2;"), vec!["1"]);
}

#[test]
fn runtime_error_messages() {
    let name = scanner::Token {
        token_type: TokenType::Identifier,
        lexeme: "x".to_string(),
        literal: None,
        line_number: 1,
    };
    assert_eq!(
        RuntimeError::UndeclaredVariable { name }.message(),
        "Variable x has not been declared"
    );
    assert_eq!(
        RuntimeError::ArityMismatch { name: None, expected: 0, actual: 12 }.message(),
        "Callable 'anon_function' expexted 0 arguments and got 12 arguments"
    );
    assert_eq!(
        RuntimeError::InternalInvariantViolation.message(),
        "Tried to reach a frame deeper than the current env depth"
    );
    assert_eq!(LiteralValue::Nil.to_type(), "Nil");
}

#[test]
fn clock_is_asked_of_the_embedding_program() {
    assert_eq!(lines("print clock(); print clock() + clock();"), vec!["1.5", "7.5"]);
    assert_eq!(lines("print clock; var tick = clock; print tick == clock; print tick();"), vec![
        "<fn clock>/0",
        "true",
        "1.5"
    ]);
    assert_eq!(
        failure("clock(1);"),
        "Callable 'clock' expexted 0 arguments and got 1 arguments"
    );
    assert_eq!(lines("var clock = 3; print clock;"), vec!["3"]);
    assert_eq!(lines("{ var clock = 4; print clock; } if (clock) print 5;"), vec!["4", "5"]);
    assert_eq!(Native::Clock.name(), "clock");
    assert_eq!(Native::Clock.arity(), 0);
    assert_eq!(LiteralValue::Native(Native::Clock).to_type(), "Callable");
}

#[test]
fn frames_are_given_up_when_their_block_or_call_is_left() {
    let mut s = session();
    submit(&mut s, "var i = 0; while (i < 1000) { var j = i; { i = j + 1; } }").unwrap();
    assert_eq!(s.interpreter.frames(), 1);
    submit(&mut s, "func fib(n) { if (n < 3) return 1; return fib(n - 1) + fib(n - 2); } print fib(15);").unwrap();
    assert_eq!(s.interpreter.frames(), 1);
    submit(&mut s, "for (var k = 0; k < 10; k = k + 1) { if (k == 5) { print k; } }").unwrap();
    assert_eq!(s.interpreter.frames(), 1);
    assert_eq!(s.printed, vec!["610", "5"]);
}

#[test]
fn a_frame_that_a_function_was_declared_in_is_kept() {
    let mut s = session();
    submit(&mut s, "var get; { var x = 1; func read() { return x; } get = read; }").unwrap();
    assert_eq!(s.interpreter.frames(), 2);
    submit(&mut s, "{ var y = 2; { var z = 3; } } print get();").unwrap();
    assert_eq!(s.interpreter.frames(), 2);
    submit(&mut s, "func make() { var n = 0; func next() { n = n + 1; return n; } return next; } var a = make(); var b = make();").unwrap();
    assert_eq!(s.interpreter.frames(), 4);
    submit(&mut s, "print a(); print a(); print b(); print get();").unwrap();
    assert_eq!(s.interpreter.frames(), 4);
    assert_eq!(s.printed, vec!["1", "1", "2", "1", "1"]);
}

#[test]
fn frames_left_by_a_failure_or_a_return_are_given_up_or_kept_safely() {
    let mut s = session();
    submit(&mut s, "func f() { { { return 1; } } } print f();").unwrap();
    assert_eq!(s.interpreter.frames(), 1);
    assert!(submit(&mut s, "{ var a = 1; { print missing; } }").is_err());
    let kept = s.interpreter.frames();
    assert!(kept >= 1);
    submit(&mut s, "{ var b = 2; print b; }").unwrap();
    assert_eq!(s.interpreter.frames(), kept);
    assert_eq!(s.printed, vec!["1", "2"]);
}

#[test]
fn a_program_that_was_run_meets_no_inconsistency() {
    // closures, shadowing, loops and returns in one session: whatever the
    // program does, the only failures are those of the program itself
    let mut s = session();
    for source in [
        "var a = 1; func outer() { var b = 2; func inner() { var c = 3; return a + b + c; } return inner; }",
        "{ var a = 10; { var f = outer(); print f(); { print a; } } }",
        "func loop(n) { var i = 0; while (i < n) { { var j = i; i = j + 1; if (i == 3) return i; } } return 0; } print loop(5);",
        "for (var i = 0; i < 3; i = i + 1) { func get() { return i; } print get(); }",
        "{ var x = 1; func bump() { x = x + 1; return x; } print bump() + bump(); print x; }",
    ] {
        submit(&mut s, source).unwrap();
    }
    assert_eq!(s.printed, vec!["6", "10", "3", "0", "1", "2", "5", "3"]);
    assert_eq!(submit(&mut s, "{ print missing; }").unwrap_err(), "Variable 'missing' is not defined");
    assert_eq!(submit(&mut s, "{ var n = nil; n(); }").unwrap_err(), "Nil is not callable");
}
