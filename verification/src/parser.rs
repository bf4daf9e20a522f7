//! The parser: from tokens to statements, by recursive descent.

use vstd::prelude::*;
use std::rc::Rc;
use crate::expr::{Expr, LiteralValue, literal_token, token_value};
use crate::fitting::{
    ids_expr, ids_exprs, ids_stmt, ids_stmts, one_more_expr, one_more_stmt, proper_expr, proper_exprs,
    proper_stmt, proper_stmts, spanned, stretch_widens, stretches_join, two_stmts, empty_lists_are_proper,
};
use crate::interpreter::handles;
use crate::list::List;
use crate::scanner::{Token, TokenType, token_record};
use crate::text::{append, decimal, decimal_text};
use crate::stmt::Stmt;

verus! {

/// What the parser looked for and did not find.
#[derive(Debug, Clone, Copy, PartialEq, Eq, Structural)]
pub enum Expectation {
    FunctionName,
    ParenAfterFunctionName,
    ParameterName,
    ParenAfterParameters,
    BraceBeforeBody,
    VariableName,
    SemicolonAfterVariable,
    ParenAfterFor,
    SemicolonAfterLoopCondition,
    ParenAfterForClauses,
    ParenAfterWhile,
    ParenAfterCondition,
    ParenAfterIf,
    ParenAfterPredicate,
    BraceAfterBlock,
    SemicolonAfterValue,
    SemicolonAfterExpression,
    SemicolonAfterReturn,
    ParenAfterArguments,
    ClosingParen,
}

/// Why a declaration could not be parsed.
#[derive(Debug)]
pub enum ParseError {
    /// A token that the grammar asks for is not there.
    Expected(Expectation),
    /// More than 255 parameters or arguments; `line` is the line of the
    /// token at which the count was exceeded.
    TooManyArguments { line: usize },
    /// The left side of an assignment is no variable.
    InvalidAssignmentTarget,
    /// The token begins no expression.
    NotPrimary { token: Token },
}

/// The most parameters a function may have, and the most arguments a call.
pub const MAX_ARGUMENTS: usize = 255;

/// What the parser reads: the tokens, and the number from which the
/// identities of variable and assignment nodes are counted. The identity
/// of such a node is that number plus the position of the token that
/// names the variable.
pub ghost struct Source {
    pub tokens: Seq<Token>,
    pub base: usize,
}

/// The tokens end with the end marker, and every identity fits a `usize`.
pub open spec fn well_terminated(src: Source) -> bool {
    &&& src.tokens.len() > 0
    &&& src.tokens.last().token_type == TokenType::Eof
    &&& src.base + src.tokens.len() <= usize::MAX
}

/// Whether there is a token at `pos` other than the end marker.
pub open spec fn more(src: Source, pos: int) -> bool {
    0 <= pos < src.tokens.len() && src.tokens[pos].token_type != TokenType::Eof
}

/// Whether the token at `pos` has type `t` and is not the end marker.
pub open spec fn sees(src: Source, pos: int, t: TokenType) -> bool {
    more(src, pos) && src.tokens[pos].token_type == t
}

/// The position after the token at `pos`; the end marker is never passed.
pub open spec fn advance(src: Source, pos: int) -> int {
    if more(src, pos) {
        pos + 1
    } else {
        pos
    }
}

/// `p`, which is a position after `pos` whenever something was read from
/// `pos` on.
pub open spec fn past(src: Source, pos: int, p: int) -> int {
    if pos < p <= src.tokens.len() {
        p
    } else {
        pos + 1
    }
}

/// The result of parsing one construct, and the position reached.
pub type Parsed<T> = (Result<T, ParseError>, int);

/// Reads a token of type `t`, or fails with what was expected.
pub open spec fn consume(src: Source, pos: int, t: TokenType, what: Expectation) -> Parsed<Token> {
    if 0 <= pos < src.tokens.len() && src.tokens[pos].token_type == t {
        (Ok(src.tokens[pos]), advance(src, pos))
    } else {
        (Err(ParseError::Expected(what)), pos)
    }
}

/// The levels of binary operators, from the one that binds tightest.
pub open spec fn level_has(level: nat, t: TokenType) -> bool {
    if level == 0 {
        t == TokenType::Slash || t == TokenType::Star
    } else if level == 1 {
        t == TokenType::Minus || t == TokenType::Plus
    } else if level == 2 {
        t == TokenType::Greater || t == TokenType::GreaterEqual || t == TokenType::LessEqual || t == TokenType::Less
    } else if level == 3 {
        t == TokenType::BangEqual || t == TokenType::EqualEqual
    } else if level == 4 {
        t == TokenType::And
    } else {
        t == TokenType::Or
    }
}

/// The node that joins two operands at a level: a logical node for `and`
/// and `or`, a binary node for the others.
pub open spec fn join(level: nat, left: Expr, operator: Token, right: Expr) -> Expr {
    if level >= 4 {
        Expr::Logical { left: Rc::new(left), operator, right: Rc::new(right) }
    } else {
        Expr::Binary { left: Rc::new(left), operator, right: Rc::new(right) }
    }
}

/// The level of `or`, the loosest binary level.
pub open spec fn loosest() -> nat {
    5
}

/// The loop built for a `for` statement: the body, followed by the
/// increment if there is one, under the condition, which is `true` if
/// there is none; all of it after the initializer, if there is one, in a
/// block of their own.
pub open spec fn for_loop(initializer: Option<Stmt>, cond: Option<Expr>, increment: Option<Expr>, body: Stmt) -> Stmt {
    let body = match increment {
        Some(e) => Stmt::Block {
            stmts: Rc::new(
                List::of(seq![Rc::new(body), Rc::new(Stmt::Expression { expression: Rc::new(e) })]),
            ),
        },
        None => body,
    };
    let cond = match cond {
        Some(c) => c,
        None => Expr::Literal { literal: LiteralValue::True },
    };
    let repeat = Stmt::WhileLoop { cond: Rc::new(cond), body: Rc::new(body) };
    match initializer {
        Some(i) => Stmt::Block { stmts: Rc::new(List::of(seq![Rc::new(i), Rc::new(repeat)])) },
        None => repeat,
    }
}

/// A declaration: a variable, a function, or a statement.
pub open spec fn declaration(src: Source, pos: int) -> Parsed<Stmt>
    decreases src.tokens.len() - pos, 32nat,
    when 0 <= pos < src.tokens.len()
{
    if sees(src, pos, TokenType::Var) {
        var_declaration(src, pos + 1)
    } else if sees(src, pos, TokenType::Func) {
        function(src, pos + 1)
    } else {
        statement(src, pos)
    }
}

/// A function declaration, after its keyword.
pub open spec fn function(src: Source, pos: int) -> Parsed<Stmt>
    decreases src.tokens.len() - pos, 33nat,
    when 0 <= pos < src.tokens.len()
{
    match consume(src, pos, TokenType::Identifier, Expectation::FunctionName) {
        (Err(e), p) => (Err(e), p),
        (Ok(name), p) => match consume(src, p, TokenType::LeftParen, Expectation::ParenAfterFunctionName) {
            (Err(e), p) => (Err(e), p),
            (Ok(_), p) => finish_function(
                src,
                pos,
                name,
                if sees(src, p, TokenType::RightParen) {
                    (Ok(Seq::empty()), p)
                } else {
                    parameters(src, past(src, pos, p), Seq::empty())
                },
            ),
        },
    }
}

/// A function declaration that began at `pos`, from the end of its
/// parameters on.
pub open spec fn finish_function(src: Source, pos: int, name: Token, params: Parsed<Seq<Token>>) -> Parsed<Stmt>
    decreases src.tokens.len() - pos, 32nat,
    when 0 <= pos < src.tokens.len()
{
    match params {
        (Err(e), p) => (Err(e), p),
        (Ok(params), p) => match consume(src, p, TokenType::RightParen, Expectation::ParenAfterParameters) {
            (Err(e), p) => (Err(e), p),
            (Ok(_), p) => match consume(src, p, TokenType::LeftBrace, Expectation::BraceBeforeBody) {
                (Err(e), p) => (Err(e), p),
                (Ok(_), p) => match block_items(src, past(src, pos, p), Seq::empty()) {
                    (Err(e), p) => (Err(e), p),
                    (Ok(body), p) => match consume(src, p, TokenType::RightBrace, Expectation::BraceAfterBlock) {
                        (Err(e), p) => (Err(e), p),
                        (Ok(_), p) => (
                            Ok(
                                Stmt::Function {
                                    name,
                                    params: Rc::new(List::of(params)),
                                    body: Rc::new(List::of(body)),
                                },
                            ),
                            p,
                        ),
                    },
                },
            },
        },
    }
}

/// The parameters of a function, where `done` holds those read so far.
pub open spec fn parameters(src: Source, pos: int, done: Seq<Token>) -> Parsed<Seq<Token>>
    decreases src.tokens.len() - pos, 0nat,
    when 0 <= pos < src.tokens.len()
{
    if done.len() >= MAX_ARGUMENTS {
        (Err(ParseError::TooManyArguments { line: src.tokens[pos].line_number }), pos)
    } else {
        match consume(src, pos, TokenType::Identifier, Expectation::ParameterName) {
            (Err(e), p) => (Err(e), p),
            (Ok(name), p) => if sees(src, p, TokenType::Comma) {
                parameters(src, past(src, pos, p + 1), done.push(name))
            } else {
                (Ok(done.push(name)), p)
            },
        }
    }
}

/// A variable declaration, after its keyword. Without an initializer the
/// variable starts as `nil`.
pub open spec fn var_declaration(src: Source, pos: int) -> Parsed<Stmt>
    decreases src.tokens.len() - pos, 33nat,
    when 0 <= pos < src.tokens.len()
{
    match consume(src, pos, TokenType::Identifier, Expectation::VariableName) {
        (Err(e), p) => (Err(e), p),
        (Ok(name), p) => {
            let (initializer, p) = if sees(src, p, TokenType::Equal) {
                expression(src, past(src, pos, p + 1))
            } else {
                (Ok(Expr::Literal { literal: LiteralValue::Nil }), p)
            };
            match initializer {
                Err(e) => (Err(e), p),
                Ok(initializer) => match consume(
                    src,
                    p,
                    TokenType::Semicolon,
                    Expectation::SemicolonAfterVariable,
                ) {
                    (Err(e), p) => (Err(e), p),
                    (Ok(_), p) => (Ok(Stmt::Var { name, initializer: Rc::new(initializer) }), p),
                },
            }
        },
    }
}

/// A statement.
pub open spec fn statement(src: Source, pos: int) -> Parsed<Stmt>
    decreases src.tokens.len() - pos, 31nat,
    when 0 <= pos < src.tokens.len()
{
    if sees(src, pos, TokenType::Print) {
        print_expression(src, pos + 1)
    } else if sees(src, pos, TokenType::LeftBrace) {
        block(src, pos + 1)
    } else if sees(src, pos, TokenType::If) {
        if_statement(src, pos + 1)
    } else if sees(src, pos, TokenType::While) {
        while_statement(src, pos + 1)
    } else if sees(src, pos, TokenType::For) {
        for_statement(src, pos + 1)
    } else if sees(src, pos, TokenType::Return) {
        return_statement(src, pos + 1)
    } else {
        expression_statement(src, pos)
    }
}

/// A `return` statement, after its keyword.
pub open spec fn return_statement(src: Source, pos: int) -> Parsed<Stmt>
    decreases src.tokens.len() - pos, 33nat,
    when 1 <= pos < src.tokens.len()
{
    let (value, p) = if sees(src, pos, TokenType::Semicolon) {
        (Ok(None), pos)
    } else {
        match expression(src, pos) {
            (Err(e), p) => (Err(e), p),
            (Ok(v), p) => (Ok(Some(Rc::new(v))), p),
        }
    };
    match value {
        Err(e) => (Err(e), p),
        Ok(value) => match consume(src, p, TokenType::Semicolon, Expectation::SemicolonAfterReturn) {
            (Err(e), p) => (Err(e), p),
            (Ok(_), p) => (Ok(Stmt::Return { keyword: src.tokens[pos - 1], value }), p),
        },
    }
}

/// A `for` statement, after its keyword.
pub open spec fn for_statement(src: Source, pos: int) -> Parsed<Stmt>
    decreases src.tokens.len() - pos, 33nat,
    when 0 <= pos < src.tokens.len()
{
    match consume(src, pos, TokenType::LeftParen, Expectation::ParenAfterFor) {
        (Err(e), p) => (Err(e), p),
        (Ok(_), p) => if sees(src, p, TokenType::Semicolon) {
            for_condition(src, pos, None, p + 1)
        } else if sees(src, p, TokenType::Var) {
            match var_declaration(src, past(src, pos, p + 1)) {
                (Err(e), p) => (Err(e), p),
                (Ok(s), p) => for_condition(src, pos, Some(s), p),
            }
        } else {
            match expression_statement(src, past(src, pos, p)) {
                (Err(e), p) => (Err(e), p),
                (Ok(s), p) => for_condition(src, pos, Some(s), p),
            }
        },
    }
}

/// A `for` statement that began at `pos`, from its condition at `p` on.
pub open spec fn for_condition(src: Source, pos: int, initializer: Option<Stmt>, p: int) -> Parsed<Stmt>
    decreases src.tokens.len() - pos, 32nat,
    when 0 <= pos < src.tokens.len()
{
    let (cond, p) = if sees(src, p, TokenType::Semicolon) {
        (Ok(None), p)
    } else {
        match expression(src, past(src, pos, p)) {
            (Err(e), p) => (Err(e), p),
            (Ok(c), p) => (Ok(Some(c)), p),
        }
    };
    match cond {
        Err(e) => (Err(e), p),
        Ok(cond) => match consume(src, p, TokenType::Semicolon, Expectation::SemicolonAfterLoopCondition) {
            (Err(e), p) => (Err(e), p),
            (Ok(_), p) => for_increment(src, pos, initializer, cond, p),
        },
    }
}

/// A `for` statement that began at `pos`, from its increment at `p` on.
pub open spec fn for_increment(
    src: Source,
    pos: int,
    initializer: Option<Stmt>,
    cond: Option<Expr>,
    p: int,
) -> Parsed<Stmt>
    decreases src.tokens.len() - pos, 31nat,
    when 0 <= pos < src.tokens.len()
{
    let (increment, p) = if sees(src, p, TokenType::RightParen) {
        (Ok(None), p)
    } else {
        match expression(src, past(src, pos, p)) {
            (Err(e), p) => (Err(e), p),
            (Ok(i), p) => (Ok(Some(i)), p),
        }
    };
    match increment {
        Err(e) => (Err(e), p),
        Ok(increment) => match consume(src, p, TokenType::RightParen, Expectation::ParenAfterForClauses) {
            (Err(e), p) => (Err(e), p),
            (Ok(_), p) => match statement(src, past(src, pos, p)) {
                (Err(e), p) => (Err(e), p),
                (Ok(body), p) => (Ok(for_loop(initializer, cond, increment, body)), p),
            },
        },
    }
}

/// A `while` statement, after its keyword.
pub open spec fn while_statement(src: Source, pos: int) -> Parsed<Stmt>
    decreases src.tokens.len() - pos, 33nat,
    when 0 <= pos < src.tokens.len()
{
    match consume(src, pos, TokenType::LeftParen, Expectation::ParenAfterWhile) {
        (Err(e), p) => (Err(e), p),
        (Ok(_), p) => match expression(src, past(src, pos, p)) {
            (Err(e), p) => (Err(e), p),
            (Ok(cond), p) => match consume(src, p, TokenType::RightParen, Expectation::ParenAfterCondition) {
                (Err(e), p) => (Err(e), p),
                (Ok(_), p) => match statement(src, past(src, pos, p)) {
                    (Err(e), p) => (Err(e), p),
                    (Ok(body), p) => (Ok(Stmt::WhileLoop { cond: Rc::new(cond), body: Rc::new(body) }), p),
                },
            },
        },
    }
}

/// An `if` statement, after its keyword.
pub open spec fn if_statement(src: Source, pos: int) -> Parsed<Stmt>
    decreases src.tokens.len() - pos, 33nat,
    when 0 <= pos < src.tokens.len()
{
    match consume(src, pos, TokenType::LeftParen, Expectation::ParenAfterIf) {
        (Err(e), p) => (Err(e), p),
        (Ok(_), p) => match expression(src, past(src, pos, p)) {
            (Err(e), p) => (Err(e), p),
            (Ok(predicate), p) => match consume(src, p, TokenType::RightParen, Expectation::ParenAfterPredicate) {
                (Err(e), p) => (Err(e), p),
                (Ok(_), p) => match statement(src, past(src, pos, p)) {
                    (Err(e), p) => (Err(e), p),
                    (Ok(then_branch), p) => if sees(src, p, TokenType::Else) {
                        match statement(src, past(src, pos, p + 1)) {
                            (Err(e), p) => (Err(e), p),
                            (Ok(else_branch), p) => (
                                Ok(
                                    Stmt::IfElse {
                                        predicate: Rc::new(predicate),
                                        then_branch: Rc::new(then_branch),
                                        else_branch: Some(Rc::new(else_branch)),
                                    },
                                ),
                                p,
                            ),
                        }
                    } else {
                        (
                            Ok(
                                Stmt::IfElse {
                                    predicate: Rc::new(predicate),
                                    then_branch: Rc::new(then_branch),
                                    else_branch: None,
                                },
                            ),
                            p,
                        )
                    },
                },
            },
        },
    }
}

/// The declarations of a block, up to its closing brace or the end,
/// where `done` holds those read so far.
pub open spec fn block_items(src: Source, pos: int, done: Seq<Rc<Stmt>>) -> Parsed<Seq<Rc<Stmt>>>
    decreases src.tokens.len() - pos, 34nat,
    when 0 <= pos < src.tokens.len()
{
    if sees(src, pos, TokenType::RightBrace) || !more(src, pos) {
        (Ok(done), pos)
    } else {
        match declaration(src, pos) {
            (Err(e), p) => (Err(e), p),
            (Ok(next), p) => block_items(src, past(src, pos, p), done.push(Rc::new(next))),
        }
    }
}

/// A block, after its opening brace.
pub open spec fn block(src: Source, pos: int) -> Parsed<Stmt>
    decreases src.tokens.len() - pos, 35nat,
    when 0 <= pos < src.tokens.len()
{
    match block_items(src, pos, Seq::empty()) {
        (Err(e), p) => (Err(e), p),
        (Ok(items), p) => match consume(src, p, TokenType::RightBrace, Expectation::BraceAfterBlock) {
            (Err(e), p) => (Err(e), p),
            (Ok(_), p) => (Ok(Stmt::Block { stmts: Rc::new(List::of(items)) }), p),
        },
    }
}

/// A `print` statement, after its keyword.
pub open spec fn print_expression(src: Source, pos: int) -> Parsed<Stmt>
    decreases src.tokens.len() - pos, 29nat,
    when 0 <= pos < src.tokens.len()
{
    match expression(src, pos) {
        (Err(e), p) => (Err(e), p),
        (Ok(value), p) => match consume(src, p, TokenType::Semicolon, Expectation::SemicolonAfterValue) {
            (Err(e), p) => (Err(e), p),
            (Ok(_), p) => (Ok(Stmt::Print { expression: Rc::new(value) }), p),
        },
    }
}

/// An expression as a statement.
pub open spec fn expression_statement(src: Source, pos: int) -> Parsed<Stmt>
    decreases src.tokens.len() - pos, 29nat,
    when 0 <= pos < src.tokens.len()
{
    match expression(src, pos) {
        (Err(e), p) => (Err(e), p),
        (Ok(value), p) => match consume(src, p, TokenType::Semicolon, Expectation::SemicolonAfterExpression) {
            (Err(e), p) => (Err(e), p),
            (Ok(_), p) => (Ok(Stmt::Expression { expression: Rc::new(value) }), p),
        },
    }
}

/// An expression.
pub open spec fn expression(src: Source, pos: int) -> Parsed<Expr>
    decreases src.tokens.len() - pos, 28nat,
    when 0 <= pos < src.tokens.len()
{
    assignment(src, pos)
}

/// An assignment, which associates to the right and takes a variable
/// alone on its left; or what stands in its place, an operand of `or`.
pub open spec fn assignment(src: Source, pos: int) -> Parsed<Expr>
    decreases src.tokens.len() - pos, 27nat,
    when 0 <= pos < src.tokens.len()
{
    match binary(src, pos, loosest()) {
        (Err(e), p) => (Err(e), p),
        (Ok(target), p) => if sees(src, p, TokenType::Equal) {
            match assignment(src, past(src, pos, p + 1)) {
                (Err(e), p) => (Err(e), p),
                (Ok(value), p) => match target {
                    Expr::Variable { name, id } => (Ok(Expr::Assign { name, value: Rc::new(value), id }), p),
                    _ => (Err(ParseError::InvalidAssignmentTarget), p),
                },
            }
        } else {
            (Ok(target), p)
        },
    }
}

/// An operand of the level below `level`.
pub open spec fn operand(src: Source, pos: int, level: nat) -> Parsed<Expr>
    decreases src.tokens.len() - pos, 9nat + 3 * level,
    when 0 <= pos < src.tokens.len() && level <= 5
{
    if level == 0 {
        unary(src, pos)
    } else {
        binary(src, pos, (level - 1) as nat)
    }
}

/// The operands of a level, joined from the left by its operators.
pub open spec fn binary(src: Source, pos: int, level: nat) -> Parsed<Expr>
    decreases src.tokens.len() - pos, 10nat + 3 * level,
    when 0 <= pos < src.tokens.len() && level <= 5
{
    match operand(src, pos, level) {
        (Err(e), p) => (Err(e), p),
        (Ok(left), p) => binary_rest(src, left, past(src, pos, p), level),
    }
}

/// What follows the operands joined so far at a level.
pub open spec fn binary_rest(src: Source, left: Expr, pos: int, level: nat) -> Parsed<Expr>
    decreases src.tokens.len() - pos, 0nat,
    when 0 <= pos <= src.tokens.len() && level <= 5
{
    if more(src, pos) && level_has(level, src.tokens[pos].token_type) {
        match operand(src, pos + 1, level) {
            (Err(e), p) => (Err(e), p),
            (Ok(right), p) => binary_rest(src, join(level, left, src.tokens[pos], right), past(src, pos, p), level),
        }
    } else {
        (Ok(left), pos)
    }
}

/// A unary operator and its operand, or a call.
pub open spec fn unary(src: Source, pos: int) -> Parsed<Expr>
    decreases src.tokens.len() - pos, 8nat,
    when 0 <= pos < src.tokens.len()
{
    if sees(src, pos, TokenType::Minus) || sees(src, pos, TokenType::Bang) {
        match unary(src, pos + 1) {
            (Err(e), p) => (Err(e), p),
            (Ok(right), p) => (Ok(Expr::Unary { operator: src.tokens[pos], right: Rc::new(right) }), p),
        }
    } else {
        call(src, pos)
    }
}

/// A primary followed by any number of argument lists.
pub open spec fn call(src: Source, pos: int) -> Parsed<Expr>
    decreases src.tokens.len() - pos, 7nat,
    when 0 <= pos < src.tokens.len()
{
    match primary(src, pos) {
        (Err(e), p) => (Err(e), p),
        (Ok(callee), p) => call_rest(src, callee, past(src, pos, p)),
    }
}

/// The argument lists that follow a callee.
pub open spec fn call_rest(src: Source, callee: Expr, pos: int) -> Parsed<Expr>
    decreases src.tokens.len() - pos, 0nat,
    when 0 <= pos <= src.tokens.len()
{
    if sees(src, pos, TokenType::LeftParen) {
        match finish_call(src, callee, pos + 1) {
            (Err(e), p) => (Err(e), p),
            (Ok(made), p) => call_rest(src, made, past(src, pos, p)),
        }
    } else {
        (Ok(callee), pos)
    }
}

/// A call, after the opening parenthesis of its arguments.
pub open spec fn finish_call(src: Source, callee: Expr, pos: int) -> Parsed<Expr>
    decreases src.tokens.len() - pos, 30nat,
    when 0 <= pos < src.tokens.len()
{
    close_call(
        src,
        callee,
        if sees(src, pos, TokenType::RightParen) {
            (Ok(Seq::empty()), pos)
        } else {
            arguments(src, pos, Seq::empty())
        },
    )
}

/// A call, from the end of its arguments on.
pub open spec fn close_call(src: Source, callee: Expr, args: Parsed<Seq<Rc<Expr>>>) -> Parsed<Expr> {
    match args {
        (Err(e), p) => (Err(e), p),
        (Ok(args), p) => match consume(src, p, TokenType::RightParen, Expectation::ParenAfterArguments) {
            (Err(e), p) => (Err(e), p),
            (Ok(paren), p) => (Ok(Expr::Call { callee: Rc::new(callee), paren, args: Rc::new(List::of(args)) }), p),
        },
    }
}

/// The arguments of a call, where `done` holds those read so far.
pub open spec fn arguments(src: Source, pos: int, done: Seq<Rc<Expr>>) -> Parsed<Seq<Rc<Expr>>>
    decreases src.tokens.len() - pos, 29nat,
    when 0 <= pos < src.tokens.len()
{
    match expression(src, pos) {
        (Err(e), p) => (Err(e), p),
        (Ok(next), p) => if done.len() >= MAX_ARGUMENTS {
            (Err(ParseError::TooManyArguments { line: src.tokens[p].line_number }), p)
        } else if sees(src, p, TokenType::Comma) {
            arguments(src, past(src, pos, p + 1), done.push(Rc::new(next)))
        } else {
            (Ok(done.push(Rc::new(next))), p)
        },
    }
}

/// A literal, a variable, or an expression in parentheses.
pub open spec fn primary(src: Source, pos: int) -> Parsed<Expr>
    decreases src.tokens.len() - pos, 6nat,
    when 0 <= pos < src.tokens.len()
{
    let token = src.tokens[pos];
    if token.token_type == TokenType::LeftParen {
        match expression(src, pos + 1) {
            (Err(e), p) => (Err(e), p),
            (Ok(inner), p) => match consume(src, p, TokenType::RightParen, Expectation::ClosingParen) {
                (Err(e), p) => (Err(e), p),
                (Ok(_), p) => (Ok(Expr::Grouping { expression: Rc::new(inner) }), p),
            },
        }
    } else if literal_token(token) {
        (Ok(Expr::Literal { literal: token_value(token) }), pos + 1)
    } else if token.token_type == TokenType::Identifier {
        (Ok(Expr::Variable { name: token, id: (src.base + pos) as usize }), pos + 1)
    } else {
        (Err(ParseError::NotPrimary { token }), pos)
    }
}

/// Whether a declaration may begin with a token of type `t`, so that
/// parsing can go on there after an error.
pub open spec fn resumes(t: TokenType) -> bool {
    t == TokenType::Class || t == TokenType::Func || t == TokenType::Var || t == TokenType::For || t
        == TokenType::If || t == TokenType::While || t == TokenType::Print || t == TokenType::Return
}

/// The first position from `pos` on that holds the end marker or a token
/// with which a declaration may begin.
pub open spec fn resume_at(src: Source, pos: int) -> int
    decreases src.tokens.len() - pos,
{
    if more(src, pos) && !resumes(src.tokens[pos].token_type) {
        resume_at(src, pos + 1)
    } else {
        pos
    }
}

/// Where parsing goes on after an error at `pos`: the token at `pos` is
/// passed, and then whatever cannot begin a declaration.
pub open spec fn synchronize(src: Source, pos: int) -> int {
    resume_at(src, advance(src, pos))
}

/// What parsing a whole program comes to.
pub ghost struct Program {
    pub stmts: Seq<Stmt>,
    pub errors: Seq<ParseError>,
}

/// The declarations and the errors of a program, where `done` holds
/// those met before `pos`. After an error, parsing goes on where
/// `synchronize` says.
pub open spec fn parse_from(src: Source, pos: int, done: Program) -> Program
    decreases src.tokens.len() - pos, 40nat,
    when 0 <= pos <= src.tokens.len()
{
    if !more(src, pos) {
        done
    } else {
        match declaration(src, pos) {
            (Ok(s), p) => parse_from(
                src,
                past(src, pos, p),
                Program { stmts: done.stmts.push(s), errors: done.errors },
            ),
            (Err(e), p) => parse_from(
                src,
                past(src, pos, synchronize(src, p)),
                Program { stmts: done.stmts, errors: done.errors.push(e) },
            ),
        }
    }
}

/// What parsing the tokens from the first on comes to.
pub open spec fn parse(src: Source) -> Program {
    parse_from(src, 0, Program { stmts: Seq::empty(), errors: Seq::empty() })
}

/// Decides `level_has`.
fn in_level(level: u8, t: TokenType) -> (r: bool)
    ensures
        r == level_has(level as nat, t),
{
    if level == 0 {
        t == TokenType::Slash || t == TokenType::Star
    } else if level == 1 {
        t == TokenType::Minus || t == TokenType::Plus
    } else if level == 2 {
        t == TokenType::Greater || t == TokenType::GreaterEqual || t == TokenType::LessEqual || t == TokenType::Less
    } else if level == 3 {
        t == TokenType::BangEqual || t == TokenType::EqualEqual
    } else if level == 4 {
        t == TokenType::And
    } else {
        t == TokenType::Or
    }
}

/// Decides `literal_token`.
fn is_literal(token: &Token) -> (r: bool)
    ensures
        r == literal_token(*token),
{
    match token.token_type {
        TokenType::Number => match &token.literal {
            Some(crate::scanner::LiteralValue::FloatValue(_)) => true,
            _ => false,
        },
        TokenType::String_ => match &token.literal {
            Some(crate::scanner::LiteralValue::StringValue(_)) => true,
            _ => false,
        },
        TokenType::True | TokenType::False | TokenType::Nil => true,
        _ => false,
    }
}

/// Decides `resumes`.
fn can_resume(t: TokenType) -> (r: bool)
    ensures
        r == resumes(t),
{
    t == TokenType::Class || t == TokenType::Func || t == TokenType::Var || t == TokenType::For || t
        == TokenType::If || t == TokenType::While || t == TokenType::Print || t == TokenType::Return
}

/// Whether `r`, if it is an expression, is proper and the identities of
/// its nodes lie from `lo` up to `hi`.
pub open spec fn numbered_expr(r: Result<Expr, ParseError>, lo: int, hi: int) -> bool {
    r matches Ok(e) ==> proper_expr(e) && spanned(ids_expr(e), lo, hi)
}

/// Whether `r`, if it is a statement, is proper and the identities of its
/// nodes lie from `lo` up to `hi`.
pub open spec fn numbered_stmt(r: Result<Stmt, ParseError>, lo: int, hi: int) -> bool {
    r matches Ok(s) ==> proper_stmt(s) && spanned(ids_stmt(s), lo, hi)
}

/// Whether `s`, if there is one, is proper and the identities of its
/// nodes lie from `lo` up to `hi`.
pub open spec fn placed_stmt(s: Option<Stmt>, lo: int, hi: int) -> bool {
    s matches Some(x) ==> proper_stmt(x) && spanned(ids_stmt(x), lo, hi)
}

/// Whether `e`, if there is one, is proper and the identities of its
/// nodes lie from `lo` up to `hi`.
pub open spec fn placed_expr(e: Option<Expr>, lo: int, hi: int) -> bool {
    e matches Some(x) ==> proper_expr(x) && spanned(ids_expr(x), lo, hi)
}

/// Whether the statements of a program are proper, no two nodes among
/// them share an identity, and the identities lie from `lo` up to `hi`.
pub open spec fn numbered_program(stmts: Seq<Stmt>, lo: int, hi: int) -> bool {
    proper_stmts(List::of(handles(stmts))) && spanned(ids_stmts(List::of(handles(stmts))), lo, hi)
}

/// A parser over a sequence of tokens that ends with the end marker.
pub struct Parser {
    tokens: Vec<Token>,
    current: usize,
    first_id: usize,
}

impl Parser {
    /// What the parser reads.
    pub closed spec fn source(&self) -> Source {
        Source { tokens: self.tokens@, base: self.first_id }
    }

    /// The position of the next token to read.
    pub closed spec fn position(&self) -> int {
        self.current as int
    }

    pub open spec fn wf(&self) -> bool {
        &&& well_terminated(self.source())
        &&& 0 <= self.position() < self.source().tokens.len()
    }

    /// Whether `post` is this parser further on in the same tokens.
    pub open spec fn on(&self, post: &Parser) -> bool {
        &&& post.wf()
        &&& post.source() == self.source()
        &&& post.position() >= self.position()
    }

    /// A parser at the first of `tokens`, which counts identities from 0.
    pub fn new(tokens: Vec<Token>) -> (r: Self)
        requires
            well_terminated(Source { tokens: tokens@, base: 0 }),
        ensures
            r.wf(),
            r.source() == (Source { tokens: tokens@, base: 0 }),
            r.position() == 0,
    {
        Parser { tokens, current: 0, first_id: 0 }
    }

    /// A parser at the first of `tokens`, which counts identities from
    /// `first_id`: for a program whose nodes are to be told from those of
    /// the programs parsed before it.
    pub fn numbered(tokens: Vec<Token>, first_id: usize) -> (r: Self)
        requires
            well_terminated(Source { tokens: tokens@, base: first_id }),
        ensures
            r.wf(),
            r.source() == (Source { tokens: tokens@, base: first_id }),
            r.position() == 0,
    {
        Parser { tokens, current: 0, first_id }
    }

    /// Parses the declarations from the current position to the end
    /// marker. With no error among them, the statements are returned;
    /// otherwise the errors are, in the order in which they were met.
    pub fn parse(&mut self) -> (r: Result<Vec<Stmt>, Vec<ParseError>>)
        requires
            old(self).wf(),
        ensures
            old(self).on(final(self)),
            ({
                let program = parse_from(
                    old(self).source(),
                    old(self).position(),
                    Program { stmts: Seq::empty(), errors: Seq::empty() },
                );
                match r {
                    Ok(stmts) => program.errors.len() == 0 && stmts@ == program.stmts,
                    Err(errors) => errors@.len() > 0 && errors@ == program.errors,
                }
            }),
            r matches Ok(stmts) ==> numbered_program(
                stmts@,
                old(self).source().base + old(self).position(),
                old(self).source().base + old(self).source().tokens.len(),
            ),
    {
        let mut stmts: Vec<Stmt> = Vec::new();
        let mut errors: Vec<ParseError> = Vec::new();
        let ghost src = self.source();
        let ghost goal = parse_from(src, self.position(), Program { stmts: Seq::empty(), errors: Seq::empty() });
        let ghost lo = src.base + self.position();
        proof {
            empty_lists_are_proper();
            assert(handles(stmts@) =~= Seq::<Rc<Stmt>>::empty());
        }
        while !self.is_at_end()
            invariant
                old(self).on(self),
                self.source() == src,
                src == old(self).source(),
                lo == src.base + old(self).position(),
                goal == parse_from(
                    src,
                    old(self).position(),
                    Program { stmts: Seq::empty(), errors: Seq::empty() },
                ),
                goal == parse_from(src, self.position(), Program { stmts: stmts@, errors: errors@ }),
                numbered_program(stmts@, lo, src.base + self.position()),
            decreases src.tokens.len() - self.position(),
        {
            let ghost from = self.position();
            let ghost before = stmts@;
            match self.declaration() {
                Ok(s) => {
                    proof {
                        Parser::one_more(before, s, lo, src.base + from, src.base + self.position());
                    }
                    stmts.push(s);
                },
                Err(e) => {
                    errors.push(e);
                    self.synchronize();
                    proof {
                        stretch_widens(
                            ids_stmts(List::of(handles(before))),
                            lo,
                            src.base + from,
                            lo,
                            src.base + self.position(),
                        );
                    }
                },
            }
        }
        proof {
            stretch_widens(
                ids_stmts(List::of(handles(stmts@))),
                lo,
                src.base + self.position(),
                lo,
                src.base + src.tokens.len(),
            );
        }
        if errors.len() == 0 {
            Ok(stmts)
        } else {
            Err(errors)
        }
    }

    /// A program with one more statement, whose nodes have later
    /// identities, is numbered as the two are.
    proof fn one_more(before: Seq<Stmt>, s: Stmt, lo: int, mid: int, hi: int)
        requires
            numbered_program(before, lo, mid),
            proper_stmt(s),
            spanned(ids_stmt(s), mid, hi),
            lo <= mid <= hi,
        ensures
            numbered_program(before.push(s), lo, hi),
    {
        let items = handles(before);
        let next = Rc::new(s);
        stretches_join(ids_stmts(List::of(items)), ids_stmt(s), lo, mid, mid, hi);
        one_more_stmt(items, next);
        assert(handles(before.push(s)) =~= items.push(next));
    }

    fn declaration(&mut self) -> (r: Result<Stmt, ParseError>)
        requires
            old(self).wf(),
        ensures
            old(self).on(final(self)),
            (r, final(self).position()) == declaration(old(self).source(), old(self).position()),
            r is Ok ==> final(self).position() > old(self).position(),
            numbered_stmt(
                r,
                old(self).source().base + old(self).position(),
                old(self).source().base + final(self).position(),
            ),
        decreases old(self).source().tokens.len() - old(self).position(), 32nat,
    {
        if self.match_token(TokenType::Var) {
            self.var_declaration()
        } else if self.match_token(TokenType::Func) {
            self.function()
        } else {
            self.statement()
        }
    }

    fn function(&mut self) -> (r: Result<Stmt, ParseError>)
        requires
            old(self).wf(),
        ensures
            old(self).on(final(self)),
            (r, final(self).position()) == function(old(self).source(), old(self).position()),
            r is Ok ==> final(self).position() > old(self).position(),
            numbered_stmt(
                r,
                old(self).source().base + old(self).position(),
                old(self).source().base + final(self).position(),
            ),
        decreases old(self).source().tokens.len() - old(self).position(), 33nat,
    {
        let ghost src = self.source();
        let ghost pos = self.position();
        let name = self.consume(TokenType::Identifier, Expectation::FunctionName)?;
        self.consume(TokenType::LeftParen, Expectation::ParenAfterFunctionName)?;
        let mut params: Vec<Token> = Vec::new();
        if !self.check(TokenType::RightParen) {
            let ghost begin = self.position();
            let ghost goal = parameters(src, begin, Seq::empty());
            loop
                invariant_except_break
                    self.position() >= begin,
                    goal == parameters(src, self.position(), params@),
                invariant
                    old(self).on(self),
                    src == old(self).source(),
                    pos == old(self).position(),
                    begin == pos + 2,
                    function(src, pos) == finish_function(src, pos, name, goal),
                ensures
                    self.position() > begin,
                    goal == (Ok::<Seq<Token>, ParseError>(params@), self.position()),
                decreases src.tokens.len() - self.position(),
            {
                if params.len() >= MAX_ARGUMENTS {
                    return Err(ParseError::TooManyArguments { line: self.peek().line_number });
                }
                let param = self.consume(TokenType::Identifier, Expectation::ParameterName)?;
                params.push(param);
                if !self.match_token(TokenType::Comma) {
                    break ;
                }
            }
        }
        self.consume(TokenType::RightParen, Expectation::ParenAfterParameters)?;
        self.consume(TokenType::LeftBrace, Expectation::BraceBeforeBody)?;
        let ghost base = src.base as int;
        let ghost from = self.position();
        let body = self.block_items()?;
        let ghost mid = self.position();
        let ghost items = body@;
        self.consume(TokenType::RightBrace, Expectation::BraceAfterBlock)?;
        proof {
            stretch_widens(ids_stmts(List::of(items)), base + from, base + mid, base + pos, base + self.position());
        }
        let made = Stmt::Function { name, params: List::from_vec(params), body: List::from_vec(body) };
        assert(ids_stmt(made) == ids_stmts(List::of(items)));
        assert(proper_stmt(made));
        Ok(made)
    }

    fn var_declaration(&mut self) -> (r: Result<Stmt, ParseError>)
        requires
            old(self).wf(),
        ensures
            old(self).on(final(self)),
            (r, final(self).position()) == var_declaration(old(self).source(), old(self).position()),
            r is Ok ==> final(self).position() > old(self).position(),
            numbered_stmt(
                r,
                old(self).source().base + old(self).position(),
                old(self).source().base + final(self).position(),
            ),
        decreases old(self).source().tokens.len() - old(self).position(), 33nat,
    {
        let ghost base = self.source().base as int;
        let ghost pos = self.position();
        let name = self.consume(TokenType::Identifier, Expectation::VariableName)?;
        let initializer = if self.match_token(TokenType::Equal) {
            let ghost from = self.position();
            let e = self.expression()?;
            proof {
                stretch_widens(ids_expr(e), base + from, base + self.position(), base + pos, base + self.position());
            }
            e
        } else {
            Expr::Literal { literal: LiteralValue::Nil }
        };
        let ghost mid = self.position();
        assert(spanned(ids_expr(initializer), base + pos, base + mid));
        assert(proper_expr(initializer));
        self.consume(TokenType::Semicolon, Expectation::SemicolonAfterVariable)?;
        proof {
            stretch_widens(ids_expr(initializer), base + pos, base + mid, base + pos, base + self.position());
        }
        let made = Stmt::Var { name, initializer: Rc::new(initializer) };
        assert(proper_stmt(made));
        assert(ids_stmt(made) == ids_expr(initializer));
        Ok(made)
    }

    fn statement(&mut self) -> (r: Result<Stmt, ParseError>)
        requires
            old(self).wf(),
        ensures
            old(self).on(final(self)),
            (r, final(self).position()) == statement(old(self).source(), old(self).position()),
            r is Ok ==> final(self).position() > old(self).position(),
            numbered_stmt(
                r,
                old(self).source().base + old(self).position(),
                old(self).source().base + final(self).position(),
            ),
        decreases old(self).source().tokens.len() - old(self).position(), 31nat,
    {
        if self.match_token(TokenType::Print) {
            self.print_expression()
        } else if self.match_token(TokenType::LeftBrace) {
            self.block()
        } else if self.match_token(TokenType::If) {
            self.if_statement()
        } else if self.match_token(TokenType::While) {
            self.while_statement()
        } else if self.match_token(TokenType::For) {
            self.for_statement()
        } else if self.match_token(TokenType::Return) {
            self.return_statement()
        } else {
            self.expression_statement()
        }
    }

    fn return_statement(&mut self) -> (r: Result<Stmt, ParseError>)
        requires
            old(self).wf(),
            old(self).position() >= 1,
        ensures
            old(self).on(final(self)),
            (r, final(self).position()) == return_statement(old(self).source(), old(self).position()),
            r is Ok ==> final(self).position() > old(self).position(),
            numbered_stmt(
                r,
                old(self).source().base + old(self).position(),
                old(self).source().base + final(self).position(),
            ),
        decreases old(self).source().tokens.len() - old(self).position(), 33nat,
    {
        let keyword = self.previous().clone();
        let value = if self.check(TokenType::Semicolon) {
            None
        } else {
            Some(Rc::new(self.expression()?))
        };
        self.consume(TokenType::Semicolon, Expectation::SemicolonAfterReturn)?;
        Ok(Stmt::Return { keyword, value })
    }

    fn for_statement(&mut self) -> (r: Result<Stmt, ParseError>)
        requires
            old(self).wf(),
        ensures
            old(self).on(final(self)),
            (r, final(self).position()) == for_statement(old(self).source(), old(self).position()),
            r is Ok ==> final(self).position() > old(self).position(),
            numbered_stmt(
                r,
                old(self).source().base + old(self).position(),
                old(self).source().base + final(self).position(),
            ),
        decreases old(self).source().tokens.len() - old(self).position(), 33nat,
    {
        let ghost pos = self.position();
        let ghost base = self.source().base as int;
        self.consume(TokenType::LeftParen, Expectation::ParenAfterFor)?;
        let initializer = if self.match_token(TokenType::Semicolon) {
            None
        } else if self.match_token(TokenType::Var) {
            let ghost from = self.position();
            let s = self.var_declaration()?;
            proof {
                stretch_widens(ids_stmt(s), base + from, base + self.position(), base + pos, base + self.position());
            }
            Some(s)
        } else {
            let ghost from = self.position();
            let s = self.expression_statement()?;
            proof {
                stretch_widens(ids_stmt(s), base + from, base + self.position(), base + pos, base + self.position());
            }
            Some(s)
        };
        self.for_condition(initializer, Ghost(pos))
    }

    /// A `for` statement that began at `pos`, from its condition on.
    fn for_condition(&mut self, initializer: Option<Stmt>, Ghost(pos): Ghost<int>) -> (r: Result<Stmt, ParseError>)
        requires
            old(self).wf(),
            0 <= pos < old(self).position(),
            placed_stmt(initializer, old(self).source().base + pos, old(self).source().base + old(self).position()),
        ensures
            old(self).on(final(self)),
            (r, final(self).position()) == for_condition(
                old(self).source(),
                pos,
                initializer,
                old(self).position(),
            ),
            numbered_stmt(r, old(self).source().base + pos, old(self).source().base + final(self).position()),
        decreases old(self).source().tokens.len() - old(self).position(), 33nat,
    {
        let ghost mid = self.position();
        let cond = if !self.check(TokenType::Semicolon) {
            Some(self.expression()?)
        } else {
            None
        };
        let ghost after = self.position();
        self.consume(TokenType::Semicolon, Expectation::SemicolonAfterLoopCondition)?;
        proof {
            let base = self.source().base as int;
            if cond is Some {
                stretch_widens(ids_expr(cond->0), base + mid, base + after, base + mid, base + self.position());
            }
        }
        self.for_increment(initializer, cond, Ghost(pos), Ghost(mid))
    }

    /// A `for` statement that began at `pos`, from its increment on.
    fn for_increment(
        &mut self,
        initializer: Option<Stmt>,
        cond: Option<Expr>,
        Ghost(pos): Ghost<int>,
        Ghost(mid): Ghost<int>,
    ) -> (r: Result<Stmt, ParseError>)
        requires
            old(self).wf(),
            0 <= pos <= mid <= old(self).position(),
            pos < old(self).position(),
            placed_stmt(initializer, old(self).source().base + pos, old(self).source().base + mid),
            placed_expr(cond, old(self).source().base + mid, old(self).source().base + old(self).position()),
        ensures
            old(self).on(final(self)),
            (r, final(self).position()) == for_increment(
                old(self).source(),
                pos,
                initializer,
                cond,
                old(self).position(),
            ),
            numbered_stmt(r, old(self).source().base + pos, old(self).source().base + final(self).position()),
        decreases old(self).source().tokens.len() - old(self).position(), 33nat,
    {
        let ghost base = self.source().base as int;
        let ghost from = self.position();
        let increment = if !self.check(TokenType::RightParen) {
            Some(self.expression()?)
        } else {
            None
        };
        let ghost after = self.position();
        self.consume(TokenType::RightParen, Expectation::ParenAfterForClauses)?;
        let ghost start = self.position();
        let body = self.statement()?;
        proof {
            if increment is Some {
                stretch_widens(ids_expr(increment->0), base + from, base + after, base + from, base + start);
            }
        }
        Ok(
            Parser::for_loop(
                initializer,
                cond,
                increment,
                body,
                Ghost(base + pos),
                Ghost(base + mid),
                Ghost(base + from),
                Ghost(base + start),
                Ghost(base + self.position()),
            ),
        )
    }

    /// Builds the loop that a `for` statement stands for, from parts whose
    /// nodes have their identities in stretches that follow one another.
    fn for_loop(
        initializer: Option<Stmt>,
        cond: Option<Expr>,
        increment: Option<Expr>,
        body: Stmt,
        Ghost(lo): Ghost<int>,
        Ghost(a): Ghost<int>,
        Ghost(b): Ghost<int>,
        Ghost(c): Ghost<int>,
        Ghost(hi): Ghost<int>,
    ) -> (r: Stmt)
        requires
            lo <= a <= b <= c <= hi,
            placed_stmt(initializer, lo, a),
            placed_expr(cond, a, b),
            placed_expr(increment, b, c),
            proper_stmt(body),
            spanned(ids_stmt(body), c, hi),
        ensures
            r == for_loop(initializer, cond, increment, body),
            proper_stmt(r),
            spanned(ids_stmt(r), lo, hi),
    {
        let ghost plain = body;
        let body = match increment {
            Some(e) => {
                let mut stmts: Vec<Rc<Stmt>> = Vec::new();
                let step = Stmt::Expression { expression: Rc::new(e) };
                stmts.push(Rc::new(body));
                stmts.push(Rc::new(step));
                proof {
                    assert(stmts@ =~= seq![Rc::new(plain), Rc::new(step)]);
                    assert(ids_stmt(step) == ids_expr(e));
                    assert(proper_stmt(step));
                    stretches_join(ids_expr(e), ids_stmt(plain), b, c, c, hi);
                    two_stmts(Rc::new(plain), Rc::new(step));
                    assert(ids_stmt(plain).union(ids_expr(e)) =~= ids_expr(e).union(ids_stmt(plain)));
                }
                let made = Stmt::Block { stmts: List::from_vec(stmts) };
                assert(ids_stmt(made) == ids_stmts(List::of(seq![Rc::new(plain), Rc::new(step)])));
                assert(proper_stmt(made));
                made
            },
            None => {
                proof {
                    stretch_widens(ids_stmt(body), c, hi, b, hi);
                }
                body
            },
        };
        assert(proper_stmt(body) && spanned(ids_stmt(body), b, hi));
        let cond = match cond {
            Some(c) => c,
            None => Expr::Literal { literal: LiteralValue::True },
        };
        assert(proper_expr(cond) && spanned(ids_expr(cond), a, b));
        proof {
            stretches_join(ids_expr(cond), ids_stmt(body), a, b, b, hi);
        }
        let repeat = Stmt::WhileLoop { cond: Rc::new(cond), body: Rc::new(body) };
        assert(ids_stmt(repeat) == ids_expr(cond).union(ids_stmt(body)));
        assert(proper_stmt(repeat));
        let ghost looped = repeat;
        match initializer {
            Some(i) => {
                let mut stmts: Vec<Rc<Stmt>> = Vec::new();
                stmts.push(Rc::new(i));
                stmts.push(Rc::new(repeat));
                proof {
                    assert(stmts@ =~= seq![Rc::new(i), Rc::new(looped)]);
                    stretches_join(ids_stmt(i), ids_stmt(looped), lo, a, a, hi);
                    two_stmts(Rc::new(i), Rc::new(looped));
                }
                let made = Stmt::Block { stmts: List::from_vec(stmts) };
                assert(ids_stmt(made) == ids_stmts(List::of(seq![Rc::new(i), Rc::new(looped)])));
                assert(proper_stmt(made));
                made
            },
            None => {
                proof {
                    stretch_widens(ids_stmt(repeat), a, hi, lo, hi);
                }
                repeat
            },
        }
    }

    fn while_statement(&mut self) -> (r: Result<Stmt, ParseError>)
        requires
            old(self).wf(),
        ensures
            old(self).on(final(self)),
            (r, final(self).position()) == while_statement(old(self).source(), old(self).position()),
            r is Ok ==> final(self).position() > old(self).position(),
            numbered_stmt(
                r,
                old(self).source().base + old(self).position(),
                old(self).source().base + final(self).position(),
            ),
        decreases old(self).source().tokens.len() - old(self).position(), 33nat,
    {
        self.consume(TokenType::LeftParen, Expectation::ParenAfterWhile)?;
        let cond = self.expression()?;
        self.consume(TokenType::RightParen, Expectation::ParenAfterCondition)?;
        let body = self.statement()?;
        Ok(Stmt::WhileLoop { cond: Rc::new(cond), body: Rc::new(body) })
    }

    fn if_statement(&mut self) -> (r: Result<Stmt, ParseError>)
        requires
            old(self).wf(),
        ensures
            old(self).on(final(self)),
            (r, final(self).position()) == if_statement(old(self).source(), old(self).position()),
            r is Ok ==> final(self).position() > old(self).position(),
            numbered_stmt(
                r,
                old(self).source().base + old(self).position(),
                old(self).source().base + final(self).position(),
            ),
        decreases old(self).source().tokens.len() - old(self).position(), 33nat,
    {
        self.consume(TokenType::LeftParen, Expectation::ParenAfterIf)?;
        let predicate = self.expression()?;
        self.consume(TokenType::RightParen, Expectation::ParenAfterPredicate)?;
        let then_branch = self.statement()?;
        let else_branch = if self.match_token(TokenType::Else) {
            Some(Rc::new(self.statement()?))
        } else {
            None
        };
        Ok(Stmt::IfElse { predicate: Rc::new(predicate), then_branch: Rc::new(then_branch), else_branch })
    }

    /// The declarations up to the closing brace of a block.
    fn block_items(&mut self) -> (r: Result<Vec<Rc<Stmt>>, ParseError>)
        requires
            old(self).wf(),
        ensures
            old(self).on(final(self)),
            match block_items(old(self).source(), old(self).position(), Seq::empty()) {
                (Ok(items), p) => r matches Ok(v) && v@ == items && final(self).position() == p,
                (Err(e), p) => r == Err::<Vec<Rc<Stmt>>, ParseError>(e) && final(self).position() == p,
            },
            r matches Ok(v) ==> proper_stmts(List::of(v@)) && spanned(
                ids_stmts(List::of(v@)),
                old(self).source().base + old(self).position(),
                old(self).source().base + final(self).position(),
            ),
        decreases old(self).source().tokens.len() - old(self).position(), 34nat,
    {
        let mut stmts: Vec<Rc<Stmt>> = Vec::new();
        let ghost src = self.source();
        let ghost goal = block_items(src, self.position(), Seq::empty());
        let ghost base = src.base as int;
        let ghost pos = self.position();
        proof {
            empty_lists_are_proper();
        }
        while !self.check(TokenType::RightBrace) && !self.is_at_end()
            invariant
                old(self).on(self),
                src == old(self).source(),
                base == src.base,
                pos == old(self).position(),
                goal == block_items(src, old(self).position(), Seq::empty()),
                goal == block_items(src, self.position(), stmts@),
                proper_stmts(List::of(stmts@)),
                spanned(ids_stmts(List::of(stmts@)), base + pos, base + self.position()),
            decreases src.tokens.len() - self.position(),
        {
            let ghost from = self.position();
            let ghost before = stmts@;
            let stmt = self.declaration()?;
            let next = Rc::new(stmt);
            proof {
                stretches_join(
                    ids_stmts(List::of(before)),
                    ids_stmt(stmt),
                    base + pos,
                    base + from,
                    base + from,
                    base + self.position(),
                );
                one_more_stmt(before, next);
            }
            stmts.push(next);
        }
        Ok(stmts)
    }

    fn block(&mut self) -> (r: Result<Stmt, ParseError>)
        requires
            old(self).wf(),
        ensures
            old(self).on(final(self)),
            (r, final(self).position()) == block(old(self).source(), old(self).position()),
            r is Ok ==> final(self).position() > old(self).position(),
            numbered_stmt(
                r,
                old(self).source().base + old(self).position(),
                old(self).source().base + final(self).position(),
            ),
        decreases old(self).source().tokens.len() - old(self).position(), 35nat,
    {
        let ghost base = self.source().base as int;
        let ghost pos = self.position();
        let stmts = self.block_items()?;
        let ghost mid = self.position();
        let ghost items = stmts@;
        self.consume(TokenType::RightBrace, Expectation::BraceAfterBlock)?;
        proof {
            stretch_widens(ids_stmts(List::of(items)), base + pos, base + mid, base + pos, base + self.position());
        }
        let made = Stmt::Block { stmts: List::from_vec(stmts) };
        assert(ids_stmt(made) == ids_stmts(List::of(items)));
        assert(proper_stmt(made));
        Ok(made)
    }

    fn print_expression(&mut self) -> (r: Result<Stmt, ParseError>)
        requires
            old(self).wf(),
        ensures
            old(self).on(final(self)),
            (r, final(self).position()) == print_expression(old(self).source(), old(self).position()),
            r is Ok ==> final(self).position() > old(self).position(),
            numbered_stmt(
                r,
                old(self).source().base + old(self).position(),
                old(self).source().base + final(self).position(),
            ),
        decreases old(self).source().tokens.len() - old(self).position(), 29nat,
    {
        let value = self.expression()?;
        self.consume(TokenType::Semicolon, Expectation::SemicolonAfterValue)?;
        Ok(Stmt::Print { expression: Rc::new(value) })
    }

    fn expression_statement(&mut self) -> (r: Result<Stmt, ParseError>)
        requires
            old(self).wf(),
        ensures
            old(self).on(final(self)),
            (r, final(self).position()) == expression_statement(old(self).source(), old(self).position()),
            r is Ok ==> final(self).position() > old(self).position(),
            numbered_stmt(
                r,
                old(self).source().base + old(self).position(),
                old(self).source().base + final(self).position(),
            ),
        decreases old(self).source().tokens.len() - old(self).position(), 29nat,
    {
        let value = self.expression()?;
        self.consume(TokenType::Semicolon, Expectation::SemicolonAfterExpression)?;
        Ok(Stmt::Expression { expression: Rc::new(value) })
    }

    fn expression(&mut self) -> (r: Result<Expr, ParseError>)
        requires
            old(self).wf(),
        ensures
            old(self).on(final(self)),
            (r, final(self).position()) == expression(old(self).source(), old(self).position()),
            r is Ok ==> final(self).position() > old(self).position(),
            numbered_expr(
                r,
                old(self).source().base + old(self).position(),
                old(self).source().base + final(self).position(),
            ),
        decreases old(self).source().tokens.len() - old(self).position(), 28nat,
    {
        self.assignment()
    }

    fn assignment(&mut self) -> (r: Result<Expr, ParseError>)
        requires
            old(self).wf(),
        ensures
            old(self).on(final(self)),
            (r, final(self).position()) == assignment(old(self).source(), old(self).position()),
            r is Ok ==> final(self).position() > old(self).position(),
            numbered_expr(
                r,
                old(self).source().base + old(self).position(),
                old(self).source().base + final(self).position(),
            ),
        decreases old(self).source().tokens.len() - old(self).position(), 27nat,
    {
        let ghost base = self.source().base as int;
        let ghost pos = self.position();
        let target = self.or()?;
        let ghost mid = self.position();
        if self.match_token(TokenType::Equal) {
            let value = self.assignment()?;
            match target {
                Expr::Variable { name, id } => {
                    proof {
                        assert(ids_expr(target).contains(id));
                        assert(base + pos <= id < base + mid);
                        assert(!ids_expr(value).contains(id));
                        assert forall|other: usize| #[trigger]
                            ids_expr(value).insert(id).contains(other) implies base + pos <= other < base
                            + self.position() by {
                            if other != id {
                                assert(ids_expr(value).contains(other));
                            }
                        }
                    }
                    return Ok(Expr::Assign { name, value: Rc::new(value), id });
                },
                _ => {
                    return Err(ParseError::InvalidAssignmentTarget);
                },
            }
        }
        Ok(target)
    }

    /// Operands of `or`.
    fn or(&mut self) -> (r: Result<Expr, ParseError>)
        requires
            old(self).wf(),
        ensures
            old(self).on(final(self)),
            (r, final(self).position()) == binary(old(self).source(), old(self).position(), 5),
            r is Ok ==> final(self).position() > old(self).position(),
            numbered_expr(
                r,
                old(self).source().base + old(self).position(),
                old(self).source().base + final(self).position(),
            ),
        decreases old(self).source().tokens.len() - old(self).position(), 26nat,
    {
        self.binary(5)
    }

    /// Operands of `and`.
    fn and(&mut self) -> (r: Result<Expr, ParseError>)
        requires
            old(self).wf(),
        ensures
            old(self).on(final(self)),
            (r, final(self).position()) == binary(old(self).source(), old(self).position(), 4),
            r is Ok ==> final(self).position() > old(self).position(),
            numbered_expr(
                r,
                old(self).source().base + old(self).position(),
                old(self).source().base + final(self).position(),
            ),
        decreases old(self).source().tokens.len() - old(self).position(), 23nat,
    {
        self.binary(4)
    }

    /// Comparisons joined by `==` and `!=`.
    fn equality(&mut self) -> (r: Result<Expr, ParseError>)
        requires
            old(self).wf(),
        ensures
            old(self).on(final(self)),
            (r, final(self).position()) == binary(old(self).source(), old(self).position(), 3),
            r is Ok ==> final(self).position() > old(self).position(),
            numbered_expr(
                r,
                old(self).source().base + old(self).position(),
                old(self).source().base + final(self).position(),
            ),
        decreases old(self).source().tokens.len() - old(self).position(), 20nat,
    {
        self.binary(3)
    }

    /// Terms joined by `>`, `>=`, `<` and `<=`.
    fn comparision(&mut self) -> (r: Result<Expr, ParseError>)
        requires
            old(self).wf(),
        ensures
            old(self).on(final(self)),
            (r, final(self).position()) == binary(old(self).source(), old(self).position(), 2),
            r is Ok ==> final(self).position() > old(self).position(),
            numbered_expr(
                r,
                old(self).source().base + old(self).position(),
                old(self).source().base + final(self).position(),
            ),
        decreases old(self).source().tokens.len() - old(self).position(), 17nat,
    {
        self.binary(2)
    }

    /// Factors joined by `-` and `+`.
    fn term(&mut self) -> (r: Result<Expr, ParseError>)
        requires
            old(self).wf(),
        ensures
            old(self).on(final(self)),
            (r, final(self).position()) == binary(old(self).source(), old(self).position(), 1),
            r is Ok ==> final(self).position() > old(self).position(),
            numbered_expr(
                r,
                old(self).source().base + old(self).position(),
                old(self).source().base + final(self).position(),
            ),
        decreases old(self).source().tokens.len() - old(self).position(), 14nat,
    {
        self.binary(1)
    }

    /// Unary expressions joined by `/` and `*`.
    fn factor(&mut self) -> (r: Result<Expr, ParseError>)
        requires
            old(self).wf(),
        ensures
            old(self).on(final(self)),
            (r, final(self).position()) == binary(old(self).source(), old(self).position(), 0),
            r is Ok ==> final(self).position() > old(self).position(),
            numbered_expr(
                r,
                old(self).source().base + old(self).position(),
                old(self).source().base + final(self).position(),
            ),
        decreases old(self).source().tokens.len() - old(self).position(), 11nat,
    {
        self.binary(0)
    }

    /// The operands of level `level`, joined from the left.
    fn binary(&mut self, level: u8) -> (r: Result<Expr, ParseError>)
        requires
            old(self).wf(),
            level <= 5,
        ensures
            old(self).on(final(self)),
            (r, final(self).position()) == binary(old(self).source(), old(self).position(), level as nat),
            r is Ok ==> final(self).position() > old(self).position(),
            numbered_expr(
                r,
                old(self).source().base + old(self).position(),
                old(self).source().base + final(self).position(),
            ),
        decreases old(self).source().tokens.len() - old(self).position(), 10nat + 3 * (level as nat),
    {
        let ghost src = self.source();
        let ghost pos = self.position();
        let ghost goal = binary(src, pos, level as nat);
        let ghost base = src.base as int;
        let mut left = self.operand(level)?;
        while self.match_level(level)
            invariant
                old(self).on(self),
                src == old(self).source(),
                pos == old(self).position(),
                base == src.base,
                level <= 5,
                self.position() > pos,
                goal == binary(src, pos, level as nat),
                goal == binary_rest(src, left, self.position(), level as nat),
                proper_expr(left),
                spanned(ids_expr(left), base + pos, base + self.position()),
            decreases src.tokens.len() - self.position(),
        {
            let ghost from = self.position();
            let operator = self.previous().clone();
            let right = self.operand(level)?;
            proof {
                stretches_join(
                    ids_expr(left),
                    ids_expr(right),
                    base + pos,
                    base + from - 1,
                    base + from,
                    base + self.position(),
                );
            }
            left = if level >= 4 {
                Expr::Logical { left: Rc::new(left), operator, right: Rc::new(right) }
            } else {
                Expr::Binary { left: Rc::new(left), operator, right: Rc::new(right) }
            };
        }
        Ok(left)
    }

    /// An operand of level `level`.
    fn operand(&mut self, level: u8) -> (r: Result<Expr, ParseError>)
        requires
            old(self).wf(),
            level <= 5,
        ensures
            old(self).on(final(self)),
            (r, final(self).position()) == operand(old(self).source(), old(self).position(), level as nat),
            r is Ok ==> final(self).position() > old(self).position(),
            numbered_expr(
                r,
                old(self).source().base + old(self).position(),
                old(self).source().base + final(self).position(),
            ),
        decreases old(self).source().tokens.len() - old(self).position(), 9nat + 3 * (level as nat),
    {
        if level == 0 {
            self.unary()
        } else if level == 1 {
            self.factor()
        } else if level == 2 {
            self.term()
        } else if level == 3 {
            self.comparision()
        } else if level == 4 {
            self.equality()
        } else {
            self.and()
        }
    }

    /// Reads an operator of level `level` if one is next.
    fn match_level(&mut self, level: u8) -> (r: bool)
        requires
            old(self).wf(),
        ensures
            old(self).on(final(self)),
            r == (more(old(self).source(), old(self).position()) && level_has(
                level as nat,
                old(self).source().tokens[old(self).position()].token_type,
            )),
            final(self).position() == if r {
                old(self).position() + 1
            } else {
                old(self).position()
            },
    {
        if self.is_at_end() {
            false
        } else if in_level(level, self.tokens[self.current].token_type) {
            self.advance();
            true
        } else {
            false
        }
    }

    fn unary(&mut self) -> (r: Result<Expr, ParseError>)
        requires
            old(self).wf(),
        ensures
            old(self).on(final(self)),
            (r, final(self).position()) == unary(old(self).source(), old(self).position()),
            r is Ok ==> final(self).position() > old(self).position(),
            numbered_expr(
                r,
                old(self).source().base + old(self).position(),
                old(self).source().base + final(self).position(),
            ),
        decreases old(self).source().tokens.len() - old(self).position(), 8nat,
    {
        if self.match_token(TokenType::Minus) || self.match_token(TokenType::Bang) {
            let operator = self.previous().clone();
            let right = self.unary()?;
            return Ok(Expr::Unary { operator, right: Rc::new(right) });
        }
        self.call()
    }

    fn call(&mut self) -> (r: Result<Expr, ParseError>)
        requires
            old(self).wf(),
        ensures
            old(self).on(final(self)),
            (r, final(self).position()) == call(old(self).source(), old(self).position()),
            r is Ok ==> final(self).position() > old(self).position(),
            numbered_expr(
                r,
                old(self).source().base + old(self).position(),
                old(self).source().base + final(self).position(),
            ),
        decreases old(self).source().tokens.len() - old(self).position(), 7nat,
    {
        let ghost src = self.source();
        let ghost pos = self.position();
        let ghost goal = call(src, pos);
        let ghost base = src.base as int;
        let mut expr = self.primary()?;
        while self.match_token(TokenType::LeftParen)
            invariant
                old(self).on(self),
                src == old(self).source(),
                pos == old(self).position(),
                base == src.base,
                self.position() > pos,
                goal == call(src, pos),
                goal == call_rest(src, expr, self.position()),
                proper_expr(expr),
                spanned(ids_expr(expr), base + pos, base + self.position()),
            decreases src.tokens.len() - self.position(),
        {
            proof {
                stretch_widens(
                    ids_expr(expr),
                    base + pos,
                    base + self.position() - 1,
                    base + pos,
                    base + self.position(),
                );
            }
            expr = self.finish_call(expr, Ghost(base + pos))?;
        }
        Ok(expr)
    }

    /// A call of `callee`, whose nodes have identities from `lo` on, after
    /// the opening parenthesis of its arguments.
    fn finish_call(&mut self, callee: Expr, Ghost(lo): Ghost<int>) -> (r: Result<Expr, ParseError>)
        requires
            old(self).wf(),
            proper_expr(callee),
            spanned(ids_expr(callee), lo, old(self).source().base + old(self).position()),
            lo <= old(self).source().base + old(self).position(),
        ensures
            old(self).on(final(self)),
            (r, final(self).position()) == finish_call(old(self).source(), callee, old(self).position()),
            r is Ok ==> final(self).position() > old(self).position(),
            numbered_expr(r, lo, old(self).source().base + final(self).position()),
        decreases old(self).source().tokens.len() - old(self).position(), 30nat,
    {
        let ghost src = self.source();
        let ghost pos = self.position();
        let ghost base = src.base as int;
        let mut args: Vec<Rc<Expr>> = Vec::new();
        proof {
            empty_lists_are_proper();
        }
        if !self.check(TokenType::RightParen) {
            let ghost goal = arguments(src, pos, Seq::empty());
            loop
                invariant_except_break
                    goal == arguments(src, self.position(), args@),
                invariant
                    old(self).on(self),
                    src == old(self).source(),
                    pos == old(self).position(),
                    base == src.base,
                    finish_call(src, callee, pos) == close_call(src, callee, goal),
                    proper_exprs(List::of(args@)),
                    spanned(ids_exprs(List::of(args@)), base + pos, base + self.position()),
                ensures
                    self.position() > pos,
                    goal == (Ok::<Seq<Rc<Expr>>, ParseError>(args@), self.position()),
                decreases src.tokens.len() - self.position(),
            {
                let ghost from = self.position();
                let ghost before = args@;
                let arg = self.expression()?;
                if args.len() >= MAX_ARGUMENTS {
                    return Err(ParseError::TooManyArguments { line: self.peek().line_number });
                }
                let next = Rc::new(arg);
                proof {
                    stretches_join(
                        ids_exprs(List::of(before)),
                        ids_expr(arg),
                        base + pos,
                        base + from,
                        base + from,
                        base + self.position(),
                    );
                    one_more_expr(before, next);
                }
                args.push(next);
                let ghost after = self.position();
                if !self.match_token(TokenType::Comma) {
                    break ;
                }
                proof {
                    stretch_widens(
                        ids_exprs(List::of(args@)),
                        base + pos,
                        base + after,
                        base + pos,
                        base + self.position(),
                    );
                }
            }
        }
        let ghost mid = self.position();
        let paren = self.consume(TokenType::RightParen, Expectation::ParenAfterArguments)?;
        proof {
            stretches_join(
                ids_expr(callee),
                ids_exprs(List::of(args@)),
                lo,
                base + pos,
                base + pos,
                base + mid,
            );
            stretch_widens(
                ids_expr(callee).union(ids_exprs(List::of(args@))),
                lo,
                base + mid,
                lo,
                base + self.position(),
            );
        }
        Ok(Expr::Call { callee: Rc::new(callee), paren, args: List::from_vec(args) })
    }

    fn primary(&mut self) -> (r: Result<Expr, ParseError>)
        requires
            old(self).wf(),
        ensures
            old(self).on(final(self)),
            (r, final(self).position()) == primary(old(self).source(), old(self).position()),
            r is Ok ==> final(self).position() > old(self).position(),
            numbered_expr(
                r,
                old(self).source().base + old(self).position(),
                old(self).source().base + final(self).position(),
            ),
        decreases old(self).source().tokens.len() - old(self).position(), 6nat,
    {
        let token = self.peek().clone();
        if token.token_type == TokenType::LeftParen {
            self.advance();
            let inner = self.expression()?;
            self.consume(TokenType::RightParen, Expectation::ClosingParen)?;
            Ok(Expr::Grouping { expression: Rc::new(inner) })
        } else if is_literal(&token) {
            let literal = LiteralValue::from_token(&token);
            self.advance();
            Ok(Expr::Literal { literal })
        } else if token.token_type == TokenType::Identifier {
            let id = self.first_id + self.current;
            self.advance();
            Ok(Expr::Variable { name: token, id })
        } else {
            Err(ParseError::NotPrimary { token })
        }
    }

    /// Reads a token of type `token_type`, or fails with `what`.
    fn consume(&mut self, token_type: TokenType, what: Expectation) -> (r: Result<Token, ParseError>)
        requires
            old(self).wf(),
        ensures
            old(self).on(final(self)),
            (r, final(self).position()) == consume(old(self).source(), old(self).position(), token_type, what),
            r is Ok && token_type != TokenType::Eof ==> final(self).position() == old(self).position() + 1,
    {
        if self.tokens[self.current].token_type == token_type {
            let token = self.tokens[self.current].clone();
            self.advance();
            Ok(token)
        } else {
            Err(ParseError::Expected(what))
        }
    }

    /// The token read last.
    fn previous(&self) -> (t: &Token)
        requires
            self.wf(),
            self.position() >= 1,
        ensures
            *t == self.source().tokens[self.position() - 1],
    {
        &self.tokens[self.current - 1]
    }

    fn is_at_end(&self) -> (r: bool)
        requires
            self.wf(),
        ensures
            r == !more(self.source(), self.position()),
    {
        self.tokens[self.current].token_type == TokenType::Eof
    }

    /// The next token.
    fn peek(&self) -> (t: &Token)
        requires
            self.wf(),
        ensures
            *t == self.source().tokens[self.position()],
    {
        &self.tokens[self.current]
    }

    fn check(&self, token_type: TokenType) -> (r: bool)
        requires
            self.wf(),
        ensures
            r == sees(self.source(), self.position(), token_type),
    {
        if self.is_at_end() {
            false
        } else {
            self.tokens[self.current].token_type == token_type
        }
    }

    /// Reads a token of type `token` if one is next.
    fn match_token(&mut self, token: TokenType) -> (r: bool)
        requires
            old(self).wf(),
        ensures
            old(self).on(final(self)),
            r == sees(old(self).source(), old(self).position(), token),
            final(self).position() == if r {
                old(self).position() + 1
            } else {
                old(self).position()
            },
    {
        if self.is_at_end() {
            false
        } else if self.tokens[self.current].token_type == token {
            self.advance();
            true
        } else {
            false
        }
    }

    /// Passes the next token, unless it is the end marker.
    fn advance(&mut self)
        requires
            old(self).wf(),
        ensures
            old(self).on(final(self)),
            final(self).position() == advance(old(self).source(), old(self).position()),
    {
        if !self.is_at_end() {
            assert(self.current + 1 < self.tokens.len());
            self.current += 1;
        }
    }

    /// Passes the tokens of a declaration that could not be parsed.
    fn synchronize(&mut self)
        requires
            old(self).wf(),
        ensures
            old(self).on(final(self)),
            final(self).position() == synchronize(old(self).source(), old(self).position()),
            final(self).position() >= advance(old(self).source(), old(self).position()),
    {
        self.advance();
        while !self.is_at_end() && !can_resume(self.tokens[self.current].token_type)
            invariant
                old(self).on(self),
                self.position() >= advance(old(self).source(), old(self).position()),
                resume_at(self.source(), advance(old(self).source(), old(self).position())) == resume_at(
                    self.source(),
                    self.position(),
                ),
            decreases self.source().tokens.len() - self.position(),
        {
            self.advance();
        }
    }
}

/// The message for a token that was expected and is not there.
pub open spec fn expectation_text(what: Expectation) -> Seq<char> {
    match what {
        Expectation::FunctionName => "Expected Function name"@,
        Expectation::ParenAfterFunctionName => "Expected '(' after Function name"@,
        Expectation::ParameterName => "Expected parameter name"@,
        Expectation::ParenAfterParameters => "Expected ')' after parameters"@,
        Expectation::BraceBeforeBody => "Expected '{' before Function name"@,
        Expectation::VariableName => "Expect variable name."@,
        Expectation::SemicolonAfterVariable => "Expected ';' after variable declaration"@,
        Expectation::ParenAfterFor => "Expect '(' after 'for'."@,
        Expectation::SemicolonAfterLoopCondition => "Expect ';' after loop condition."@,
        Expectation::ParenAfterForClauses => "Expect ')' after for clauses."@,
        Expectation::ParenAfterWhile => "Expect '(' after 'while'."@,
        Expectation::ParenAfterCondition => "Expect ')' after condition."@,
        Expectation::ParenAfterIf => "Expected '(' after 'if'"@,
        Expectation::ParenAfterPredicate => "Expected ')' after if-predicate"@,
        Expectation::BraceAfterBlock => "Expect '}' after block."@,
        Expectation::SemicolonAfterValue => "Expected ';' after value"@,
        Expectation::SemicolonAfterExpression => "Expected ';' after expression"@,
        Expectation::SemicolonAfterReturn => "Expected ';' after return value"@,
        Expectation::ParenAfterArguments => "Expexted ')' after arguments"@,
        Expectation::ClosingParen => "Expected ')'"@,
    }
}

/// The message of a parse error.
pub open spec fn parse_error_text(e: ParseError) -> Seq<char> {
    match e {
        ParseError::Expected(what) => expectation_text(what),
        ParseError::TooManyArguments { line } => "Line "@ + decimal_text(line as nat)
            + ": Cannot have more than 255 args"@,
        ParseError::InvalidAssignmentTarget => "Invalid assignment target"@,
        ParseError::NotPrimary { token } => token_record(token) + " is not a primary"@,
    }
}

/// The messages of some errors, each followed by a line feed.
pub open spec fn parse_report(errors: Seq<ParseError>) -> Seq<char>
    decreases errors.len(),
{
    if errors.len() == 0 {
        Seq::empty()
    } else {
        parse_report(errors.drop_last()) + parse_error_text(errors.last()) + "\n"@
    }
}

impl Expectation {
    pub fn message(&self) -> (r: &'static str)
        ensures
            r@ == expectation_text(*self),
    {
        match self {
            Expectation::FunctionName => "Expected Function name",
            Expectation::ParenAfterFunctionName => "Expected '(' after Function name",
            Expectation::ParameterName => "Expected parameter name",
            Expectation::ParenAfterParameters => "Expected ')' after parameters",
            Expectation::BraceBeforeBody => "Expected '{' before Function name",
            Expectation::VariableName => "Expect variable name.",
            Expectation::SemicolonAfterVariable => "Expected ';' after variable declaration",
            Expectation::ParenAfterFor => "Expect '(' after 'for'.",
            Expectation::SemicolonAfterLoopCondition => "Expect ';' after loop condition.",
            Expectation::ParenAfterForClauses => "Expect ')' after for clauses.",
            Expectation::ParenAfterWhile => "Expect '(' after 'while'.",
            Expectation::ParenAfterCondition => "Expect ')' after condition.",
            Expectation::ParenAfterIf => "Expected '(' after 'if'",
            Expectation::ParenAfterPredicate => "Expected ')' after if-predicate",
            Expectation::BraceAfterBlock => "Expect '}' after block.",
            Expectation::SemicolonAfterValue => "Expected ';' after value",
            Expectation::SemicolonAfterExpression => "Expected ';' after expression",
            Expectation::SemicolonAfterReturn => "Expected ';' after return value",
            Expectation::ParenAfterArguments => "Expexted ')' after arguments",
            Expectation::ClosingParen => "Expected ')'",
        }
    }
}

impl ParseError {
    pub fn message(&self) -> (r: String)
        ensures
            r@ == parse_error_text(*self),
    {
        match self {
            ParseError::Expected(what) => String::from_str(what.message()),
            ParseError::TooManyArguments { line } => {
                let mut s = String::from_str("Line ");
                append(&mut s, decimal(*line).as_str());
                append(&mut s, ": Cannot have more than 255 args");
                s
            },
            ParseError::InvalidAssignmentTarget => String::from_str("Invalid assignment target"),
            ParseError::NotPrimary { token } => {
                let mut s = token.record();
                append(&mut s, " is not a primary");
                s
            },
        }
    }

    /// The messages of `errors`, each followed by a line feed.
    pub fn report(errors: &Vec<ParseError>) -> (r: String)
        ensures
            r@ == parse_report(errors@),
    {
        let mut s = String::new();
        let mut i: usize = 0;
        while i < errors.len()
            invariant
                0 <= i <= errors.len(),
                s@ == parse_report(errors@.take(i as int)),
            decreases errors.len() - i,
        {
            proof {
                assert(errors@.take(i + 1).drop_last() =~= errors@.take(i as int));
            }
            append(&mut s, errors[i].message().as_str());
            append(&mut s, "\n");
            i += 1;
        }
        proof {
            assert(errors@.take(errors@.len() as int) =~= errors@);
        }
        s
    }
}

} // verus!
