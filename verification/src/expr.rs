//! Runtime values and expressions.

use vstd::prelude::*;
use std::rc::Rc;
use crate::environments::{Environment, InternalInvariantViolation, Scope, lookup};
use crate::interpreter::Kont;
use crate::list::{List, share};
use crate::number::{Number, is_nan, is_zero, same_number, smaller_number};
use crate::scanner;
use crate::scanner::{Token, TokenType, token_record, token_text, token_type_name};
use crate::stmt::Stmt;
use crate::text::{append, before, decimal, decimal_text, text_before};

verus! {

/// The code of a callable value and the frame it was declared in.
#[derive(Debug)]
pub struct Function {
    pub params: Rc<List<Token>>,
    pub body: Rc<List<Rc<Stmt>>>,
    pub closure: usize,
}

/// The functions that the embedding program performs.
#[derive(Debug, Clone, Copy, PartialEq, Eq, Structural)]
pub enum Native {
    /// The time of day, in seconds.
    Clock,
}

/// A value of the language. A callable made by a declaration carries the
/// token of its name; an anonymous one carries none.
#[derive(Debug)]
pub enum LiteralValue {
    Number(Number),
    StringValue(String),
    True,
    False,
    Nil,
    Callable { name: Option<Token>, arity: usize, fun: Rc<Function> },
    Native(Native),
}

impl Clone for LiteralValue {
    fn clone(&self) -> (r: Self)
        ensures
            r == *self,
    {
        match self {
            LiteralValue::Number(n) => LiteralValue::Number(n.clone()),
            LiteralValue::StringValue(s) => LiteralValue::StringValue(s.clone()),
            LiteralValue::True => LiteralValue::True,
            LiteralValue::False => LiteralValue::False,
            LiteralValue::Nil => LiteralValue::Nil,
            LiteralValue::Callable { name, arity, fun } => {
                let name = match name {
                    Some(t) => Some(t.clone()),
                    None => None,
                };
                LiteralValue::Callable { name, arity: *arity, fun: share(fun) }
            },
            LiteralValue::Native(n) => LiteralValue::Native(*n),
        }
    }
}

/// An expression. A variable and an assignment carry the identity of
/// their node, under which their binding distance is recorded.
#[derive(Debug)]
#[allow(inconsistent_fields)]
pub enum Expr {
    Binary { left: Rc<Expr>, operator: Token, right: Rc<Expr> },
    Logical { left: Rc<Expr>, operator: Token, right: Rc<Expr> },
    Grouping { expression: Rc<Expr> },
    Literal { literal: LiteralValue },
    Unary { operator: Token, right: Rc<Expr> },
    Variable { name: Token, id: usize },
    Assign { name: Token, value: Rc<Expr>, id: usize },
    Call { callee: Rc<Expr>, paren: Token, args: Rc<List<Rc<Expr>>> },
    AnonFunc { paren: Token, args: Rc<List<Token>>, body: Rc<List<Rc<Stmt>>> },
}

/// The string that a string literal token carries.
pub fn unwrap_as_string(literal: Option<scanner::LiteralValue>) -> (s: String)
    requires
        literal matches Some(scanner::LiteralValue::StringValue(_)),
    ensures
        literal matches Some(scanner::LiteralValue::StringValue(t)) && s == t,
{
    match literal {
        Some(scanner::LiteralValue::StringValue(s)) => s,
        _ => String::new(),
    }
}

/// The number that a number literal token carries.
fn unwrap_as_number(literal: Option<scanner::LiteralValue>) -> (n: Number)
    requires
        literal matches Some(scanner::LiteralValue::FloatValue(_)),
    ensures
        literal matches Some(scanner::LiteralValue::FloatValue(m)) && n == m,
{
    match literal {
        Some(scanner::LiteralValue::FloatValue(n)) => n,
        _ => Number::new(0, String::new()),
    }
}

/// Whether a token can be read as a literal value.
pub open spec fn literal_token(token: Token) -> bool {
    match token.token_type {
        TokenType::Number => token.literal matches Some(scanner::LiteralValue::FloatValue(_)),
        TokenType::String_ => token.literal matches Some(scanner::LiteralValue::StringValue(_)),
        TokenType::True | TokenType::False | TokenType::Nil => true,
        _ => false,
    }
}

/// The value that a literal token stands for.
pub open spec fn token_value(token: Token) -> LiteralValue {
    match token.token_type {
        TokenType::Number => match token.literal {
            Some(scanner::LiteralValue::FloatValue(n)) => LiteralValue::Number(n),
            _ => LiteralValue::Nil,
        },
        TokenType::String_ => match token.literal {
            Some(scanner::LiteralValue::StringValue(s)) => LiteralValue::StringValue(s),
            _ => LiteralValue::Nil,
        },
        TokenType::True => LiteralValue::True,
        TokenType::False => LiteralValue::False,
        _ => LiteralValue::Nil,
    }
}

/// The names of the kinds of values.
pub open spec fn kind_name(v: LiteralValue) -> Seq<char> {
    match v {
        LiteralValue::Number(_) => "Number"@,
        LiteralValue::StringValue(_) => "String"@,
        LiteralValue::True | LiteralValue::False => "Boolean"@,
        LiteralValue::Nil => "Nil"@,
        LiteralValue::Callable { .. } | LiteralValue::Native(_) => "Callable"@,
    }
}

/// Truthiness: `nil`, `false`, a zero and the empty string are falsy;
/// every other value is truthy.
pub open spec fn truthy(v: LiteralValue) -> bool {
    match v {
        LiteralValue::Number(n) => !is_zero(n.bits),
        LiteralValue::StringValue(s) => s@.len() != 0,
        LiteralValue::True => true,
        LiteralValue::False => false,
        LiteralValue::Nil => false,
        LiteralValue::Callable { .. } => true,
        LiteralValue::Native(_) => true,
    }
}

/// The boolean value of the language for `b`.
pub open spec fn boolean(b: bool) -> LiteralValue {
    if b {
        LiteralValue::True
    } else {
        LiteralValue::False
    }
}

/// Whether two optional name tokens name the same thing.
pub open spec fn same_name(a: Option<Token>, b: Option<Token>) -> bool {
    match (a, b) {
        (Some(x), Some(y)) => x.lexeme@ == y.lexeme@,
        (None, None) => true,
        _ => false,
    }
}

/// Equality of values: by kind, and never true across kinds.
pub open spec fn values_equal(a: LiteralValue, b: LiteralValue) -> bool {
    match (a, b) {
        (LiteralValue::Number(x), LiteralValue::Number(y)) => same_number(x.bits, y.bits),
        (LiteralValue::StringValue(x), LiteralValue::StringValue(y)) => x@ == y@,
        (LiteralValue::True, LiteralValue::True) => true,
        (LiteralValue::False, LiteralValue::False) => true,
        (LiteralValue::Nil, LiteralValue::Nil) => true,
        (
            LiteralValue::Callable { name: n1, arity: a1, fun: _ },
            LiteralValue::Callable { name: n2, arity: a2, fun: _ },
        ) => same_name(n1, n2) && a1 == a2,
        (LiteralValue::Native(x), LiteralValue::Native(y)) => x == y,
        _ => false,
    }
}

impl LiteralValue {
    pub fn to_type(&self) -> (r: &'static str)
        ensures
            r@ == kind_name(*self),
    {
        match self {
            LiteralValue::Number(_) => "Number",
            LiteralValue::StringValue(_) => "String",
            LiteralValue::True | LiteralValue::False => "Boolean",
            LiteralValue::Nil => "Nil",
            LiteralValue::Callable { .. } | LiteralValue::Native(_) => "Callable",
        }
    }

    /// Reads a literal token as a value.
    pub fn from_token(token: &Token) -> (r: Self)
        requires
            literal_token(*token),
        ensures
            r == token_value(*token),
    {
        match token.token_type {
            TokenType::Number => LiteralValue::Number(unwrap_as_number(token.literal.clone())),
            TokenType::String_ => LiteralValue::StringValue(unwrap_as_string(token.literal.clone())),
            TokenType::True => LiteralValue::True,
            TokenType::False => LiteralValue::False,
            _ => LiteralValue::Nil,
        }
    }

    /// `True` for a falsy value, `False` for a truthy one.
    pub fn is_falsy(&self) -> (r: LiteralValue)
        ensures
            r == boolean(!truthy(*self)),
    {
        match self {
            LiteralValue::Number(n) => LiteralValue::from_bool(n.is_zero()),
            LiteralValue::StringValue(s) => LiteralValue::from_bool(s.as_str().is_empty()),
            LiteralValue::True => LiteralValue::False,
            LiteralValue::False => LiteralValue::True,
            LiteralValue::Nil => LiteralValue::True,
            LiteralValue::Callable { .. } | LiteralValue::Native(_) => LiteralValue::False,
        }
    }

    /// `True` for a truthy value, `False` for a falsy one.
    pub fn is_truthy(&self) -> (r: LiteralValue)
        ensures
            r == boolean(truthy(*self)),
    {
        match self {
            LiteralValue::Number(n) => LiteralValue::from_bool(!n.is_zero()),
            LiteralValue::StringValue(s) => LiteralValue::from_bool(!s.as_str().is_empty()),
            LiteralValue::True => LiteralValue::True,
            LiteralValue::False => LiteralValue::False,
            LiteralValue::Nil => LiteralValue::False,
            LiteralValue::Callable { .. } | LiteralValue::Native(_) => LiteralValue::True,
        }
    }

    pub fn from_bool(e: bool) -> (r: Self)
        ensures
            r == boolean(e),
    {
        if e {
            LiteralValue::True
        } else {
            LiteralValue::False
        }
    }

    /// Truthiness as a `bool`.
    pub fn truthy(&self) -> (r: bool)
        ensures
            r == truthy(*self),
    {
        match self {
            LiteralValue::Number(n) => !n.is_zero(),
            LiteralValue::StringValue(s) => !s.as_str().is_empty(),
            LiteralValue::True => true,
            LiteralValue::False => false,
            LiteralValue::Nil => false,
            LiteralValue::Callable { .. } | LiteralValue::Native(_) => true,
        }
    }

    /// Decides `values_equal`.
    pub fn equals(&self, other: &LiteralValue) -> (r: bool)
        ensures
            r == values_equal(*self, *other),
    {
        match (self, other) {
            (LiteralValue::Number(x), LiteralValue::Number(y)) => x.equals(y),
            (LiteralValue::StringValue(x), LiteralValue::StringValue(y)) => *x == *y,
            (LiteralValue::True, LiteralValue::True) => true,
            (LiteralValue::False, LiteralValue::False) => true,
            (LiteralValue::Nil, LiteralValue::Nil) => true,
            (
                LiteralValue::Callable { name: n1, arity: a1, fun: _ },
                LiteralValue::Callable { name: n2, arity: a2, fun: _ },
            ) => {
                let names = match (n1, n2) {
                    (Some(x), Some(y)) => x.lexeme == y.lexeme,
                    (None, None) => true,
                    _ => false,
                };
                names && *a1 == *a2
            },
            (LiteralValue::Native(x), LiteralValue::Native(y)) => *x == *y,
            _ => false,
        }
    }
}

/// The kinds of values.
#[derive(Debug, Clone, Copy, PartialEq, Eq, Structural)]
pub enum Kind {
    Number,
    String,
    Boolean,
    Nil,
    Callable,
}

/// The kind of a value.
pub open spec fn kind_of(v: LiteralValue) -> Kind {
    match v {
        LiteralValue::Number(_) => Kind::Number,
        LiteralValue::StringValue(_) => Kind::String,
        LiteralValue::True | LiteralValue::False => Kind::Boolean,
        LiteralValue::Nil => Kind::Nil,
        LiteralValue::Callable { .. } | LiteralValue::Native(_) => Kind::Callable,
    }
}

/// The name of a function that the embedding program performs.
pub open spec fn native_name(n: Native) -> Seq<char> {
    match n {
        Native::Clock => "clock"@,
    }
}

/// The number of arguments that such a function takes.
pub open spec fn native_arity(n: Native) -> usize {
    match n {
        Native::Clock => 0,
    }
}

/// Why an evaluation stopped.
#[derive(Debug)]
#[allow(inconsistent_fields)]
pub enum RuntimeError {
    /// A variable was read that its frame does not bind.
    UndefinedVariable { name: Token },
    /// A local variable was assigned that its frame does not bind.
    UndeclaredVariable { name: Token },
    /// A value that is no callable was called.
    NotCallable { kind: Kind },
    /// A callable was handed another number of arguments than it takes.
    ArityMismatch { name: Option<Token>, expected: usize, actual: usize },
    /// A function of the embedding program was handed another number of
    /// arguments than it takes.
    NativeArityMismatch { native: Native, expected: usize, actual: usize },
    /// A unary operator met an operand it is not defined on.
    InvalidUnary { operator: TokenType, operand: Kind },
    /// A binary operator met a pair of operands it is not defined on.
    InvalidBinary { operator: TokenType, left: Kind, right: Kind },
    /// A binding distance did not fit the frames it was applied to, or
    /// pending work met a state it cannot follow.
    InternalInvariantViolation,
}

/// What applying an operator to values comes to.
#[derive(Debug)]
pub enum Applied {
    /// The result is this value.
    Value(LiteralValue),
    /// The result is the negation of this number, which the embedding
    /// program computes.
    Negate(Number),
    /// The result is what the arithmetic operator makes of the two numbers,
    /// which the embedding program computes.
    Arithmetic { operator: TokenType, left: Number, right: Number },
    Failed(RuntimeError),
}

/// What evaluating one expression node comes to.
#[derive(Debug)]
pub enum Evaluation {
    /// The node has this value.
    Value(LiteralValue),
    /// The value of the node is what `then`, if any, makes of the value of
    /// `next`; without `then` it is the value of `next` itself.
    Descend { next: Rc<Expr>, then: Option<Kont> },
    Failed(RuntimeError),
}

/// A length as a `usize`, capped at the largest one.
pub open spec fn clip(n: nat) -> usize {
    if n <= usize::MAX {
        n as usize
    } else {
        usize::MAX
    }
}

/// A unary operator applied to a value: `-` negates a number, `!` turns
/// any value into the opposite of its truthiness.
pub open spec fn unary_result(operator: Token, v: LiteralValue) -> Applied {
    match (v, operator.token_type) {
        (LiteralValue::Number(n), TokenType::Minus) => Applied::Negate(n),
        (_, TokenType::Bang) => Applied::Value(boolean(!truthy(v))),
        _ => Applied::Failed(RuntimeError::InvalidUnary { operator: operator.token_type, operand: kind_of(v) }),
    }
}

/// Whether a binary operator applied to two values concatenates strings.
pub open spec fn concatenates(left: LiteralValue, operator: Token, right: LiteralValue) -> bool {
    left is StringValue && right is StringValue && operator.token_type == TokenType::Plus
}

/// A binary operator applied to two values, but for the concatenation of
/// two strings. Numbers and strings are ordered among themselves;
/// arithmetic is left to the embedding program; `==` and `!=` take any two
/// values.
pub open spec fn binary_result(left: LiteralValue, operator: Token, right: LiteralValue) -> Applied {
    let failed = Applied::Failed(
        RuntimeError::InvalidBinary { operator: operator.token_type, left: kind_of(left), right: kind_of(right) },
    );
    match operator.token_type {
        TokenType::EqualEqual => Applied::Value(boolean(values_equal(left, right))),
        TokenType::BangEqual => Applied::Value(boolean(!values_equal(left, right))),
        _ => match (left, right) {
            (LiteralValue::Number(a), LiteralValue::Number(b)) => match operator.token_type {
                TokenType::Greater => Applied::Value(boolean(smaller_number(b.bits, a.bits))),
                TokenType::GreaterEqual => Applied::Value(
                    boolean(!is_nan(a.bits) && !is_nan(b.bits) && !smaller_number(a.bits, b.bits)),
                ),
                TokenType::Less => Applied::Value(boolean(smaller_number(a.bits, b.bits))),
                TokenType::LessEqual => Applied::Value(
                    boolean(!is_nan(a.bits) && !is_nan(b.bits) && !smaller_number(b.bits, a.bits)),
                ),
                TokenType::Star | TokenType::Slash | TokenType::Minus | TokenType::Plus => Applied::Arithmetic {
                    operator: operator.token_type,
                    left: a,
                    right: b,
                },
                _ => failed,
            },
            (LiteralValue::StringValue(a), LiteralValue::StringValue(b)) => match operator.token_type {
                TokenType::Greater => Applied::Value(boolean(text_before(b@, a@))),
                TokenType::GreaterEqual => Applied::Value(boolean(!text_before(a@, b@))),
                TokenType::Less => Applied::Value(boolean(text_before(a@, b@))),
                TokenType::LessEqual => Applied::Value(boolean(!text_before(b@, a@))),
                _ => failed,
            },
            _ => failed,
        },
    }
}

/// Whether `out` is what a binary operator makes of two values.
pub open spec fn binary_applies(left: LiteralValue, operator: Token, right: LiteralValue, out: Applied) -> bool {
    if concatenates(left, operator, right) {
        out matches Applied::Value(LiteralValue::StringValue(s)) && s@ == left->StringValue_0@
            + right->StringValue_0@
    } else {
        out == binary_result(left, operator, right)
    }
}

/// What evaluating the node `expr` in frame `env` comes to, where
/// `distance` is the binding distance recorded for the node, if any.
pub open spec fn evaluation(expr: Expr, env: usize, distance: Option<usize>, scopes: Seq<Scope>) -> Evaluation {
    match expr {
        Expr::Literal { literal } => match literal {
            LiteralValue::Callable { name, arity, fun } => if fun.closure < scopes.len() {
                Evaluation::Value(literal)
            } else {
                Evaluation::Failed(RuntimeError::InternalInvariantViolation)
            },
            _ => Evaluation::Value(literal),
        },
        Expr::Grouping { expression } => Evaluation::Descend { next: expression, then: None },
        Expr::Unary { operator, right } => Evaluation::Descend { next: right, then: Some(Kont::Unary { operator }) },
        Expr::Binary { left, operator, right } => Evaluation::Descend {
            next: left,
            then: Some(Kont::BinaryLeft { operator, right, env }),
        },
        Expr::Logical { left, operator, right } => Evaluation::Descend {
            next: left,
            then: Some(Kont::Logical { operator, right, env }),
        },
        Expr::Variable { name, id } => match lookup(scopes, env, name.lexeme@, distance) {
            Ok(Some(v)) => Evaluation::Value(v),
            Ok(None) => Evaluation::Failed(RuntimeError::UndefinedVariable { name }),
            Err(_) => Evaluation::Failed(RuntimeError::InternalInvariantViolation),
        },
        Expr::Assign { name, value, id } => Evaluation::Descend {
            next: value,
            then: Some(Kont::Assign { name, distance, env }),
        },
        Expr::Call { callee, paren, args } => Evaluation::Descend {
            next: callee,
            then: Some(Kont::Callee { paren, args, env }),
        },
        Expr::AnonFunc { paren, args, body } => Evaluation::Value(
            LiteralValue::Callable {
                name: None,
                arity: clip(args.seq().len()),
                fun: Rc::new(Function { params: args, body, closure: env }),
            },
        ),
    }
}

impl LiteralValue {
    pub fn kind(&self) -> (r: Kind)
        ensures
            r == kind_of(*self),
    {
        match self {
            LiteralValue::Number(_) => Kind::Number,
            LiteralValue::StringValue(_) => Kind::String,
            LiteralValue::True | LiteralValue::False => Kind::Boolean,
            LiteralValue::Nil => Kind::Nil,
            LiteralValue::Callable { .. } | LiteralValue::Native(_) => Kind::Callable,
        }
    }

    /// Applies a unary operator.
    pub fn unary(operator: &Token, v: LiteralValue) -> (r: Applied)
        ensures
            r == unary_result(*operator, v),
    {
        match operator.token_type {
            TokenType::Minus => match v {
                LiteralValue::Number(n) => Applied::Negate(n),
                _ => Applied::Failed(
                    RuntimeError::InvalidUnary { operator: operator.token_type, operand: v.kind() },
                ),
            },
            TokenType::Bang => Applied::Value(v.is_falsy()),
            _ => Applied::Failed(RuntimeError::InvalidUnary { operator: operator.token_type, operand: v.kind() }),
        }
    }

    /// Applies a binary operator.
    pub fn binary(left: LiteralValue, operator: &Token, right: LiteralValue) -> (r: Applied)
        ensures
            binary_applies(left, *operator, right, r),
    {
        let op = operator.token_type;
        match op {
            TokenType::EqualEqual => Applied::Value(LiteralValue::from_bool(left.equals(&right))),
            TokenType::BangEqual => Applied::Value(LiteralValue::from_bool(!left.equals(&right))),
            _ => match (left, right) {
                (LiteralValue::Number(a), LiteralValue::Number(b)) => match op {
                    TokenType::Greater => Applied::Value(LiteralValue::from_bool(b.less(&a))),
                    TokenType::GreaterEqual => Applied::Value(
                        LiteralValue::from_bool(!a.is_nan() && !b.is_nan() && !a.less(&b)),
                    ),
                    TokenType::Less => Applied::Value(LiteralValue::from_bool(a.less(&b))),
                    TokenType::LessEqual => Applied::Value(
                        LiteralValue::from_bool(!a.is_nan() && !b.is_nan() && !b.less(&a)),
                    ),
                    TokenType::Star | TokenType::Slash | TokenType::Minus | TokenType::Plus => Applied::Arithmetic {
                        operator: op,
                        left: a,
                        right: b,
                    },
                    _ => Applied::Failed(
                        RuntimeError::InvalidBinary { operator: op, left: Kind::Number, right: Kind::Number },
                    ),
                },
                (LiteralValue::StringValue(a), LiteralValue::StringValue(b)) => match op {
                    TokenType::Greater => Applied::Value(LiteralValue::from_bool(before(b.as_str(), a.as_str()))),
                    TokenType::GreaterEqual => Applied::Value(
                        LiteralValue::from_bool(!before(a.as_str(), b.as_str())),
                    ),
                    TokenType::Less => Applied::Value(LiteralValue::from_bool(before(a.as_str(), b.as_str()))),
                    TokenType::LessEqual => Applied::Value(
                        LiteralValue::from_bool(!before(b.as_str(), a.as_str())),
                    ),
                    TokenType::Plus => {
                        let mut s = a;
                        append(&mut s, b.as_str());
                        Applied::Value(LiteralValue::StringValue(s))
                    },
                    _ => Applied::Failed(
                        RuntimeError::InvalidBinary { operator: op, left: Kind::String, right: Kind::String },
                    ),
                },
                (l, r) => Applied::Failed(
                    RuntimeError::InvalidBinary { operator: op, left: l.kind(), right: r.kind() },
                ),
            },
        }
    }
}

impl Expr {
    /// Evaluates this node in frame `env`: gives its value where it has one
    /// at once, and otherwise names the node to evaluate first and what is
    /// to be done with that node's value. `distance` is the binding distance
    /// recorded for this node, if any.
    pub fn evaluvate(&self, env: usize, distance: Option<usize>, environment: &Environment) -> (r: Evaluation)
        requires
            environment.wf(),
        ensures
            r == evaluation(*self, env, distance, environment@),
    {
        match self {
            Expr::Literal { literal } => match literal {
                LiteralValue::Callable { name, arity, fun } => if fun.closure < environment.len() {
                    Evaluation::Value(literal.clone())
                } else {
                    Evaluation::Failed(RuntimeError::InternalInvariantViolation)
                },
                _ => Evaluation::Value(literal.clone()),
            },
            Expr::Grouping { expression } => Evaluation::Descend { next: share(expression), then: None },
            Expr::Unary { operator, right } => Evaluation::Descend {
                next: share(right),
                then: Some(Kont::Unary { operator: operator.clone() }),
            },
            Expr::Binary { left, operator, right } => Evaluation::Descend {
                next: share(left),
                then: Some(Kont::BinaryLeft { operator: operator.clone(), right: share(right), env }),
            },
            Expr::Logical { left, operator, right } => Evaluation::Descend {
                next: share(left),
                then: Some(Kont::Logical { operator: operator.clone(), right: share(right), env }),
            },
            Expr::Variable { name, id } => match environment.get(env, name.lexeme.as_str(), distance) {
                Ok(Some(v)) => Evaluation::Value(v),
                Ok(None) => Evaluation::Failed(RuntimeError::UndefinedVariable { name: name.clone() }),
                Err(_) => Evaluation::Failed(RuntimeError::InternalInvariantViolation),
            },
            Expr::Assign { name, value, id } => Evaluation::Descend {
                next: share(value),
                then: Some(Kont::Assign { name: name.clone(), distance, env }),
            },
            Expr::Call { callee, paren, args } => Evaluation::Descend {
                next: share(callee),
                then: Some(Kont::Callee { paren: paren.clone(), args: share(args), env }),
            },
            Expr::AnonFunc { paren, args, body } => Evaluation::Value(
                LiteralValue::Callable {
                    name: None,
                    arity: (&**args).len(),
                    fun: Rc::new(Function { params: share(args), body: share(body), closure: env }),
                },
            ),
        }
    }
}

/// The name of a kind of values.
pub open spec fn kind_text(k: Kind) -> Seq<char> {
    match k {
        Kind::Number => "Number"@,
        Kind::String => "String"@,
        Kind::Boolean => "Boolean"@,
        Kind::Nil => "Nil"@,
        Kind::Callable => "Callable"@,
    }
}

/// The name under which a callable goes: its name token written out, or
/// `anon_function` if it has none.
pub open spec fn callable_name(name: Option<Token>) -> Seq<char> {
    match name {
        Some(t) => token_text(t),
        None => "anon_function"@,
    }
}

/// How a value is written out: a number as its text, a string between
/// double quotes, a callable with its name and the number of its
/// parameters.
pub open spec fn value_text(v: LiteralValue) -> Seq<char> {
    match v {
        LiteralValue::Number(n) => n.text@,
        LiteralValue::StringValue(s) => "\""@ + s@ + "\""@,
        LiteralValue::True => "true"@,
        LiteralValue::False => "false"@,
        LiteralValue::Nil => "nil"@,
        LiteralValue::Callable { name, arity, fun } => "<fn "@ + callable_name(name) + ">/"@ + decimal_text(
            arity as nat,
        ),
        LiteralValue::Native(n) => "<fn "@ + native_name(n) + ">/"@ + decimal_text(native_arity(n) as nat),
    }
}

/// How an expression is written out: operators before their operands,
/// each node in parentheses.
pub open spec fn expr_text(e: Expr) -> Seq<char>
    decreases e,
{
    match e {
        Expr::Binary { left, operator, right } => "("@ + operator.lexeme@ + " "@ + expr_text(*left) + " "@
            + expr_text(*right) + ")"@,
        Expr::Grouping { expression } => "(group "@ + expr_text(*expression) + ")"@,
        Expr::Literal { literal } => value_text(literal),
        Expr::Unary { operator, right } => "("@ + operator.lexeme@ + " "@ + expr_text(*right) + ")"@,
        Expr::Variable { name, id } => "(var "@ + token_record(name) + ")"@,
        Expr::Assign { name, value, id } => "(assign "@ + token_record(name) + " "@ + expr_text(*value) + ")"@,
        Expr::Logical { left, operator, right } => "("@ + token_type_name(operator.token_type) + " "@ + expr_text(
            *left,
        ) + " "@ + expr_text(*right) + ")"@,
        Expr::Call { callee, paren, args } => "<fn "@ + expr_text(*callee) + "> ["@ + exprs_text(*args, true)
            + "]"@,
        Expr::AnonFunc { paren, args, body } => "anon/"@ + decimal_text(clip(args.seq().len()) as nat),
    }
}

/// How the expressions of a list are written out: one after the other,
/// with a comma and a space before each but the first of the whole list.
pub open spec fn exprs_text(l: List<Rc<Expr>>, first: bool) -> Seq<char>
    decreases l,
{
    match l {
        List::Nil => Seq::empty(),
        List::Cons { head, tail } => (if first {
            Seq::empty()
        } else {
            ", "@
        }) + expr_text(*head) + exprs_text(*tail, false),
    }
}

/// The message of a runtime error.
pub open spec fn runtime_error_text(e: RuntimeError) -> Seq<char> {
    match e {
        RuntimeError::UndefinedVariable { name } => "Variable '"@ + name.lexeme@ + "' is not defined"@,
        RuntimeError::UndeclaredVariable { name } => "Variable "@ + name.lexeme@ + " has not been declared"@,
        RuntimeError::NotCallable { kind } => kind_text(kind) + " is not callable"@,
        RuntimeError::ArityMismatch { name, expected, actual } => "Callable '"@ + callable_name(name)
            + "' expexted "@ + decimal_text(expected as nat) + " arguments and got "@ + decimal_text(actual as nat)
            + " arguments"@,
        RuntimeError::NativeArityMismatch { native, expected, actual } => "Callable '"@ + native_name(native)
            + "' expexted "@ + decimal_text(expected as nat) + " arguments and got "@ + decimal_text(actual as nat)
            + " arguments"@,
        RuntimeError::InvalidUnary { operator, operand } => token_type_name(operator)
            + " Not not a valid Unary operator on "@ + kind_text(operand),
        RuntimeError::InvalidBinary { operator, left, right } => token_type_name(operator) + " Not implemented on '"@
            + kind_text(left) + "' and '"@ + kind_text(right) + "'"@,
        RuntimeError::InternalInvariantViolation => "Tried to reach a frame deeper than the current env depth"@,
    }
}

impl Native {
    pub fn name(&self) -> (r: &'static str)
        ensures
            r@ == native_name(*self),
    {
        match self {
            Native::Clock => "clock",
        }
    }

    pub fn arity(&self) -> (r: usize)
        ensures
            r == native_arity(*self),
    {
        match self {
            Native::Clock => 0,
        }
    }
}

impl Kind {
    pub fn name(&self) -> (r: &'static str)
        ensures
            r@ == kind_text(*self),
    {
        match self {
            Kind::Number => "Number",
            Kind::String => "String",
            Kind::Boolean => "Boolean",
            Kind::Nil => "Nil",
            Kind::Callable => "Callable",
        }
    }
}

/// Writes out the name under which a callable goes.
fn callable_name_string(name: &Option<Token>) -> (r: String)
    ensures
        r@ == callable_name(*name),
{
    match name {
        Some(t) => t.to_string(),
        None => String::from_str("anon_function"),
    }
}

impl LiteralValue {
    pub fn to_string(&self) -> (r: String)
        ensures
            r@ == value_text(*self),
    {
        match self {
            LiteralValue::Number(n) => n.text.clone(),
            LiteralValue::StringValue(t) => {
                let mut s = String::from_str("\"");
                append(&mut s, t.as_str());
                append(&mut s, "\"");
                s
            },
            LiteralValue::True => String::from_str("true"),
            LiteralValue::False => String::from_str("false"),
            LiteralValue::Nil => String::from_str("nil"),
            LiteralValue::Callable { name, arity, fun } => {
                let mut s = String::from_str("<fn ");
                append(&mut s, callable_name_string(name).as_str());
                append(&mut s, ">/");
                append(&mut s, decimal(*arity).as_str());
                s
            },
            LiteralValue::Native(n) => {
                let mut s = String::from_str("<fn ");
                append(&mut s, n.name());
                append(&mut s, ">/");
                append(&mut s, decimal(n.arity()).as_str());
                s
            },
        }
    }
}

impl Expr {
    pub fn to_string(&self) -> (r: String)
        ensures
            r@ == expr_text(*self),
        decreases self,
    {
        match self {
            Expr::Binary { left, operator, right } => {
                let mut s = String::from_str("(");
                append(&mut s, operator.lexeme.as_str());
                append(&mut s, " ");
                append(&mut s, (&**left).to_string().as_str());
                append(&mut s, " ");
                append(&mut s, (&**right).to_string().as_str());
                append(&mut s, ")");
                s
            },
            Expr::Grouping { expression } => {
                let mut s = String::from_str("(group ");
                append(&mut s, (&**expression).to_string().as_str());
                append(&mut s, ")");
                s
            },
            Expr::Literal { literal } => literal.to_string(),
            Expr::Unary { operator, right } => {
                let mut s = String::from_str("(");
                append(&mut s, operator.lexeme.as_str());
                append(&mut s, " ");
                append(&mut s, (&**right).to_string().as_str());
                append(&mut s, ")");
                s
            },
            Expr::Variable { name, id } => {
                let mut s = String::from_str("(var ");
                append(&mut s, name.record().as_str());
                append(&mut s, ")");
                s
            },
            Expr::Assign { name, value, id } => {
                let mut s = String::from_str("(assign ");
                append(&mut s, name.record().as_str());
                append(&mut s, " ");
                append(&mut s, (&**value).to_string().as_str());
                append(&mut s, ")");
                s
            },
            Expr::Logical { left, operator, right } => {
                let mut s = String::from_str("(");
                append(&mut s, operator.token_type.name());
                append(&mut s, " ");
                append(&mut s, (&**left).to_string().as_str());
                append(&mut s, " ");
                append(&mut s, (&**right).to_string().as_str());
                append(&mut s, ")");
                s
            },
            Expr::Call { callee, paren, args } => {
                let mut s = String::from_str("<fn ");
                append(&mut s, (&**callee).to_string().as_str());
                append(&mut s, "> [");
                let ghost before = s@;
                let mut cur: &List<Rc<Expr>> = &**args;
                let mut first = true;
                loop
                    invariant
                        before + exprs_text(**args, true) == s@ + exprs_text(*cur, first),
                        *cur == **args || decreases_to!(self => cur),
                        self matches Expr::Call { args: a, .. } && a == args,
                    ensures
                        s@ == before + exprs_text(**args, true),
                    decreases cur,
                {
                    match cur {
                        List::Nil => {
                            proof {
                                assert(s@ + Seq::<char>::empty() =~= s@);
                            }
                            break ;
                        },
                        List::Cons { head, tail } => {
                            let ghost was = s@;
                            if !first {
                                append(&mut s, ", ");
                            }
                            let item = (&**head).to_string();
                            append(&mut s, item.as_str());
                            proof {
                                let lead = if first {
                                    Seq::<char>::empty()
                                } else {
                                    ", "@
                                };
                                assert(s@ =~= was + lead + expr_text(**head));
                                assert(was + (lead + expr_text(**head) + exprs_text(**tail, false)) =~= s@
                                    + exprs_text(**tail, false));
                            }
                            first = false;
                            cur = &**tail;
                        },
                    }
                }
                append(&mut s, "]");
                s
            },
            Expr::AnonFunc { paren, args, body } => {
                let mut s = String::from_str("anon/");
                append(&mut s, decimal((&**args).len()).as_str());
                s
            },
        }
    }
}

impl RuntimeError {
    pub fn message(&self) -> (r: String)
        ensures
            r@ == runtime_error_text(*self),
    {
        match self {
            RuntimeError::UndefinedVariable { name } => {
                let mut s = String::from_str("Variable '");
                append(&mut s, name.lexeme.as_str());
                append(&mut s, "' is not defined");
                s
            },
            RuntimeError::UndeclaredVariable { name } => {
                let mut s = String::from_str("Variable ");
                append(&mut s, name.lexeme.as_str());
                append(&mut s, " has not been declared");
                s
            },
            RuntimeError::NotCallable { kind } => {
                let mut s = String::from_str(kind.name());
                append(&mut s, " is not callable");
                s
            },
            RuntimeError::ArityMismatch { name, expected, actual } => {
                let mut s = String::from_str("Callable '");
                append(&mut s, callable_name_string(name).as_str());
                append(&mut s, "' expexted ");
                append(&mut s, decimal(*expected).as_str());
                append(&mut s, " arguments and got ");
                append(&mut s, decimal(*actual).as_str());
                append(&mut s, " arguments");
                s
            },
            RuntimeError::NativeArityMismatch { native, expected, actual } => {
                let mut s = String::from_str("Callable '");
                append(&mut s, native.name());
                append(&mut s, "' expexted ");
                append(&mut s, decimal(*expected).as_str());
                append(&mut s, " arguments and got ");
                append(&mut s, decimal(*actual).as_str());
                append(&mut s, " arguments");
                s
            },
            RuntimeError::InvalidUnary { operator, operand } => {
                let mut s = String::from_str(operator.name());
                append(&mut s, " Not not a valid Unary operator on ");
                append(&mut s, operand.name());
                s
            },
            RuntimeError::InvalidBinary { operator, left, right } => {
                let mut s = String::from_str(operator.name());
                append(&mut s, " Not implemented on '");
                append(&mut s, left.name());
                append(&mut s, "' and '");
                append(&mut s, right.name());
                append(&mut s, "'");
                s
            },
            RuntimeError::InternalInvariantViolation => String::from_str(
                "Tried to reach a frame deeper than the current env depth",
            ),
        }
    }
}

/// The falsy values are `nil`, `false`, the two zeros and the empty
/// string, and no others: in particular a string that holds a `0` is
/// truthy, and so is a number that is no number.
pub proof fn falsy_values(v: LiteralValue)
    ensures
        !truthy(v) <==> (v is Nil || v is False || (v matches LiteralValue::Number(n) && (n.bits == 0 || n.bits
            == crate::number::SIGN)) || (v matches LiteralValue::StringValue(s) && s@ == Seq::<char>::empty())),
{
    match v {
        LiteralValue::StringValue(s) => {
            assert(s@.len() == 0 <==> s@ =~= Seq::<char>::empty());
        },
        _ => {},
    }
}

/// Equality of values is never true across kinds.
pub proof fn equality_stays_within_a_kind(a: LiteralValue, b: LiteralValue)
    requires
        values_equal(a, b),
    ensures
        kind_of(a) == kind_of(b),
{
}

} // verus!
