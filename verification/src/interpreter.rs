//! The evaluator: a machine that runs a program one transition at a time
//! and hands to the embedding program what it cannot do itself, the
//! arithmetic on numbers and the output of printed values.

use vstd::prelude::*;
use std::collections::HashMap;
use std::rc::Rc;
use crate::environments::{
    Environment, Scope, acyclic, after_assign, assigned, bound, fresh, global_scope, hold, released,
};
use crate::expr::{
    Applied, Evaluation, Expr, Function, LiteralValue, Native, RuntimeError, binary_result, clip, concatenates,
    evaluation, kind_of, native_arity, truthy, unary_result,
};
use crate::list::{List, share};
use crate::number::Number;
use crate::scanner::{Token, TokenType};
use crate::soundness::{
    evaluate_is_sound, execute_is_sound, in_mode, loaded_is_sound, lone_frame_is_sound,
    new_machine_is_sound, proceed_is_sound, sound, unwind_is_sound,
};
use crate::agreement::{agrees, fine, step_agrees};
use crate::fitting::{keys_below, more_records_agree};
use crate::stmt::Stmt;

verus! {

/// Work that waits on the machine's stack, innermost last. The first
/// group waits for the value of the expression under evaluation; the
/// second group waits for the work above it to be completed.
#[derive(Debug)]
pub enum Kont {
    /// Apply the unary operator to the value.
    Unary { operator: Token },
    /// The value is the left operand: evaluate the right one.
    BinaryLeft { operator: Token, right: Rc<Expr>, env: usize },
    /// The value is the right operand: apply the operator.
    BinaryRight { operator: Token, left: LiteralValue },
    /// The value is the left operand of `and` or `or`.
    Logical { operator: Token, right: Rc<Expr>, env: usize },
    /// Assign the value to the variable.
    Assign { name: Token, distance: Option<usize>, env: usize },
    /// The value is what is being called.
    Callee { paren: Token, args: Rc<List<Rc<Expr>>>, env: usize },
    /// The value is an argument: bind it to the parameter in the frame of
    /// the call.
    Bind { name: Token, frame: usize },
    /// Drop the value.
    Discard,
    /// Print the value.
    Print,
    /// Declare the variable with the value.
    Define { name: Token, env: usize },
    /// The value is the predicate of an `if`.
    Branch { then_branch: Rc<Stmt>, else_branch: Option<Rc<Stmt>>, env: usize },
    /// The value is the condition of a loop.
    Loop { cond: Rc<Expr>, body: Rc<Stmt>, env: usize },
    /// Return the value from the function being called.
    Return,
    /// Evaluate the remaining arguments of a call, each for its parameter.
    Arguments { params: Rc<List<Token>>, args: Rc<List<Rc<Expr>>>, frame: usize, env: usize },
    /// Execute the remaining statements.
    Sequence { rest: Rc<List<Rc<Stmt>>>, env: usize },
    /// The body of a loop has run: test the condition again.
    Repeat { cond: Rc<Expr>, body: Rc<Stmt>, env: usize },
    /// The boundary of a call: where a `return` arrives, and where a body
    /// that ran to its end yields `nil`.
    Call,
    /// The block or call that made the frame is left: the frame is given
    /// up unless a callable holds on to it.
    Leave { frame: usize },
}

/// What the machine is doing.
#[derive(Debug)]
pub enum Mode {
    /// About to evaluate an expression.
    Eval { expr: Rc<Expr>, env: usize },
    /// About to execute a statement.
    Exec { stmt: Rc<Stmt>, env: usize },
    /// Holding the value of the expression evaluated last.
    Value(LiteralValue),
    /// The work started last is completed.
    Done,
    /// Carrying a returned value to the boundary of the call.
    Return(LiteralValue),
    /// Waiting for the negation of a number.
    Negate(Number),
    /// Waiting for the result of an arithmetic operator.
    Arithmetic { operator: TokenType, left: Number, right: Number },
    /// Waiting for what a function of the embedding program returns.
    Native(Native),
}

/// What the machine asks of the embedding program after a step.
#[derive(Debug)]
pub enum Request {
    /// Nothing: step again.
    Continue,
    /// Print this value, then step again.
    Print(LiteralValue),
    /// Step again with the negation of this number.
    Negate(Number),
    /// Step again with what the operator (`+`, `-`, `*` or `/`) makes of
    /// the two numbers.
    Arithmetic { operator: TokenType, left: Number, right: Number },
    /// Step again with the number that this function returns.
    Native(Native),
    /// The program has run to its end.
    Finished,
    /// The run was abandoned.
    Failed(RuntimeError),
}

/// The state of the machine.
pub ghost struct Machine {
    pub mode: Mode,
    pub kont: Seq<Kont>,
    pub scopes: Seq<Scope>,
    pub locals: Map<usize, usize>,
}

/// A failure abandons all pending work; the frames stay as they are.
pub open spec fn fail(m: Machine, error: RuntimeError) -> (Machine, Request) {
    (Machine { mode: Mode::Done, kont: Seq::empty(), scopes: m.scopes, locals: m.locals }, Request::Failed(error))
}

/// The binding distance recorded for a variable or assignment node.
pub open spec fn distance_of(locals: Map<usize, usize>, expr: Expr) -> Option<usize> {
    match expr {
        Expr::Variable { name, id } => if locals.contains_key(id) {
            Some(locals[id])
        } else {
            None
        },
        Expr::Assign { name, value, id } => if locals.contains_key(id) {
            Some(locals[id])
        } else {
            None
        },
        _ => None,
    }
}

/// The scopes after an expression has been found to have the value `v`:
/// a callable takes hold of the frame it was declared in.
pub open spec fn keep(scopes: Seq<Scope>, v: LiteralValue) -> Seq<Scope> {
    match v {
        LiteralValue::Callable { name, arity, fun } => hold(scopes, fun.closure),
        _ => scopes,
    }
}

/// The step that begins the evaluation of `expr` in frame `env`.
pub open spec fn evaluate(m: Machine, expr: Rc<Expr>, env: usize) -> (Machine, Request) {
    match evaluation(*expr, env, distance_of(m.locals, *expr), m.scopes) {
        Evaluation::Value(v) => (
            Machine { mode: Mode::Value(v), kont: m.kont, scopes: keep(m.scopes, v), locals: m.locals },
            Request::Continue,
        ),
        Evaluation::Descend { next, then } => (
            Machine {
                mode: Mode::Eval { expr: next, env },
                kont: match then {
                    Some(k) => m.kont.push(k),
                    None => m.kont,
                },
                scopes: m.scopes,
                locals: m.locals,
            },
            Request::Continue,
        ),
        Evaluation::Failed(e) => fail(m, e),
    }
}

/// The machine that evaluates `expr` in `env` with `k` waiting for its value.
pub open spec fn descend(m: Machine, expr: Rc<Expr>, env: usize, k: Kont) -> (Machine, Request) {
    (
        Machine { mode: Mode::Eval { expr, env }, kont: m.kont.push(k), scopes: m.scopes, locals: m.locals },
        Request::Continue,
    )
}

/// The machine in another mode, all else unchanged.
pub open spec fn turn(m: Machine, mode: Mode) -> (Machine, Request) {
    (Machine { mode, kont: m.kont, scopes: m.scopes, locals: m.locals }, Request::Continue)
}

/// The callable value that a function declaration makes in frame `env`.
pub open spec fn declared(name: Token, params: Rc<List<Token>>, body: Rc<List<Rc<Stmt>>>, env: usize) -> LiteralValue {
    LiteralValue::Callable {
        name: Some(name),
        arity: clip(params.seq().len()),
        fun: Rc::new(Function { params, body, closure: env }),
    }
}

/// The step that begins the execution of `stmt` in frame `env`.
pub open spec fn execute(m: Machine, stmt: Rc<Stmt>, env: usize) -> (Machine, Request) {
    match *stmt {
        Stmt::Expression { expression } => descend(m, expression, env, Kont::Discard),
        Stmt::Print { expression } => descend(m, expression, env, Kont::Print),
        Stmt::Var { name, initializer } => descend(m, initializer, env, Kont::Define { name, env }),
        Stmt::Block { stmts } => if env < m.scopes.len() {
            (
                Machine {
                    mode: Mode::Done,
                    kont: m.kont.push(Kont::Leave { frame: m.scopes.len() as usize }).push(
                        Kont::Sequence { rest: stmts, env: m.scopes.len() as usize },
                    ),
                    scopes: m.scopes.push(fresh(env)),
                    locals: m.locals,
                },
                Request::Continue,
            )
        } else {
            fail(m, RuntimeError::InternalInvariantViolation)
        },
        Stmt::IfElse { predicate, then_branch, else_branch } => descend(
            m,
            predicate,
            env,
            Kont::Branch { then_branch, else_branch, env },
        ),
        Stmt::WhileLoop { cond, body } => descend(m, cond, env, Kont::Loop { cond, body, env }),
        Stmt::Function { name, params, body } => if env < m.scopes.len() {
            (
                Machine {
                    mode: Mode::Done,
                    kont: m.kont,
                    scopes: bound(hold(m.scopes, env), env, name.lexeme@, declared(name, params, body, env)),
                    locals: m.locals,
                },
                Request::Continue,
            )
        } else {
            fail(m, RuntimeError::InternalInvariantViolation)
        },
        Stmt::Return { keyword, value } => match value {
            Some(e) => descend(m, e, env, Kont::Return),
            None => turn(m, Mode::Return(LiteralValue::Nil)),
        },
    }
}

/// What the machine does with the outcome of an operator.
pub open spec fn settle(m: Machine, outcome: Applied) -> (Machine, Request) {
    match outcome {
        Applied::Value(v) => turn(m, Mode::Value(v)),
        Applied::Negate(n) => (
            Machine { mode: Mode::Negate(n), kont: m.kont, scopes: m.scopes, locals: m.locals },
            Request::Negate(n),
        ),
        Applied::Arithmetic { operator, left, right } => (
            Machine {
                mode: Mode::Arithmetic { operator, left, right },
                kont: m.kont,
                scopes: m.scopes,
                locals: m.locals,
            },
            Request::Arithmetic { operator, left, right },
        ),
        Applied::Failed(e) => fail(m, e),
    }
}

/// The step that calls `callee` with the argument expressions `args`,
/// which are to be evaluated in frame `env`. A callable is called with
/// exactly as many arguments as it takes, or not at all.
pub open spec fn call(m: Machine, callee: LiteralValue, args: Rc<List<Rc<Expr>>>, env: usize) -> (Machine, Request) {
    match callee {
        LiteralValue::Callable { name, arity, fun } => {
            let given = clip(args.seq().len());
            if given != arity {
                fail(m, RuntimeError::ArityMismatch { name, expected: arity, actual: given })
            } else if fun.closure >= m.scopes.len() {
                fail(m, RuntimeError::InternalInvariantViolation)
            } else {
                let frame = m.scopes.len() as usize;
                (
                    Machine {
                        mode: Mode::Done,
                        kont: m.kont.push(Kont::Call).push(Kont::Leave { frame }).push(
                            Kont::Sequence { rest: fun.body, env: frame },
                        ).push(Kont::Arguments { params: fun.params, args, frame, env }),
                        scopes: m.scopes.push(fresh(fun.closure)),
                        locals: m.locals,
                    },
                    Request::Continue,
                )
            }
        },
        LiteralValue::Native(native) => {
            let given = clip(args.seq().len());
            if given != native_arity(native) {
                fail(
                    m,
                    RuntimeError::NativeArityMismatch { native, expected: native_arity(native), actual: given },
                )
            } else {
                (
                    Machine { mode: Mode::Native(native), kont: m.kont, scopes: m.scopes, locals: m.locals },
                    Request::Native(native),
                )
            }
        },
        _ => fail(m, RuntimeError::NotCallable { kind: kind_of(callee) }),
    }
}

/// The step that binds `name` to `v` in frame `frame`.
pub open spec fn bind(m: Machine, name: Token, frame: usize, v: LiteralValue) -> (Machine, Request) {
    if frame < m.scopes.len() {
        (
            Machine { mode: Mode::Done, kont: m.kont, scopes: bound(m.scopes, frame, name.lexeme@, v), locals: m.locals },
            Request::Continue,
        )
    } else {
        fail(m, RuntimeError::InternalInvariantViolation)
    }
}

/// The step that hands the value `v` to the work `k`, which has been
/// taken off the stack of `m`. Not for a concatenation of strings.
pub open spec fn hand(m: Machine, k: Kont, v: LiteralValue) -> (Machine, Request) {
    match k {
        Kont::Unary { operator } => settle(m, unary_result(operator, v)),
        Kont::BinaryLeft { operator, right, env } => descend(m, right, env, Kont::BinaryRight { operator, left: v }),
        Kont::BinaryRight { operator, left } => settle(m, binary_result(left, operator, v)),
        Kont::Logical { operator, right, env } => if (operator.token_type == TokenType::Or) == truthy(v) {
            turn(m, Mode::Value(v))
        } else {
            turn(m, Mode::Eval { expr: right, env })
        },
        Kont::Assign { name, distance, env } => match assigned(m.scopes, env, name.lexeme@, distance) {
            Err(_) => fail(m, RuntimeError::InternalInvariantViolation),
            Ok(false) => fail(m, RuntimeError::UndeclaredVariable { name }),
            Ok(true) => (
                Machine {
                    mode: Mode::Value(v),
                    kont: m.kont,
                    scopes: after_assign(m.scopes, env, name.lexeme@, v, distance),
                    locals: m.locals,
                },
                Request::Continue,
            ),
        },
        Kont::Callee { paren, args, env } => call(m, v, args, env),
        Kont::Bind { name, frame } => bind(m, name, frame, v),
        Kont::Discard => turn(m, Mode::Done),
        Kont::Print => (Machine { mode: Mode::Done, kont: m.kont, scopes: m.scopes, locals: m.locals }, Request::Print(v)),
        Kont::Define { name, env } => bind(m, name, env, v),
        Kont::Branch { then_branch, else_branch, env } => if truthy(v) {
            turn(m, Mode::Exec { stmt: then_branch, env })
        } else {
            match else_branch {
                Some(s) => turn(m, Mode::Exec { stmt: s, env }),
                None => turn(m, Mode::Done),
            }
        },
        Kont::Loop { cond, body, env } => if truthy(v) {
            (
                Machine {
                    mode: Mode::Exec { stmt: body, env },
                    kont: m.kont.push(Kont::Repeat { cond, body, env }),
                    scopes: m.scopes,
                    locals: m.locals,
                },
                Request::Continue,
            )
        } else {
            turn(m, Mode::Done)
        },
        Kont::Return => turn(m, Mode::Return(v)),
        _ => fail(m, RuntimeError::InternalInvariantViolation),
    }
}

/// The machine without the innermost pending work.
pub open spec fn popped(m: Machine) -> Machine {
    Machine { mode: m.mode, kont: m.kont.drop_last(), scopes: m.scopes, locals: m.locals }
}

/// The step of a machine that holds the value `v`.
pub open spec fn deliver(m: Machine, v: LiteralValue) -> (Machine, Request) {
    if m.kont.len() == 0 {
        fail(m, RuntimeError::InternalInvariantViolation)
    } else {
        hand(popped(m), m.kont.last(), v)
    }
}

/// The step of a machine whose last work is completed.
pub open spec fn proceed(m: Machine) -> (Machine, Request) {
    if m.kont.len() == 0 {
        (Machine { mode: Mode::Done, kont: m.kont, scopes: m.scopes, locals: m.locals }, Request::Finished)
    } else {
        let rest = popped(m);
        match m.kont.last() {
            Kont::Sequence { rest: stmts, env } => match *stmts {
                List::Nil => turn(rest, Mode::Done),
                List::Cons { head, tail } => (
                    Machine {
                        mode: Mode::Exec { stmt: head, env },
                        kont: rest.kont.push(Kont::Sequence { rest: tail, env }),
                        scopes: m.scopes,
                        locals: m.locals,
                    },
                    Request::Continue,
                ),
            },
            Kont::Arguments { params, args, frame, env } => match (*params, *args) {
                (List::Cons { head: p, tail: ps }, List::Cons { head: a, tail: more }) => (
                    Machine {
                        mode: Mode::Eval { expr: a, env },
                        kont: rest.kont.push(Kont::Arguments { params: ps, args: more, frame, env }).push(
                            Kont::Bind { name: p, frame },
                        ),
                        scopes: m.scopes,
                        locals: m.locals,
                    },
                    Request::Continue,
                ),
                _ => turn(rest, Mode::Done),
            },
            Kont::Repeat { cond, body, env } => descend(rest, cond, env, Kont::Loop { cond, body, env }),
            Kont::Call => turn(rest, Mode::Value(LiteralValue::Nil)),
            Kont::Leave { frame } => (
                Machine { mode: Mode::Done, kont: rest.kont, scopes: released(m.scopes, frame), locals: m.locals },
                Request::Continue,
            ),
            _ => fail(m, RuntimeError::InternalInvariantViolation),
        }
    }
}

/// The step of a machine that carries the returned value `v`: pending
/// work is dropped up to the boundary of the innermost call, where the
/// value becomes the value of the call. The frames of the blocks and of
/// the call that are left on the way are given up as they would be at
/// their end. Outside any call the run ends.
pub open spec fn unwind(m: Machine, v: LiteralValue) -> (Machine, Request) {
    if m.kont.len() == 0 {
        turn(m, Mode::Done)
    } else {
        match m.kont.last() {
            Kont::Call => turn(popped(m), Mode::Value(v)),
            Kont::Leave { frame } => (
                Machine {
                    mode: Mode::Return(v),
                    kont: m.kont.drop_last(),
                    scopes: released(m.scopes, frame),
                    locals: m.locals,
                },
                Request::Continue,
            ),
            _ => turn(popped(m), Mode::Return(v)),
        }
    }
}

/// The step of a machine that waits for a number: with a reply it holds
/// that number, without one it asks again.
pub open spec fn resume(m: Machine, pending: Request, reply: Option<Number>) -> (Machine, Request) {
    match reply {
        Some(n) => turn(m, Mode::Value(LiteralValue::Number(n))),
        None => (m, pending),
    }
}

/// One step of the machine, but for the concatenation of two strings.
pub open spec fn step(m: Machine, reply: Option<Number>) -> (Machine, Request) {
    match m.mode {
        Mode::Eval { expr, env } => evaluate(m, expr, env),
        Mode::Exec { stmt, env } => execute(m, stmt, env),
        Mode::Value(v) => deliver(m, v),
        Mode::Done => proceed(m),
        Mode::Return(v) => unwind(m, v),
        Mode::Negate(n) => resume(m, Request::Negate(n), reply),
        Mode::Arithmetic { operator, left, right } => resume(m, Request::Arithmetic { operator, left, right }, reply),
        Mode::Native(native) => resume(m, Request::Native(native), reply),
    }
}

/// Whether the next step of `m` concatenates two strings.
pub open spec fn concatenating(m: Machine) -> bool {
    &&& m.mode is Value
    &&& m.kont.len() > 0
    &&& m.kont.last() matches Kont::BinaryRight { operator, left }
    &&& concatenates(left, operator, m.mode->Value_0)
}

/// Whether one step takes the machine from `pre` to `post` with `request`.
pub open spec fn steps(pre: Machine, reply: Option<Number>, post: Machine, request: Request) -> bool {
    if concatenating(pre) {
        &&& request == Request::Continue
        &&& post.kont == pre.kont.drop_last()
        &&& post.scopes == pre.scopes
        &&& post.locals == pre.locals
        &&& post.mode matches Mode::Value(LiteralValue::StringValue(s))
        &&& s@ == pre.kont.last()->BinaryRight_left->StringValue_0@ + pre.mode->Value_0->StringValue_0@
    } else {
        (post, request) == step(pre, reply)
    }
}

/// The machine that begins a run of `program` in the global frame, all
/// pending work abandoned.
pub open spec fn loaded(m: Machine, program: Seq<Stmt>) -> Machine {
    Machine {
        mode: Mode::Done,
        kont: seq![Kont::Sequence { rest: Rc::new(List::of(handles(program))), env: 0 }],
        scopes: m.scopes,
        locals: m.locals,
    }
}

/// The statements of `program`, each behind a handle.
pub open spec fn handles(program: Seq<Stmt>) -> Seq<Rc<Stmt>> {
    Seq::new(program.len(), |i: int| Rc::new(program[i]))
}

/// The machine: what it is doing, the work that waits, the frames, and the
/// binding distances that resolution recorded.
pub struct Interpreter {
    mode: Mode,
    kont: Vec<Kont>,
    environments: Environment,
    locals: HashMap<usize, usize>,
    next_id: usize,
}

impl Interpreter {
    pub closed spec fn view(&self) -> Machine {
        Machine { mode: self.mode, kont: self.kont@, scopes: self.environments@, locals: self.locals@ }
    }

    /// Holds of the frames of every interpreter, also in the middle of a
    /// step.
    spec fn raw(&self) -> bool {
        self.environments.wf()
    }

    /// Holds of every interpreter that this module hands out: its state
    /// is sound.
    pub closed spec fn wf(&self) -> bool {
        self.environments.wf() && sound(self@)
    }

    /// The number from which the identities of the nodes of the next
    /// program are counted: it is larger than the identity of every node
    /// that was given one through `reserve`.
    pub closed spec fn limit(&self) -> nat {
        self.next_id as nat
    }

    /// Whether the recorded distances agree with the state: every
    /// distance is smaller than the number of scopes around its node, so
    /// that no walk along enclosing links runs out of frames, and the
    /// pending work is in order. It holds of a new interpreter and is kept
    /// by `reserve`, by `step` and by `run`.
    pub closed spec fn consistent(&self) -> bool {
        agrees(self@, self.limit()) && keys_below(self@.locals, self.limit())
    }

    /// The state of a well-formed interpreter is sound: in particular the
    /// chains of frames are acyclic.
    pub proof fn state_is_sound(&self)
        requires
            self.wf(),
        ensures
            sound(self@),
            acyclic(self@.scopes),
    {
    }

    /// The limit is a number that an identity can have.
    pub proof fn limit_is_counted(&self)
        ensures
            self.limit() <= usize::MAX,
    {
    }

    /// What `consistent` says of an interpreter.
    pub proof fn consistent_means(&self)
        ensures
            self.consistent() == (agrees(self@, self.limit()) && keys_below(self@.locals, self.limit())),
    {
    }

    /// An interpreter with nothing to do, whose global frame binds the
    /// functions of the embedding program and nothing else.
    pub fn new() -> (r: Self)
        ensures
            r.wf(),
            r.consistent(),
            r.limit() == 0,
            r@ == (Machine {
                mode: Mode::Done,
                kont: Seq::empty(),
                scopes: seq![global_scope()],
                locals: Map::empty(),
            }),
    {
        let r = Interpreter {
            mode: Mode::Done,
            kont: Vec::new(),
            environments: Environment::new(),
            locals: HashMap::new(),
            next_id: 0,
        };
        proof {
            assert(r@.locals =~= Map::empty());
            new_machine_is_sound(Map::empty());
            crate::agreement::new_machine_agrees(r@.locals, 0);
        }
        r
    }

    /// Sets `count` identities aside for the nodes of a program and
    /// returns the first of them; `None`, and no change, if there are not
    /// that many left.
    pub fn reserve(&mut self, count: usize) -> (r: Option<usize>)
        requires
            old(self).wf(),
        ensures
            final(self).wf(),
            final(self)@ == old(self)@,
            old(self).consistent() ==> final(self).consistent(),
            match r {
                Some(first) => first == old(self).limit() && final(self).limit() == old(self).limit() + count,
                None => old(self).limit() + count > usize::MAX && final(self).limit() == old(self).limit(),
            },
    {
        if count <= usize::MAX - self.next_id {
            let first = self.next_id;
            self.next_id = first + count;
            proof {
                if old(self).consistent() {
                    more_records_agree(old(self)@, old(self).limit(), self@.locals, self.limit());
                }
            }
            Some(first)
        } else {
            None
        }
    }

    /// The number of frames that exist.
    pub fn frames(&self) -> (n: usize)
        ensures
            n == self@.scopes.len(),
    {
        self.environments.len()
    }

    /// Makes the frame for a call of a function that was declared in
    /// frame `parent`, and returns its index; `None`, and no change, if
    /// there is no frame `parent`.
    pub fn for_anon(&mut self, parent: usize) -> (r: Option<usize>)
        requires
            old(self).wf(),
        ensures
            final(self).wf(),
            parent < old(self)@.scopes.len() ==> r == Some(old(self)@.scopes.len() as usize) && final(self)@ == (
            Machine {
                scopes: old(self)@.scopes.push(fresh(parent)),
                ..old(self)@
            }),
            parent >= old(self)@.scopes.len() ==> r is None && final(self)@ == old(self)@,
            final(self).limit() == old(self).limit(),
    {
        let r = self.environments.enter(parent);
        proof {
            self.environments.counted();
            if parent < old(self)@.scopes.len() {
                lone_frame_is_sound(old(self)@, parent);
            }
        }
        r
    }

    /// Begins a run of `stmts` in the global frame. Work left over from an
    /// earlier run is abandoned; what the frames bind stays.
    pub fn interpret(&mut self, stmts: Vec<Stmt>)
        requires
            old(self).wf(),
        ensures
            final(self).wf(),
            final(self)@ == loaded(old(self)@, stmts@),
            final(self).limit() == old(self).limit(),
    {
        let mut stmts = stmts;
        let ghost all = stmts@;
        let mut list: Rc<List<Rc<Stmt>>> = Rc::new(List::Nil);
        while stmts.len() > 0
            invariant
                stmts@.len() <= all.len(),
                stmts@ == all.subrange(0, stmts@.len() as int),
                *list == List::of(handles(all).subrange(stmts@.len() as int, all.len() as int)),
            decreases stmts.len(),
        {
            let ghost n = stmts@.len() as int;
            let stmt = stmts.pop().unwrap();
            proof {
                let rest = handles(all).subrange(n - 1, all.len() as int);
                assert(rest[0] == stmt);
                assert(rest.drop_first() =~= handles(all).subrange(n, all.len() as int));
                assert(stmts@ =~= all.subrange(0, n - 1));
            }
            list = Rc::new(List::Cons { head: Rc::new(stmt), tail: list });
        }
        proof {
            assert(handles(all).subrange(0, all.len() as int) =~= handles(all));
        }
        self.mode = Mode::Done;
        self.kont = Vec::new();
        self.kont.push(Kont::Sequence { rest: list, env: 0 });
        proof {
            assert(self@.kont =~= seq![Kont::Sequence { rest: list, env: 0 }]);
            loaded_is_sound(old(self)@, all);
        }
    }

    /// Records that the variable or assignment node `id` speaks of the
    /// frame `size` enclosing links away from the frame it is evaluated in.
    pub fn resolve(&mut self, id: usize, size: usize)
        requires
            old(self).wf(),
        ensures
            final(self).wf(),
            final(self)@ == (Machine { locals: old(self)@.locals.insert(id, size), ..old(self)@ }),
            final(self).limit() == old(self).limit(),
    {
        broadcast use vstd::std_specs::hash::group_hash_axioms;

        self.locals.insert(id, size);
    }

    /// The binding distance recorded for node `id`, if any.
    pub fn get_distance(&self, id: usize) -> (r: Option<usize>)
        ensures
            r == if self@.locals.contains_key(id) {
                Some(self@.locals[id])
            } else {
                None
            },
    {
        broadcast use vstd::std_specs::hash::group_hash_axioms;

        match self.locals.get(&id) {
            Some(d) => Some(*d),
            None => None,
        }
    }

    /// Abandons all pending work.
    fn abandon(&mut self, error: RuntimeError) -> (request: Request)
        requires
            old(self).raw(),
        ensures
            final(self).raw(),
            (final(self)@, request) == fail(old(self)@, error),
    {
        self.mode = Mode::Done;
        self.kont = Vec::new();
        proof {
            assert(self@.kont =~= Seq::empty());
        }
        Request::Failed(error)
    }

    fn begin_evaluation(&mut self, expr: Rc<Expr>, env: usize) -> (request: Request)
        requires
            old(self).raw(),
            sound(in_mode(old(self)@, Mode::Eval { expr, env })),
        ensures
            final(self).wf(),
            (final(self)@, request) == evaluate(old(self)@, expr, env),
    {
        proof {
            evaluate_is_sound(old(self)@, expr, env);
        }
        let distance = match &*expr {
            Expr::Variable { name, id } => self.get_distance(*id),
            Expr::Assign { name, value, id } => self.get_distance(*id),
            _ => None,
        };
        match (&*expr).evaluvate(env, distance, &self.environments) {
            Evaluation::Value(v) => {
                match &v {
                    LiteralValue::Callable { name, arity, fun } => {
                        self.environments.hold(fun.closure);
                    },
                    _ => {},
                }
                self.mode = Mode::Value(v);
                Request::Continue
            },
            Evaluation::Descend { next, then } => {
                self.mode = Mode::Eval { expr: next, env };
                match then {
                    Some(k) => {
                        self.kont.push(k);
                    },
                    None => {},
                }
                Request::Continue
            },
            Evaluation::Failed(e) => self.abandon(e),
        }
    }

    fn begin_execution(&mut self, stmt: Rc<Stmt>, env: usize) -> (request: Request)
        requires
            old(self).raw(),
            sound(in_mode(old(self)@, Mode::Exec { stmt, env })),
        ensures
            final(self).wf(),
            (final(self)@, request) == execute(old(self)@, stmt, env),
    {
        let request = self.execute_statement(stmt, env);
        proof {
            self.environments.counted();
            execute_is_sound(old(self)@, stmt, env);
        }
        request
    }

    fn execute_statement(&mut self, stmt: Rc<Stmt>, env: usize) -> (request: Request)
        requires
            old(self).raw(),
        ensures
            final(self).raw(),
            (final(self)@, request) == execute(old(self)@, stmt, env),
    {
        match &*stmt {
            Stmt::Expression { expression } => {
                self.mode = Mode::Eval { expr: share(expression), env };
                self.kont.push(Kont::Discard);
                Request::Continue
            },
            Stmt::Print { expression } => {
                self.mode = Mode::Eval { expr: share(expression), env };
                self.kont.push(Kont::Print);
                Request::Continue
            },
            Stmt::Var { name, initializer } => {
                self.mode = Mode::Eval { expr: share(initializer), env };
                self.kont.push(Kont::Define { name: name.clone(), env });
                Request::Continue
            },
            Stmt::Block { stmts } => {
                match self.environments.enter(env) {
                    Some(frame) => {
                        self.mode = Mode::Done;
                        self.kont.push(Kont::Leave { frame });
                        self.kont.push(Kont::Sequence { rest: share(stmts), env: frame });
                        Request::Continue
                    },
                    None => self.abandon(RuntimeError::InternalInvariantViolation),
                }
            },
            Stmt::IfElse { predicate, then_branch, else_branch } => {
                let else_branch = match else_branch {
                    Some(s) => Some(share(s)),
                    None => None,
                };
                self.mode = Mode::Eval { expr: share(predicate), env };
                self.kont.push(Kont::Branch { then_branch: share(then_branch), else_branch, env });
                Request::Continue
            },
            Stmt::WhileLoop { cond, body } => {
                self.mode = Mode::Eval { expr: share(cond), env };
                self.kont.push(Kont::Loop { cond: share(cond), body: share(body), env });
                Request::Continue
            },
            Stmt::Function { name, params, body } => {
                let callable = LiteralValue::Callable {
                    name: Some(name.clone()),
                    arity: (&**params).len(),
                    fun: Rc::new(Function { params: share(params), body: share(body), closure: env }),
                };
                self.environments.hold(env);
                if self.environments.define(env, name.lexeme.clone(), callable) {
                    self.mode = Mode::Done;
                    Request::Continue
                } else {
                    self.abandon(RuntimeError::InternalInvariantViolation)
                }
            },
            Stmt::Return { keyword, value } => match value {
                Some(e) => {
                    self.mode = Mode::Eval { expr: share(e), env };
                    self.kont.push(Kont::Return);
                    Request::Continue
                },
                None => {
                    self.mode = Mode::Return(LiteralValue::Nil);
                    Request::Continue
                },
            },
        }
    }

    fn settle_outcome(&mut self, outcome: Applied) -> (request: Request)
        requires
            old(self).raw(),
        ensures
            final(self).raw(),
            (final(self)@, request) == settle(old(self)@, outcome),
    {
        match outcome {
            Applied::Value(v) => {
                self.mode = Mode::Value(v);
                Request::Continue
            },
            Applied::Negate(n) => {
                self.mode = Mode::Negate(n.clone());
                Request::Negate(n)
            },
            Applied::Arithmetic { operator, left, right } => {
                self.mode = Mode::Arithmetic { operator, left: left.clone(), right: right.clone() };
                Request::Arithmetic { operator, left, right }
            },
            Applied::Failed(e) => self.abandon(e),
        }
    }

    fn begin_call(&mut self, callee: LiteralValue, args: Rc<List<Rc<Expr>>>, env: usize) -> (request: Request)
        requires
            old(self).raw(),
        ensures
            final(self).raw(),
            (final(self)@, request) == call(old(self)@, callee, args, env),
    {
        match callee {
            LiteralValue::Callable { name, arity, fun } => {
                let given = (&*args).len();
                if given != arity {
                    self.abandon(RuntimeError::ArityMismatch { name, expected: arity, actual: given })
                } else {
                    match self.environments.enter(fun.closure) {
                        Some(frame) => {
                            self.mode = Mode::Done;
                            self.kont.push(Kont::Call);
                            self.kont.push(Kont::Leave { frame });
                            self.kont.push(Kont::Sequence { rest: share(&fun.body), env: frame });
                            self.kont.push(Kont::Arguments { params: share(&fun.params), args, frame, env });
                            Request::Continue
                        },
                        None => self.abandon(RuntimeError::InternalInvariantViolation),
                    }
                }
            },
            LiteralValue::Native(native) => {
                let given = (&*args).len();
                let expected = native.arity();
                if given != expected {
                    self.abandon(RuntimeError::NativeArityMismatch { native, expected, actual: given })
                } else {
                    self.mode = Mode::Native(native);
                    Request::Native(native)
                }
            },
            other => {
                let kind = other.kind();
                self.abandon(RuntimeError::NotCallable { kind })
            },
        }
    }

    fn bind_value(&mut self, name: Token, frame: usize, v: LiteralValue) -> (request: Request)
        requires
            old(self).raw(),
        ensures
            final(self).raw(),
            (final(self)@, request) == bind(old(self)@, name, frame, v),
    {
        if self.environments.define(frame, name.lexeme.clone(), v) {
            self.mode = Mode::Done;
            Request::Continue
        } else {
            self.abandon(RuntimeError::InternalInvariantViolation)
        }
    }

    /// Hands `v` to `k`.
    fn hand_value(&mut self, k: Kont, v: LiteralValue) -> (request: Request)
        requires
            old(self).raw(),
        ensures
            final(self).raw(),
            !(k matches Kont::BinaryRight { operator, left } && concatenates(left, operator, v)) ==> (
            final(self)@,
            request,
            ) == hand(old(self)@, k, v),
            k matches Kont::BinaryRight { operator, left } && concatenates(left, operator, v) ==> {
                &&& request == Request::Continue
                &&& final(self)@.kont == old(self)@.kont
                &&& final(self)@.scopes == old(self)@.scopes
                &&& final(self)@.locals == old(self)@.locals
                &&& final(self)@.mode matches Mode::Value(LiteralValue::StringValue(s))
                &&& s@ == k->BinaryRight_left->StringValue_0@ + v->StringValue_0@
            },
    {
        match k {
            Kont::Unary { operator } => {
                let outcome = LiteralValue::unary(&operator, v);
                self.settle_outcome(outcome)
            },
            Kont::BinaryLeft { operator, right, env } => {
                self.mode = Mode::Eval { expr: right, env };
                self.kont.push(Kont::BinaryRight { operator, left: v });
                Request::Continue
            },
            Kont::BinaryRight { operator, left } => {
                let outcome = LiteralValue::binary(left, &operator, v);
                self.settle_outcome(outcome)
            },
            Kont::Logical { operator, right, env } => {
                let or = match operator.token_type {
                    TokenType::Or => true,
                    _ => false,
                };
                if or == v.truthy() {
                    self.mode = Mode::Value(v);
                } else {
                    self.mode = Mode::Eval { expr: right, env };
                }
                Request::Continue
            },
            Kont::Assign { name, distance, env } => {
                match self.environments.assign(env, name.lexeme.as_str(), v.clone(), distance) {
                    Err(_) => self.abandon(RuntimeError::InternalInvariantViolation),
                    Ok(false) => self.abandon(RuntimeError::UndeclaredVariable { name }),
                    Ok(true) => {
                        self.mode = Mode::Value(v);
                        Request::Continue
                    },
                }
            },
            Kont::Callee { paren, args, env } => self.begin_call(v, args, env),
            Kont::Bind { name, frame } => self.bind_value(name, frame, v),
            Kont::Discard => {
                self.mode = Mode::Done;
                Request::Continue
            },
            Kont::Print => {
                self.mode = Mode::Done;
                Request::Print(v)
            },
            Kont::Define { name, env } => self.bind_value(name, env, v),
            Kont::Branch { then_branch, else_branch, env } => {
                if v.truthy() {
                    self.mode = Mode::Exec { stmt: then_branch, env };
                } else {
                    match else_branch {
                        Some(s) => {
                            self.mode = Mode::Exec { stmt: s, env };
                        },
                        None => {
                            self.mode = Mode::Done;
                        },
                    }
                }
                Request::Continue
            },
            Kont::Loop { cond, body, env } => {
                if v.truthy() {
                    self.mode = Mode::Exec { stmt: share(&body), env };
                    self.kont.push(Kont::Repeat { cond, body, env });
                } else {
                    self.mode = Mode::Done;
                }
                Request::Continue
            },
            Kont::Return => {
                self.mode = Mode::Return(v);
                Request::Continue
            },
            _ => self.abandon(RuntimeError::InternalInvariantViolation),
        }
    }

    fn deliver_value(&mut self, v: LiteralValue) -> (request: Request)
        requires
            old(self).raw(),
            sound(in_mode(old(self)@, Mode::Value(v))),
        ensures
            final(self).wf(),
            steps(Machine { mode: Mode::Value(v), ..old(self)@ }, None, final(self)@, request),
    {
        let ghost before = in_mode(old(self)@, Mode::Value(v));
        let request = match self.kont.pop() {
            None => self.abandon(RuntimeError::InternalInvariantViolation),
            Some(k) => self.hand_value(k, v),
        };
        proof {
            self.environments.counted();
            crate::soundness::step_is_sound(before, None, self@, request);
        }
        request
    }

    fn proceed_next(&mut self) -> (request: Request)
        requires
            old(self).raw(),
            sound(in_mode(old(self)@, Mode::Done)),
        ensures
            final(self).wf(),
            (final(self)@, request) == proceed(old(self)@),
    {
        let request = self.proceed_raw();
        proof {
            proceed_is_sound(old(self)@);
        }
        request
    }

    fn proceed_raw(&mut self) -> (request: Request)
        requires
            old(self).raw(),
        ensures
            final(self).raw(),
            (final(self)@, request) == proceed(old(self)@),
    {
        match self.kont.pop() {
            None => {
                self.mode = Mode::Done;
                Request::Finished
            },
            Some(k) => match k {
                Kont::Sequence { rest, env } => match &*rest {
                    List::Nil => {
                        self.mode = Mode::Done;
                        Request::Continue
                    },
                    List::Cons { head, tail } => {
                        self.mode = Mode::Exec { stmt: share(head), env };
                        self.kont.push(Kont::Sequence { rest: share(tail), env });
                        Request::Continue
                    },
                },
                Kont::Arguments { params, args, frame, env } => match (&*params, &*args) {
                    (List::Cons { head: p, tail: ps }, List::Cons { head: a, tail: more }) => {
                        self.mode = Mode::Eval { expr: share(a), env };
                        self.kont.push(Kont::Arguments { params: share(ps), args: share(more), frame, env });
                        self.kont.push(Kont::Bind { name: p.clone(), frame });
                        Request::Continue
                    },
                    _ => {
                        self.mode = Mode::Done;
                        Request::Continue
                    },
                },
                Kont::Repeat { cond, body, env } => {
                    self.mode = Mode::Eval { expr: share(&cond), env };
                    self.kont.push(Kont::Loop { cond, body, env });
                    Request::Continue
                },
                Kont::Call => {
                    self.mode = Mode::Value(LiteralValue::Nil);
                    Request::Continue
                },
                Kont::Leave { frame } => {
                    self.environments.release(frame);
                    self.mode = Mode::Done;
                    Request::Continue
                },
                _ => {
                    proof {
                        assert(self@.kont == old(self)@.kont.drop_last());
                    }
                    self.abandon(RuntimeError::InternalInvariantViolation)
                },
            },
        }
    }

    fn unwind_return(&mut self, v: LiteralValue) -> (request: Request)
        requires
            old(self).raw(),
            sound(in_mode(old(self)@, Mode::Return(v))),
        ensures
            final(self).wf(),
            (final(self)@, request) == unwind(old(self)@, v),
    {
        let request = self.unwind_raw(v);
        proof {
            unwind_is_sound(old(self)@, v);
        }
        request
    }

    fn unwind_raw(&mut self, v: LiteralValue) -> (request: Request)
        requires
            old(self).raw(),
        ensures
            final(self).raw(),
            (final(self)@, request) == unwind(old(self)@, v),
    {
        match self.kont.pop() {
            None => {
                self.mode = Mode::Done;
                Request::Continue
            },
            Some(k) => match k {
                Kont::Call => {
                    self.mode = Mode::Value(v);
                    Request::Continue
                },
                Kont::Leave { frame } => {
                    self.environments.release(frame);
                    self.mode = Mode::Return(v);
                    Request::Continue
                },
                _ => {
                    self.mode = Mode::Return(v);
                    Request::Continue
                },
            },
        }
    }

    /// Takes one step. `reply` answers the request that the step before
    /// made, where that request asked for a number; otherwise it is not
    /// looked at. In a consistent interpreter no step fails for an
    /// inconsistency, and the interpreter stays consistent.
    pub fn step(&mut self, reply: Option<Number>) -> (request: Request)
        requires
            old(self).wf(),
        ensures
            final(self).wf(),
            steps(old(self)@, reply, final(self)@, request),
            final(self).limit() == old(self).limit(),
            old(self).consistent() ==> final(self).consistent() && fine(request),
    {
        let limit = self.next_id;
        let request = self.advance(reply);
        self.next_id = limit;
        proof {
            self.environments.counted();
            if old(self).consistent() {
                step_agrees(old(self)@, reply, self@, request, limit as nat);
                step_keeps_bindings(old(self)@, reply, self@, request);
            }
        }
        request
    }

    /// Takes one step.
    fn advance(&mut self, reply: Option<Number>) -> (request: Request)
        requires
            old(self).wf(),
        ensures
            final(self).wf(),
            steps(old(self)@, reply, final(self)@, request),
    {
        let mut mode = Mode::Done;
        core::mem::swap(&mut self.mode, &mut mode);
        match mode {
            Mode::Eval { expr, env } => self.begin_evaluation(expr, env),
            Mode::Exec { stmt, env } => self.begin_execution(stmt, env),
            Mode::Value(v) => self.deliver_value(v),
            Mode::Done => self.proceed_next(),
            Mode::Return(v) => self.unwind_return(v),
            Mode::Negate(n) => match reply {
                Some(r) => {
                    self.mode = Mode::Value(LiteralValue::Number(r));
                    Request::Continue
                },
                None => {
                    self.mode = Mode::Negate(n.clone());
                    Request::Negate(n)
                },
            },
            Mode::Arithmetic { operator, left, right } => match reply {
                Some(r) => {
                    self.mode = Mode::Value(LiteralValue::Number(r));
                    Request::Continue
                },
                None => {
                    self.mode = Mode::Arithmetic { operator, left: left.clone(), right: right.clone() };
                    Request::Arithmetic { operator, left, right }
                },
            },
            Mode::Native(native) => match reply {
                Some(r) => {
                    self.mode = Mode::Value(LiteralValue::Number(r));
                    Request::Continue
                },
                None => {
                    self.mode = Mode::Native(native);
                    Request::Native(native)
                },
            },
        }
    }
}

/// A callable is called with exactly as many arguments as it takes, or
/// the call fails and names both counts: when the value handed to a
/// pending call is a callable whose arity differs from the number of
/// argument expressions, the step fails with those two numbers, whatever
/// else the machine holds.
pub proof fn call_with_wrong_count_fails(
    m: Machine,
    reply: Option<Number>,
    post: Machine,
    request: Request,
    name: Option<Token>,
    arity: usize,
    fun: Rc<Function>,
    paren: Token,
    args: Rc<List<Rc<Expr>>>,
    env: usize,
)
    requires
        m.mode == Mode::Value(LiteralValue::Callable { name, arity, fun }),
        m.kont.len() > 0,
        m.kont.last() == (Kont::Callee { paren, args, env }),
        clip(args.seq().len()) != arity,
        steps(m, reply, post, request),
    ensures
        request == Request::Failed(
            RuntimeError::ArityMismatch { name, expected: arity, actual: clip(args.seq().len()) },
        ),
        post.kont.len() == 0,
        post.scopes == m.scopes,
{
}

/// A call with the right number of arguments makes one new frame, which
/// is enclosed by the frame in which the callable was declared: not by
/// the frame of the caller.
pub proof fn call_enters_the_declaring_frame(
    m: Machine,
    reply: Option<Number>,
    post: Machine,
    request: Request,
    name: Option<Token>,
    fun: Rc<Function>,
    paren: Token,
    args: Rc<List<Rc<Expr>>>,
    env: usize,
)
    requires
        m.mode == Mode::Value(LiteralValue::Callable { name, arity: clip(args.seq().len()), fun }),
        m.kont.len() > 0,
        m.kont.last() == (Kont::Callee { paren, args, env }),
        fun.closure < m.scopes.len(),
        steps(m, reply, post, request),
    ensures
        request == Request::Continue,
        post.scopes == m.scopes.push(fresh(fun.closure)),
        post.kont.len() == m.kont.len() + 3,
        post.kont.last() == (Kont::Arguments {
            params: fun.params,
            args,
            frame: m.scopes.len() as usize,
            env,
        }),
{
}

/// What the resolver recorded for a node is never changed by running the
/// program: a reference keeps its binding however often it is evaluated.
pub proof fn step_keeps_bindings(m: Machine, reply: Option<Number>, post: Machine, request: Request)
    requires
        steps(m, reply, post, request),
    ensures
        post.locals == m.locals,
{
    if !concatenating(m) {
        match m.mode {
            Mode::Value(v) => {
                if m.kont.len() > 0 {
                    step_of_value_keeps_bindings(popped(m), m.kont.last(), v);
                }
            },
            _ => {},
        }
    }
}

proof fn step_of_value_keeps_bindings(m: Machine, k: Kont, v: LiteralValue)
    ensures
        hand(m, k, v).0.locals == m.locals,
{
}

/// A failed step leaves nothing pending, so that the next run starts
/// from the global frame; what the frames bind is kept.
pub proof fn failure_abandons_the_run(m: Machine, reply: Option<Number>, post: Machine, request: Request)
    requires
        steps(m, reply, post, request),
        request is Failed,
    ensures
        post.kont.len() == 0,
        post.mode == Mode::Done,
        post.locals == m.locals,
{
    step_keeps_bindings(m, reply, post, request);
    if !concatenating(m) {
        match m.mode {
            Mode::Value(v) => {
                if m.kont.len() > 0 {
                    failed_hand_abandons(popped(m), m.kont.last(), v);
                }
            },
            _ => {},
        }
    }
}

proof fn failed_hand_abandons(m: Machine, k: Kont, v: LiteralValue)
    ensures
        hand(m, k, v).1 is Failed ==> hand(m, k, v).0.kont.len() == 0 && hand(m, k, v).0.mode == Mode::Done,
{
}

/// `or` and `and` yield one of their operands as it is, never a boolean
/// made from it: the left operand where it is truthy for `or`, falsy for
/// `and`; otherwise the right operand, which is only evaluated then.
pub proof fn logical_operator_yields_an_operand(
    m: Machine,
    reply: Option<Number>,
    post: Machine,
    request: Request,
    operator: Token,
    right: Rc<Expr>,
    env: usize,
    v: LiteralValue,
)
    requires
        m.mode == Mode::Value(v),
        m.kont.len() > 0,
        m.kont.last() == (Kont::Logical { operator, right, env }),
        steps(m, reply, post, request),
    ensures
        request == Request::Continue,
        post.kont == m.kont.drop_last(),
        post.mode == if (operator.token_type == TokenType::Or) == truthy(v) {
            Mode::Value(v)
        } else {
            Mode::Eval { expr: right, env }
        },
{
}

/// A step gives up at most one frame: the newest one, and only if no
/// callable holds on to it. Every frame that stays keeps its place and
/// the frame that encloses it.
pub proof fn step_gives_up_the_newest_frame_only(m: Machine, reply: Option<Number>, post: Machine, request: Request)
    requires
        steps(m, reply, post, request),
    ensures
        post.scopes.len() + 1 >= m.scopes.len(),
        forall|i: int|
            0 <= i < m.scopes.len() && i < post.scopes.len() ==> (#[trigger] post.scopes[i]).enclosing
                == m.scopes[i].enclosing,
        post.scopes.len() < m.scopes.len() ==> post.scopes == m.scopes.drop_last() && !m.scopes.last().held
            && m.scopes.len() >= 2,
{
    if !concatenating(m) {
        match m.mode {
            Mode::Value(v) => {
                if m.kont.len() > 0 {
                    match m.kont.last() {
                        Kont::Assign { name, distance, env } => {
                            match distance {
                                Some(d) => {
                                    crate::environments::ancestor_in_range(m.scopes, env, d as nat);
                                },
                                None => {},
                            }
                        },
                        _ => {},
                    }
                }
            },
            _ => {},
        }
    }
}

} // verus!
