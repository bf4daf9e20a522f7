//! The resolver: a pass over the syntax tree that finds, for every read
//! and every assignment of a variable, how many scopes lie between the
//! reference and the declaration it speaks of.

use vstd::prelude::*;
use std::rc::Rc;
use crate::dictionary::Dictionary;
use crate::expr::Expr;
use crate::interpreter::{Interpreter, Machine};
use crate::list::List;
use crate::scanner::Token;
use crate::stmt::Stmt;

verus! {

/// Why resolution stopped.
#[derive(Debug)]
pub enum ResolutionError {
    /// A local variable is read in its own initializer.
    OwnInitializer { name: Token },
}

/// The state of a resolution: the scopes open at this point, innermost
/// last, each with the names declared in it and whether each is defined
/// yet; the distances recorded so far, by node; and the error, if one
/// was met, after which nothing changes any more.
pub ghost struct Bindings {
    pub scopes: Seq<Map<Seq<char>, bool>>,
    pub locals: Map<usize, usize>,
    pub error: Option<ResolutionError>,
}

/// Opens a scope.
pub open spec fn begin_scope(b: Bindings) -> Bindings {
    if b.error is Some {
        b
    } else {
        Bindings { scopes: b.scopes.push(Map::empty()), locals: b.locals, error: b.error }
    }
}

/// Closes the innermost scope.
pub open spec fn end_scope(b: Bindings) -> Bindings {
    if b.error is Some || b.scopes.len() == 0 {
        b
    } else {
        Bindings { scopes: b.scopes.drop_last(), locals: b.locals, error: b.error }
    }
}

/// Puts `name` into the innermost scope, defined or not. At global level,
/// where no scope is open, nothing is noted.
pub open spec fn note(b: Bindings, name: Token, defined: bool) -> Bindings {
    if b.error is Some || b.scopes.len() == 0 {
        b
    } else {
        Bindings {
            scopes: b.scopes.update(b.scopes.len() - 1, b.scopes.last().insert(name.lexeme@, defined)),
            locals: b.locals,
            error: b.error,
        }
    }
}

/// The number of scopes between the innermost one and the innermost one
/// among the first `below` that declares `name`.
pub open spec fn distance(scopes: Seq<Map<Seq<char>, bool>>, name: Seq<char>, below: int) -> Option<usize>
    decreases below,
{
    if below <= 0 || below > scopes.len() {
        None
    } else if scopes[below - 1].contains_key(name) {
        Some((scopes.len() - below) as usize)
    } else {
        distance(scopes, name, below - 1)
    }
}

/// Records for node `id` the distance to the innermost scope that
/// declares `name`; nothing, if none does: the name is then global.
pub open spec fn resolve_local(b: Bindings, id: usize, name: Token) -> Bindings {
    if b.error is Some {
        b
    } else {
        match distance(b.scopes, name.lexeme@, b.scopes.len() as int) {
            Some(d) => Bindings { scopes: b.scopes, locals: b.locals.insert(id, d), error: b.error },
            None => b,
        }
    }
}

/// Whether `name` is declared in the innermost scope and not defined yet.
pub open spec fn in_own_initializer(b: Bindings, name: Token) -> bool {
    &&& b.scopes.len() > 0
    &&& b.scopes.last().contains_key(name.lexeme@)
    &&& !b.scopes.last()[name.lexeme@]
}

/// Resolves a read of the variable `name` at node `id`.
pub open spec fn resolve_variable(b: Bindings, name: Token, id: usize) -> Bindings {
    if b.error is Some {
        b
    } else if in_own_initializer(b, name) {
        Bindings { scopes: b.scopes, locals: b.locals, error: Some(ResolutionError::OwnInitializer { name }) }
    } else {
        resolve_local(b, id, name)
    }
}

/// Resolves an expression.
pub open spec fn resolve_expr(b: Bindings, expr: Expr) -> Bindings
    decreases expr, 0nat,
{
    if b.error is Some {
        b
    } else {
        match expr {
            Expr::Variable { name, id } => resolve_variable(b, name, id),
            Expr::Assign { name, value, id } => resolve_local(resolve_expr(b, *value), id, name),
            Expr::Binary { left, operator, right } => resolve_expr(resolve_expr(b, *left), *right),
            Expr::Logical { left, operator, right } => resolve_expr(resolve_expr(b, *left), *right),
            Expr::Call { callee, paren, args } => resolve_exprs(resolve_expr(b, *callee), *args),
            Expr::Grouping { expression } => resolve_expr(b, *expression),
            Expr::Literal { literal } => b,
            Expr::Unary { operator, right } => resolve_expr(b, *right),
            Expr::AnonFunc { paren, args, body } => resolve_function(b, *args, *body),
        }
    }
}

/// Resolves expressions in order.
pub open spec fn resolve_exprs(b: Bindings, exprs: List<Rc<Expr>>) -> Bindings
    decreases exprs, 0nat,
{
    if b.error is Some {
        b
    } else {
        match exprs {
            List::Nil => b,
            List::Cons { head, tail } => resolve_exprs(resolve_expr(b, *head), *tail),
        }
    }
}

/// Declares and defines each parameter.
pub open spec fn note_params(b: Bindings, params: List<Token>) -> Bindings
    decreases params,
{
    if b.error is Some {
        b
    } else {
        match params {
            List::Nil => b,
            List::Cons { head, tail } => note_params(note(note(b, head, false), head, true), *tail),
        }
    }
}

/// Resolves a function: its parameters and its body share a scope of
/// their own.
pub open spec fn resolve_function(b: Bindings, params: List<Token>, body: List<Rc<Stmt>>) -> Bindings
    decreases body, 1nat,
{
    end_scope(resolve_stmts(note_params(begin_scope(b), params), body))
}

/// Resolves statements in order.
pub open spec fn resolve_stmts(b: Bindings, stmts: List<Rc<Stmt>>) -> Bindings
    decreases stmts, 0nat,
{
    if b.error is Some {
        b
    } else {
        match stmts {
            List::Nil => b,
            List::Cons { head, tail } => resolve_stmts(resolve_stmt(b, *head), *tail),
        }
    }
}

/// Resolves a statement. A variable is declared before its initializer
/// is resolved and defined after it; a function is defined before its
/// body is resolved, so that it can call itself.
pub open spec fn resolve_stmt(b: Bindings, stmt: Stmt) -> Bindings
    decreases stmt, 0nat,
{
    if b.error is Some {
        b
    } else {
        match stmt {
            Stmt::Block { stmts } => end_scope(resolve_stmts(begin_scope(b), *stmts)),
            Stmt::Var { name, initializer } => note(resolve_expr(note(b, name, false), *initializer), name, true),
            Stmt::Function { name, params, body } => resolve_function(
                note(note(b, name, false), name, true),
                *params,
                *body,
            ),
            Stmt::Expression { expression } => resolve_expr(b, *expression),
            Stmt::IfElse { predicate, then_branch, else_branch } => {
                let b = resolve_stmt(resolve_expr(b, *predicate), *then_branch);
                match else_branch {
                    Some(s) => resolve_stmt(b, *s),
                    None => b,
                }
            },
            Stmt::Print { expression } => resolve_expr(b, *expression),
            Stmt::Return { keyword, value } => match value {
                Some(e) => resolve_expr(b, *e),
                None => b,
            },
            Stmt::WhileLoop { cond, body } => resolve_stmt(resolve_expr(b, *cond), *body),
        }
    }
}

/// Resolves the statements of a program in order.
pub open spec fn resolve_program(b: Bindings, stmts: Seq<Stmt>) -> Bindings
    decreases stmts.len(),
{
    if b.error is Some {
        b
    } else {
        if stmts.len() == 0 {
            b
        } else {
            resolve_program(resolve_stmt(b, stmts[0]), stmts.drop_first())
        }
    }
}

/// The resolver: the scopes that are open at the point it has reached.
pub struct Resolver {
    scopes: Vec<Dictionary<bool>>,
}

impl Resolver {
    /// The scopes open at this point, innermost last.
    pub closed spec fn view(&self) -> Seq<Map<Seq<char>, bool>> {
        Seq::new(self.scopes@.len(), |i: int| self.scopes@[i]@)
    }

    /// The state of the resolution that this resolver and `interpreter`
    /// hold between them.
    pub open spec fn state(&self, interpreter: &Interpreter) -> Bindings {
        Bindings { scopes: self@, locals: interpreter@.locals, error: None }
    }

    /// Whether this resolver and `after` hold the state `out` between
    /// them, `r` reports the error of `out`, and `after` is `before` but
    /// for the distances recorded.
    pub open spec fn reached(
        &self,
        before: &Interpreter,
        after: &Interpreter,
        r: Result<(), ResolutionError>,
        out: Bindings,
    ) -> bool {
        &&& after.wf()
        &&& after.limit() == before.limit()
        &&& self@ == out.scopes
        &&& after@ == (Machine { locals: out.locals, ..before@ })
        &&& match out.error {
            Some(e) => r == Err::<(), ResolutionError>(e),
            None => r is Ok,
        }
    }

    /// A resolver at global level: no scope is open.
    pub fn new() -> (r: Self)
        ensures
            r@ == Seq::<Map<Seq<char>, bool>>::empty(),
    {
        let r = Resolver { scopes: Vec::new() };
        proof {
            assert(r@ =~= Seq::empty());
        }
        r
    }

    /// Resolves the statements of a program in order, and records the
    /// distances found in `interpreter`. Stops at the first error.
    pub fn resolve_many(&mut self, stmts: &Vec<Stmt>, interpreter: &mut Interpreter) -> (r: Result<
        (),
        ResolutionError,
    >)
        requires
            old(interpreter).wf(),
        ensures
            final(self).reached(
                old(interpreter),
                final(interpreter),
                r,
                resolve_program(old(self).state(old(interpreter)), stmts@),
            ),
    {
        proof {
            reveal_with_fuel(resolve_stmt, 2);
            reveal_with_fuel(resolve_stmts, 2);
            reveal_with_fuel(resolve_expr, 2);
            reveal_with_fuel(resolve_exprs, 2);
            reveal_with_fuel(resolve_program, 2);
        }
        let ghost goal = resolve_program(self.state(interpreter), stmts@);
        let mut i: usize = 0;
        proof {
            assert(stmts@.subrange(0, stmts@.len() as int) =~= stmts@);
        }
        while i < stmts.len()
            invariant
                0 <= i <= stmts.len(),
                interpreter.wf(),
                interpreter@ == (Machine { locals: interpreter@.locals, ..old(interpreter)@ }),
                interpreter.limit() == old(interpreter).limit(),
                goal == resolve_program(old(self).state(old(interpreter)), stmts@),
                goal == resolve_program(self.state(interpreter), stmts@.subrange(i as int, stmts@.len() as int)),
            decreases stmts.len() - i,
        {
            proof {
                reveal_with_fuel(resolve_stmt, 2);
                reveal_with_fuel(resolve_program, 2);
                assert(stmts@.subrange(i as int, stmts@.len() as int).drop_first() =~= stmts@.subrange(
                    i + 1,
                    stmts@.len() as int,
                ));
            }
            self.resolve(&stmts[i], interpreter)?;
            i += 1;
        }
        Ok(())
    }

    /// Resolves a statement.
    pub fn resolve(&mut self, stmt: &Stmt, interpreter: &mut Interpreter) -> (r: Result<(), ResolutionError>)
        requires
            old(interpreter).wf(),
        ensures
            final(self).reached(
                old(interpreter),
                final(interpreter),
                r,
                resolve_stmt(old(self).state(old(interpreter)), *stmt),
            ),
        decreases stmt, 1nat,
    {
        proof {
            reveal_with_fuel(resolve_stmt, 2);
            reveal_with_fuel(resolve_stmts, 2);
            reveal_with_fuel(resolve_expr, 2);
            reveal_with_fuel(resolve_exprs, 2);
            reveal_with_fuel(resolve_program, 2);
        }
        match stmt {
            Stmt::Block { stmts } => {
                self.resolve_block(&**stmts, interpreter)?;
            },
            Stmt::Var { name, initializer } => {
                self.resolve_var(name, &**initializer, interpreter)?;
            },
            Stmt::Function { name, params, body } => {
                self.resolve_function(name, &**params, &**body, interpreter)?;
            },
            Stmt::Expression { expression } => {
                self.resolve_expr(&**expression, interpreter)?;
            },
            Stmt::IfElse { .. } => {
                self.resolve_if_else(stmt, interpreter)?;
            },
            Stmt::Print { expression } => {
                self.resolve_expr(&**expression, interpreter)?;
            },
            Stmt::Return { keyword, value } => {
                if let Some(val) = value {
                    self.resolve_expr(&**val, interpreter)?;
                }
            },
            Stmt::WhileLoop { cond, body } => {
                self.resolve_expr(&**cond, interpreter)?;
                self.resolve(&**body, interpreter)?;
            },
        }
        Ok(())
    }

    fn resolve_if_else(&mut self, stmt: &Stmt, interpreter: &mut Interpreter) -> (r: Result<(), ResolutionError>)
        requires
            old(interpreter).wf(),
            stmt is IfElse,
        ensures
            final(self).reached(
                old(interpreter),
                final(interpreter),
                r,
                resolve_stmt(old(self).state(old(interpreter)), *stmt),
            ),
        decreases stmt, 0nat,
    {
        proof {
            reveal_with_fuel(resolve_stmt, 2);
            reveal_with_fuel(resolve_stmts, 2);
            reveal_with_fuel(resolve_expr, 2);
            reveal_with_fuel(resolve_exprs, 2);
            reveal_with_fuel(resolve_program, 2);
        }
        match stmt {
            Stmt::IfElse { predicate, then_branch, else_branch } => {
                self.resolve_expr(&**predicate, interpreter)?;
                self.resolve(&**then_branch, interpreter)?;
                if let Some(els) = else_branch {
                    self.resolve(&**els, interpreter)?;
                }
            },
            _ => {},
        }
        Ok(())
    }

    fn resolve_function(
        &mut self,
        name: &Token,
        params: &List<Token>,
        body: &List<Rc<Stmt>>,
        interpreter: &mut Interpreter,
    ) -> (r: Result<(), ResolutionError>)
        requires
            old(interpreter).wf(),
        ensures
            final(self).reached(
                old(interpreter),
                final(interpreter),
                r,
                resolve_function(
                    note(note(old(self).state(old(interpreter)), *name, false), *name, true),
                    *params,
                    *body,
                ),
            ),
        decreases body, 2nat,
    {
        self.declare(name);
        self.define(name);
        self.resolve_function_helper(params, body, interpreter)
    }

    fn resolve_function_helper(
        &mut self,
        params: &List<Token>,
        body: &List<Rc<Stmt>>,
        interpreter: &mut Interpreter,
    ) -> (r: Result<(), ResolutionError>)
        requires
            old(interpreter).wf(),
        ensures
            final(self).reached(
                old(interpreter),
                final(interpreter),
                r,
                resolve_function(old(self).state(old(interpreter)), *params, *body),
            ),
        decreases body, 1nat,
    {
        proof {
            reveal_with_fuel(resolve_stmt, 2);
            reveal_with_fuel(resolve_stmts, 2);
            reveal_with_fuel(resolve_expr, 2);
            reveal_with_fuel(resolve_exprs, 2);
            reveal_with_fuel(resolve_program, 2);
        }
        self.begin_scope();
        let ghost goal = note_params(self.state(interpreter), *params);
        let mut cur = params;
        loop
            invariant
                interpreter.wf(),
                *interpreter == *old(interpreter),
                goal == note_params(begin_scope(old(self).state(old(interpreter))), *params),
                goal == note_params(self.state(interpreter), *cur),
            ensures
                goal == self.state(interpreter),
            decreases cur,
        {
            match cur {
                List::Nil => {
                    break ;
                },
                List::Cons { head, tail } => {
                    self.declare(head);
                    self.define(head);
                    cur = &**tail;
                },
            }
        }
        self.resolve_list(body, interpreter)?;
        self.end_scope();
        Ok(())
    }

    /// Resolves the statements of a list in order.
    fn resolve_list(&mut self, stmts: &List<Rc<Stmt>>, interpreter: &mut Interpreter) -> (r: Result<
        (),
        ResolutionError,
    >)
        requires
            old(interpreter).wf(),
        ensures
            final(self).reached(
                old(interpreter),
                final(interpreter),
                r,
                resolve_stmts(old(self).state(old(interpreter)), *stmts),
            ),
        decreases stmts, 0nat,
    {
        proof {
            reveal_with_fuel(resolve_stmt, 2);
            reveal_with_fuel(resolve_stmts, 2);
            reveal_with_fuel(resolve_expr, 2);
            reveal_with_fuel(resolve_exprs, 2);
            reveal_with_fuel(resolve_program, 2);
        }
        let ghost goal = resolve_stmts(self.state(interpreter), *stmts);
        let mut cur = stmts;
        loop
            invariant
                interpreter.wf(),
                interpreter@ == (Machine { locals: interpreter@.locals, ..old(interpreter)@ }),
                interpreter.limit() == old(interpreter).limit(),
                goal == resolve_stmts(old(self).state(old(interpreter)), *stmts),
                goal == resolve_stmts(self.state(interpreter), *cur),
                *cur == *stmts || decreases_to!(stmts => cur),
            decreases cur,
        {
            proof {
                reveal_with_fuel(resolve_stmt, 2);
                reveal_with_fuel(resolve_stmts, 2);
                reveal_with_fuel(resolve_expr, 2);
                reveal_with_fuel(resolve_exprs, 2);
            }
            match cur {
                List::Nil => {
                    return Ok(());
                },
                List::Cons { head, tail } => {
                    self.resolve(&**head, interpreter)?;
                    cur = &**tail;
                },
            }
        }
    }

    fn resolve_var(&mut self, name: &Token, initializer: &Expr, interpreter: &mut Interpreter) -> (r: Result<
        (),
        ResolutionError,
    >)
        requires
            old(interpreter).wf(),
        ensures
            final(self).reached(
                old(interpreter),
                final(interpreter),
                r,
                note(resolve_expr(note(old(self).state(old(interpreter)), *name, false), *initializer), *name, true),
            ),
        decreases initializer, 1nat,
    {
        proof {
            reveal_with_fuel(resolve_stmt, 2);
            reveal_with_fuel(resolve_stmts, 2);
            reveal_with_fuel(resolve_expr, 2);
            reveal_with_fuel(resolve_exprs, 2);
            reveal_with_fuel(resolve_program, 2);
        }
        self.declare(name);
        self.resolve_expr(initializer, interpreter)?;
        self.define(name);
        Ok(())
    }

    /// Notes `name` in the innermost scope.
    fn put(&mut self, name: &Token, defined: bool)
        ensures
            final(self)@ == note(
                Bindings { scopes: old(self)@, locals: Map::empty(), error: None },
                *name,
                defined,
            ).scopes,
    {
        if self.scopes.len() == 0 {
            return ;
        }
        let last = self.scopes.len() - 1;
        self.scopes[last].insert(name.lexeme.clone(), defined);
        proof {
            assert(self@ =~= old(self)@.update(last as int, old(self)@.last().insert(name.lexeme@, defined)));
        }
    }

    /// Declares `name` in the innermost scope: it is not defined yet.
    fn declare(&mut self, name: &Token)
        ensures
            final(self)@ == note(
                Bindings { scopes: old(self)@, locals: Map::empty(), error: None },
                *name,
                false,
            ).scopes,
    {
        self.put(name, false)
    }

    /// Defines `name` in the innermost scope.
    fn define(&mut self, name: &Token)
        ensures
            final(self)@ == note(
                Bindings { scopes: old(self)@, locals: Map::empty(), error: None },
                *name,
                true,
            ).scopes,
    {
        self.put(name, true)
    }

    fn resolve_block(&mut self, stmts: &List<Rc<Stmt>>, interpreter: &mut Interpreter) -> (r: Result<
        (),
        ResolutionError,
    >)
        requires
            old(interpreter).wf(),
        ensures
            final(self).reached(
                old(interpreter),
                final(interpreter),
                r,
                end_scope(resolve_stmts(begin_scope(old(self).state(old(interpreter))), *stmts)),
            ),
        decreases stmts, 1nat,
    {
        proof {
            reveal_with_fuel(resolve_stmt, 2);
            reveal_with_fuel(resolve_stmts, 2);
            reveal_with_fuel(resolve_expr, 2);
            reveal_with_fuel(resolve_exprs, 2);
            reveal_with_fuel(resolve_program, 2);
        }
        self.begin_scope();
        self.resolve_list(stmts, interpreter)?;
        self.end_scope();
        Ok(())
    }

    fn begin_scope(&mut self)
        ensures
            final(self)@ == old(self)@.push(Map::empty()),
    {
        self.scopes.push(Dictionary::new());
        proof {
            assert(self@ =~= old(self)@.push(Map::empty()));
        }
    }

    fn end_scope(&mut self)
        ensures
            final(self)@ == if old(self)@.len() == 0 {
                old(self)@
            } else {
                old(self)@.drop_last()
            },
    {
        self.scopes.pop();
        proof {
            if old(self)@.len() > 0 {
                assert(self@ =~= old(self)@.drop_last());
            } else {
                assert(self@ =~= old(self)@);
            }
        }
    }

    fn resolve_expr(&mut self, expr: &Expr, interpreter: &mut Interpreter) -> (r: Result<(), ResolutionError>)
        requires
            old(interpreter).wf(),
        ensures
            final(self).reached(
                old(interpreter),
                final(interpreter),
                r,
                resolve_expr(old(self).state(old(interpreter)), *expr),
            ),
        decreases expr, 0nat,
    {
        proof {
            reveal_with_fuel(resolve_stmt, 2);
            reveal_with_fuel(resolve_stmts, 2);
            reveal_with_fuel(resolve_expr, 2);
            reveal_with_fuel(resolve_exprs, 2);
            reveal_with_fuel(resolve_program, 2);
        }
        match expr {
            Expr::Variable { name, id } => {
                self.resolve_expr_var(name, *id, interpreter)?;
            },
            Expr::Assign { name, value, id } => {
                self.resolve_expr_assign(name, &**value, *id, interpreter)?;
            },
            Expr::Binary { left, operator, right } => {
                self.resolve_expr(&**left, interpreter)?;
                self.resolve_expr(&**right, interpreter)?;
            },
            Expr::Call { callee, paren, args } => {
                self.resolve_expr(&**callee, interpreter)?;
                self.resolve_exprs(&**args, interpreter)?;
            },
            Expr::Grouping { expression } => {
                self.resolve_expr(&**expression, interpreter)?;
            },
            Expr::Literal { literal } => {},
            Expr::Logical { left, operator, right } => {
                self.resolve_expr(&**left, interpreter)?;
                self.resolve_expr(&**right, interpreter)?;
            },
            Expr::Unary { operator, right } => {
                self.resolve_expr(&**right, interpreter)?;
            },
            Expr::AnonFunc { paren, args, body } => {
                self.resolve_function_helper(&**args, &**body, interpreter)?;
            },
        }
        Ok(())
    }

    /// Resolves the expressions of a list in order.
    fn resolve_exprs(&mut self, exprs: &List<Rc<Expr>>, interpreter: &mut Interpreter) -> (r: Result<
        (),
        ResolutionError,
    >)
        requires
            old(interpreter).wf(),
        ensures
            final(self).reached(
                old(interpreter),
                final(interpreter),
                r,
                resolve_exprs(old(self).state(old(interpreter)), *exprs),
            ),
        decreases exprs, 0nat,
    {
        proof {
            reveal_with_fuel(resolve_stmt, 2);
            reveal_with_fuel(resolve_stmts, 2);
            reveal_with_fuel(resolve_expr, 2);
            reveal_with_fuel(resolve_exprs, 2);
            reveal_with_fuel(resolve_program, 2);
        }
        let ghost goal = resolve_exprs(self.state(interpreter), *exprs);
        let mut cur = exprs;
        loop
            invariant
                interpreter.wf(),
                interpreter@ == (Machine { locals: interpreter@.locals, ..old(interpreter)@ }),
                interpreter.limit() == old(interpreter).limit(),
                goal == resolve_exprs(old(self).state(old(interpreter)), *exprs),
                goal == resolve_exprs(self.state(interpreter), *cur),
                *cur == *exprs || decreases_to!(exprs => cur),
            decreases cur,
        {
            proof {
                reveal_with_fuel(resolve_stmt, 2);
                reveal_with_fuel(resolve_stmts, 2);
                reveal_with_fuel(resolve_expr, 2);
                reveal_with_fuel(resolve_exprs, 2);
            }
            match cur {
                List::Nil => {
                    return Ok(());
                },
                List::Cons { head, tail } => {
                    self.resolve_expr(&**head, interpreter)?;
                    cur = &**tail;
                },
            }
        }
    }

    fn resolve_expr_assign(&mut self, name: &Token, value: &Expr, id: usize, interpreter: &mut Interpreter) -> (r:
        Result<(), ResolutionError>)
        requires
            old(interpreter).wf(),
        ensures
            final(self).reached(
                old(interpreter),
                final(interpreter),
                r,
                resolve_local(resolve_expr(old(self).state(old(interpreter)), *value), id, *name),
            ),
        decreases value, 1nat,
    {
        proof {
            reveal_with_fuel(resolve_stmt, 2);
            reveal_with_fuel(resolve_stmts, 2);
            reveal_with_fuel(resolve_expr, 2);
            reveal_with_fuel(resolve_exprs, 2);
            reveal_with_fuel(resolve_program, 2);
        }
        self.resolve_expr(value, interpreter)?;
        self.resolve_local(id, name, interpreter);
        Ok(())
    }

    fn resolve_expr_var(&mut self, name: &Token, id: usize, interpreter: &mut Interpreter) -> (r: Result<
        (),
        ResolutionError,
    >)
        requires
            old(interpreter).wf(),
        ensures
            final(self).reached(
                old(interpreter),
                final(interpreter),
                r,
                resolve_variable(old(self).state(old(interpreter)), *name, id),
            ),
    {
        if self.scopes.len() > 0 {
            let last = self.scopes.len() - 1;
            match self.scopes[last].get(&name.lexeme) {
                Some(defined) => {
                    if !*defined {
                        return Err(ResolutionError::OwnInitializer { name: name.clone() });
                    }
                },
                None => {},
            }
        }
        self.resolve_local(id, name, interpreter);
        Ok(())
    }

    /// Records the distance from the innermost scope to the one that
    /// declares `name`, if any does.
    fn resolve_local(&mut self, id: usize, name: &Token, interpreter: &mut Interpreter)
        requires
            old(interpreter).wf(),
        ensures
            final(self).reached(
                old(interpreter),
                final(interpreter),
                Ok(()),
                resolve_local(old(self).state(old(interpreter)), id, *name),
            ),
    {
        let size = self.scopes.len();
        let mut i: usize = size;
        while i > 0
            invariant
                0 <= i <= size,
                size == self.scopes@.len(),
                *self == *old(self),
                *interpreter == *old(interpreter),
                interpreter.wf(),
                distance(self@, name.lexeme@, size as int) == distance(self@, name.lexeme@, i as int),
            decreases i,
        {
            if self.scopes[i - 1].contains(&name.lexeme) {
                interpreter.resolve(id, size - i);
                return ;
            }
            i -= 1;
        }
    }
}

/// The message of a resolution error.
pub open spec fn resolution_error_text(e: ResolutionError) -> Seq<char> {
    match e {
        ResolutionError::OwnInitializer { name } => "Cannot read local variable in its own initialization"@,
    }
}

impl ResolutionError {
    pub fn message(&self) -> (r: String)
        ensures
            r@ == resolution_error_text(*self),
    {
        match self {
            ResolutionError::OwnInitializer { name } => String::from_str(
                "Cannot read local variable in its own initialization",
            ),
        }
    }
}

/// A variable whose initializer reads the variable itself: in any scope
/// but the global one, resolution fails at that read.
pub proof fn own_initializer_is_refused(b: Bindings, name: Token, read: Token, id: usize)
    requires
        b.error is None,
        b.scopes.len() > 0,
        read.lexeme@ == name.lexeme@,
    ensures
        resolve_stmt(b, Stmt::Var { name, initializer: Rc::new(Expr::Variable { name: read, id }) }).error == Some(
            ResolutionError::OwnInitializer { name: read },
        ),
{
    reveal_with_fuel(resolve_stmt, 2);
    reveal_with_fuel(resolve_expr, 2);
    let declared = note(b, name, false);
    assert(in_own_initializer(declared, read));
}

/// At global level the same declaration resolves without an error and
/// records nothing: the read is left to be looked up when it is evaluated.
pub proof fn own_initializer_is_left_to_the_evaluator(b: Bindings, name: Token, read: Token, id: usize)
    requires
        b.error is None,
        b.scopes.len() == 0,
    ensures
        resolve_stmt(b, Stmt::Var { name, initializer: Rc::new(Expr::Variable { name: read, id }) }) == b,
{
    reveal_with_fuel(resolve_stmt, 2);
    reveal_with_fuel(resolve_expr, 2);
}

/// A distance that is found leads to a scope that declares the name, and
/// no scope nearer than that one does.
pub proof fn distance_is_to_the_nearest_declaration(scopes: Seq<Map<Seq<char>, bool>>, name: Seq<char>, below: int)
    requires
        0 <= below <= scopes.len() <= usize::MAX,
    ensures
        match distance(scopes, name, below) {
            Some(d) => {
                &&& scopes.len() - below <= d < scopes.len()
                &&& scopes[scopes.len() - 1 - d].contains_key(name)
                &&& forall|i: int| scopes.len() - 1 - d < i < below ==> !(#[trigger] scopes[i]).contains_key(name)
            },
            None => forall|i: int| 0 <= i < below ==> !(#[trigger] scopes[i]).contains_key(name),
        },
    decreases below,
{
    if below > 0 && !scopes[below - 1].contains_key(name) {
        distance_is_to_the_nearest_declaration(scopes, name, below - 1);
    }
}

} // verus!
