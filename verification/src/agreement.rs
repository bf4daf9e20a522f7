//! The recorded binding distances and the frames: where every distance
//! is smaller than the number of scopes around its node, the frames that
//! the machine makes follow those scopes, every walk along enclosing
//! links ends at a frame, and no step fails for an inconsistency.

use vstd::prelude::*;
use std::rc::Rc;
use crate::environments::{
    Scope, acyclic, ancestor, assigned, bound, fresh, hold, releasable, released, target,
};
use crate::expr::{Applied, Evaluation, Expr, LiteralValue, RuntimeError, binary_result, concatenates, unary_result};
use crate::interpreter::{
    Kont, Machine, Mode, Request, bind, call, concatenating, declared, descend, evaluate, execute, fail,
    hand, popped, proceed, settle, step, steps, unwind,
};
use crate::list::List;
use crate::number::Number;
use crate::scanner::Token;
use crate::soundness::{
    distance_in, entry_sound, evaluation_in, grown, in_mode, inner, marked, sound, value_sound,
};
use crate::stmt::Stmt;

verus! {

/// The number of frames that enclose frame `frame`, one around the other.
pub open spec fn depth(scopes: Seq<Scope>, frame: usize) -> nat
    decreases frame,
{
    if frame < scopes.len() {
        match scopes[frame as int].enclosing {
            Some(parent) => if parent < frame {
                1 + depth(scopes, parent)
            } else {
                0
            },
            None => 0,
        }
    } else {
        0
    }
}

/// A walk that is no longer than the depth of the frame it starts at ends
/// at a frame.
pub proof fn walk_within_depth_ends(scopes: Seq<Scope>, frame: usize, distance: nat)
    requires
        acyclic(scopes),
        frame < scopes.len(),
        distance <= depth(scopes, frame),
    ensures
        ancestor(scopes, frame, distance) is Some,
    decreases distance,
{
    if distance > 0 {
        match scopes[frame as int].enclosing {
            Some(parent) => {
                walk_within_depth_ends(scopes, parent, (distance - 1) as nat);
            },
            None => {},
        }
    }
}

/// What resolution has left behind: the distances recorded, by node, and
/// a number that is larger than the identity of every node resolved so
/// far.
pub ghost struct Records {
    pub map: Map<usize, usize>,
    pub limit: nat,
}

/// The records of a machine, with the given limit.
pub open spec fn records(m: Machine, limit: nat) -> Records {
    Records { map: m.locals, limit }
}

/// Whether node `id` is among the nodes resolved so far, and the distance
/// recorded for it, if any, is smaller than the number `n` of scopes
/// around the node.
pub open spec fn recorded(locals: Records, id: usize, n: nat) -> bool {
    (id as nat) < locals.limit && (locals.map.contains_key(id) ==> locals.map[id] < n)
}

/// Whether the distances recorded for the nodes of `e` fit `n` scopes
/// around it. A literal holds no callable.
pub open spec fn fits_expr(e: Expr, n: nat, locals: Records) -> bool
    decreases e, 0nat,
{
    match e {
        Expr::Binary { left, operator, right } => fits_expr(*left, n, locals) && fits_expr(*right, n, locals),
        Expr::Logical { left, operator, right } => fits_expr(*left, n, locals) && fits_expr(*right, n, locals),
        Expr::Grouping { expression } => fits_expr(*expression, n, locals),
        Expr::Literal { literal } => !(literal is Callable),
        Expr::Unary { operator, right } => fits_expr(*right, n, locals),
        Expr::Variable { name, id } => recorded(locals, id, n),
        Expr::Assign { name, value, id } => recorded(locals, id, n) && fits_expr(*value, n, locals),
        Expr::Call { callee, paren, args } => fits_expr(*callee, n, locals) && fits_exprs(*args, n, locals),
        Expr::AnonFunc { paren, args, body } => fits_stmts(*body, n + 1, locals),
    }
}

/// Whether the distances recorded for the nodes of each expression of
/// `l` fit `n` scopes.
pub open spec fn fits_exprs(l: List<Rc<Expr>>, n: nat, locals: Records) -> bool
    decreases l, 0nat,
{
    match l {
        List::Nil => true,
        List::Cons { head, tail } => fits_expr(*head, n, locals) && fits_exprs(*tail, n, locals),
    }
}

/// Whether the distances recorded for the nodes of `s` fit `n` scopes
/// around it. A block and the body of a function lie one scope further
/// in.
pub open spec fn fits_stmt(s: Stmt, n: nat, locals: Records) -> bool
    decreases s, 0nat,
{
    match s {
        Stmt::Expression { expression } => fits_expr(*expression, n, locals),
        Stmt::Print { expression } => fits_expr(*expression, n, locals),
        Stmt::Var { name, initializer } => fits_expr(*initializer, n, locals),
        Stmt::Block { stmts } => fits_stmts(*stmts, n + 1, locals),
        Stmt::IfElse { predicate, then_branch, else_branch } => fits_expr(*predicate, n, locals) && fits_stmt(
            *then_branch,
            n,
            locals,
        ) && match else_branch {
            Some(s) => fits_stmt(*s, n, locals),
            None => true,
        },
        Stmt::WhileLoop { cond, body } => fits_expr(*cond, n, locals) && fits_stmt(*body, n, locals),
        Stmt::Function { name, params, body } => fits_stmts(*body, n + 1, locals),
        Stmt::Return { keyword, value } => match value {
            Some(e) => fits_expr(*e, n, locals),
            None => true,
        },
    }
}

/// Whether the distances recorded for the nodes of each statement of `l`
/// fit `n` scopes.
pub open spec fn fits_stmts(l: List<Rc<Stmt>>, n: nat, locals: Records) -> bool
    decreases l, 0nat,
{
    match l {
        List::Nil => true,
        List::Cons { head, tail } => fits_stmt(*head, n, locals) && fits_stmts(*tail, n, locals),
    }
}

/// Whether the body of a callable fits the frame that a call of it
/// makes: one scope inside the frame it was declared in.
pub open spec fn value_fits(scopes: Seq<Scope>, locals: Records, v: LiteralValue) -> bool {
    v matches LiteralValue::Callable { name, arity, fun } ==> fits_stmts(
        *fun.body,
        depth(scopes, fun.closure) + 1,
        locals,
    )
}

/// Whether what an entry of the pending work holds fits the frame it is
/// for.
pub open spec fn entry_fits(scopes: Seq<Scope>, locals: Records, k: Kont) -> bool {
    match k {
        Kont::BinaryLeft { operator, right, env } => fits_expr(*right, depth(scopes, env), locals),
        Kont::BinaryRight { operator, left } => value_fits(scopes, locals, left),
        Kont::Logical { operator, right, env } => fits_expr(*right, depth(scopes, env), locals),
        Kont::Assign { name, distance, env } => distance matches Some(d) ==> d < depth(scopes, env),
        Kont::Callee { paren, args, env } => fits_exprs(*args, depth(scopes, env), locals),
        Kont::Branch { then_branch, else_branch, env } => fits_stmt(*then_branch, depth(scopes, env), locals)
            && match else_branch {
            Some(s) => fits_stmt(*s, depth(scopes, env), locals),
            None => true,
        },
        Kont::Loop { cond, body, env } => fits_expr(*cond, depth(scopes, env), locals) && fits_stmt(
            *body,
            depth(scopes, env),
            locals,
        ),
        Kont::Repeat { cond, body, env } => fits_expr(*cond, depth(scopes, env), locals) && fits_stmt(
            *body,
            depth(scopes, env),
            locals,
        ),
        Kont::Arguments { params, args, frame, env } => fits_exprs(*args, depth(scopes, env), locals),
        Kont::Sequence { rest, env } => fits_stmts(*rest, depth(scopes, env), locals),
        _ => true,
    }
}

/// Whether what the mode holds fits the frame it is for.
pub open spec fn mode_fits(scopes: Seq<Scope>, locals: Records, mode: Mode) -> bool {
    match mode {
        Mode::Eval { expr, env } => fits_expr(*expr, depth(scopes, env), locals),
        Mode::Exec { stmt, env } => fits_stmt(*stmt, depth(scopes, env), locals),
        Mode::Value(v) => value_fits(scopes, locals, v),
        Mode::Return(v) => value_fits(scopes, locals, v),
        _ => true,
    }
}

/// Whether an entry of the pending work waits for a value; the others
/// wait for the work above them to be completed.
pub open spec fn wants_value(k: Kont) -> bool {
    match k {
        Kont::Arguments { .. } | Kont::Sequence { .. } | Kont::Repeat { .. } | Kont::Call | Kont::Leave { .. } => false,
        _ => true,
    }
}

/// What an entry hands to the entry below it when its work is done.
pub ghost enum Flow {
    /// A value.
    Value,
    /// Nothing but the news that it is done.
    Done,
    /// It never gets there: the work above it ends in a `return`.
    Nothing,
}

/// What an entry of the pending work hands down.
pub open spec fn gives(k: Kont) -> Flow {
    match k {
        Kont::Unary { .. } | Kont::BinaryLeft { .. } | Kont::BinaryRight { .. } | Kont::Logical { .. } | Kont::Assign {
            ..
        } | Kont::Callee { .. } | Kont::Call => Flow::Value,
        Kont::Return => Flow::Nothing,
        _ => Flow::Done,
    }
}

/// Whether the entry `below` can take what is handed down to it.
pub open spec fn takes(below: Kont, flow: Flow) -> bool {
    match flow {
        Flow::Value => wants_value(below),
        Flow::Done => !wants_value(below),
        Flow::Nothing => true,
    }
}

/// Each entry of the pending work hands down what the entry below it
/// waits for, and the lowest entry hands down no value.
pub open spec fn linked(kont: Seq<Kont>) -> bool {
    &&& forall|j: int| 1 <= j < kont.len() ==> takes(#[trigger] kont[j - 1], gives(kont[j]))
    &&& kont.len() > 0 ==> !(gives(kont[0]) is Value)
}

/// The mode hands to the top of the pending work what that entry waits
/// for.
pub open spec fn mode_linked(kont: Seq<Kont>, mode: Mode) -> bool {
    match mode {
        Mode::Exec { .. } | Mode::Done => kont.len() > 0 ==> !wants_value(kont.last()),
        Mode::Return(_) => true,
        _ => kont.len() > 0 && wants_value(kont.last()),
    }
}

/// Every value that a frame binds fits.
pub open spec fn bindings_fit(scopes: Seq<Scope>, locals: Records) -> bool {
    forall|i: int, name: Seq<char>|
        0 <= i < scopes.len() && scopes[i].bindings.contains_key(name) ==> value_fits(
            scopes,
            locals,
            #[trigger] scopes[i].bindings[name],
        )
}

/// Every entry of the pending work fits.
pub open spec fn entries_fit(scopes: Seq<Scope>, locals: Records, kont: Seq<Kont>) -> bool {
    forall|j: int| 0 <= j < kont.len() ==> entry_fits(scopes, locals, #[trigger] kont[j])
}

/// The recorded distances agree with the state: whatever the machine is
/// to evaluate or to execute fits the frame it is to do so in, and the
/// pending work is in order.
pub open spec fn agrees(m: Machine, limit: nat) -> bool {
    &&& mode_fits(m.scopes, records(m, limit), m.mode)
    &&& entries_fit(m.scopes, records(m, limit), m.kont)
    &&& bindings_fit(m.scopes, records(m, limit))
    &&& linked(m.kont)
    &&& mode_linked(m.kont, m.mode)
}

/// Whether a request reports no inconsistency.
pub open spec fn fine(request: Request) -> bool {
    !(request matches Request::Failed(RuntimeError::InternalInvariantViolation))
}

/// The depth of a frame is kept when the frames grow.
proof fn growth_keeps_depth(scopes: Seq<Scope>, after: Seq<Scope>, frame: usize)
    requires
        grown(scopes, after),
        frame < scopes.len(),
        acyclic(scopes),
    ensures
        depth(after, frame) == depth(scopes, frame),
    decreases frame,
{
    match scopes[frame as int].enclosing {
        Some(parent) => {
            assert(after[frame as int].enclosing == Some(parent));
            if parent < frame {
                growth_keeps_depth(scopes, after, parent);
            }
        },
        None => {
            assert(after[frame as int].enclosing is None);
        },
    }
}

/// The depth of a frame is kept when a newer frame is given up.
proof fn release_keeps_depth(scopes: Seq<Scope>, frame: usize)
    requires
        frame + 1 < scopes.len(),
        acyclic(scopes),
    ensures
        depth(scopes.drop_last(), frame) == depth(scopes, frame),
    decreases frame,
{
    match scopes[frame as int].enclosing {
        Some(parent) => {
            if parent < frame {
                release_keeps_depth(scopes, parent);
            }
        },
        None => {},
    }
}

/// A new frame lies one deeper than the frame that encloses it.
proof fn fresh_lies_deeper(scopes: Seq<Scope>, parent: usize)
    requires
        parent < scopes.len() < usize::MAX,
        acyclic(scopes),
    ensures
        depth(scopes.push(fresh(parent)), scopes.len() as usize) == depth(scopes, parent) + 1,
{
    let after = scopes.push(fresh(parent));
    assert(grown(scopes, after));
    growth_keeps_depth(scopes, after, parent);
    assert(after[scopes.len() as int].enclosing == Some(parent));
}

/// What fits an entry, the mode and a value is kept when the frames grow,
/// as far as the frames they name existed before.
proof fn growth_keeps_fit(m: Machine, after: Seq<Scope>, limit: nat)
    requires
        sound(m),
        agrees(m, limit),
        grown(m.scopes, after),
    ensures
        mode_fits(after, records(m, limit), m.mode),
        entries_fit(after, records(m, limit), m.kont),
        forall|i: int, name: Seq<char>|
            0 <= i < m.scopes.len() && m.scopes[i].bindings.contains_key(name) ==> value_fits(
                after,
                records(m, limit),
                #[trigger] m.scopes[i].bindings[name],
            ),
{
    let scopes = m.scopes;
    assert forall|f: usize| f < scopes.len() implies depth(after, f) == depth(scopes, f) by {
        growth_keeps_depth(scopes, after, f);
    }
    assert forall|j: int| 0 <= j < m.kont.len() implies entry_fits(after, records(m, limit), #[trigger] m.kont[j]) by {
        assert(entry_fits(scopes, records(m, limit), m.kont[j]));
        assert(entry_sound(scopes, m.kont, j));
    }
    assert forall|i: int, name: Seq<char>|
        0 <= i < scopes.len() && scopes[i].bindings.contains_key(name) implies value_fits(
        after,
        records(m, limit),
        #[trigger] scopes[i].bindings[name],
    ) by {
        assert(value_fits(scopes, records(m, limit), scopes[i].bindings[name]));
        assert(value_sound(scopes, scopes[i].bindings[name]));
    }
}

/// A value that fits and is sound fits the frames when they have grown.
proof fn growth_keeps_value_fit(scopes: Seq<Scope>, after: Seq<Scope>, locals: Records, v: LiteralValue)
    requires
        grown(scopes, after),
        acyclic(scopes),
        value_sound(scopes, v),
        value_fits(scopes, locals, v),
    ensures
        value_fits(after, locals, v),
{
    match v {
        LiteralValue::Callable { name, arity, fun } => {
            growth_keeps_depth(scopes, after, fun.closure);
        },
        _ => {},
    }
}

/// Taking hold of a frame keeps the agreement.
proof fn hold_agrees(m: Machine, at: usize, limit: nat)
    requires
        sound(m),
        agrees(m, limit),
    ensures
        agrees(Machine { mode: m.mode, kont: m.kont, scopes: hold(m.scopes, at), locals: m.locals }, limit),
{
    let after = hold(m.scopes, at);
    assert(grown(m.scopes, after));
    growth_keeps_fit(m, after, limit);
    assert forall|i: int, name: Seq<char>|
        0 <= i < after.len() && after[i].bindings.contains_key(name) implies value_fits(
        after,
        records(m, limit),
        #[trigger] after[i].bindings[name],
    ) by {
        assert(after[i].bindings == m.scopes[i].bindings);
        assert(value_fits(after, records(m, limit), m.scopes[i].bindings[name]));
    }
}

/// Binding a value that fits keeps the agreement.
proof fn bound_agrees(m: Machine, at: usize, name: Seq<char>, v: LiteralValue, limit: nat)
    requires
        sound(m),
        agrees(m, limit),
        at < m.scopes.len(),
        value_sound(m.scopes, v),
        value_fits(m.scopes, records(m, limit), v),
    ensures
        agrees(Machine { mode: m.mode, kont: m.kont, scopes: bound(m.scopes, at, name, v), locals: m.locals }, limit),
{
    let after = bound(m.scopes, at, name, v);
    assert(grown(m.scopes, after));
    growth_keeps_fit(m, after, limit);
    growth_keeps_value_fit(m.scopes, after, records(m, limit), v);
    assert forall|i: int, other: Seq<char>|
        0 <= i < after.len() && after[i].bindings.contains_key(other) implies value_fits(
        after,
        records(m, limit),
        #[trigger] after[i].bindings[other],
    ) by {
        if i == at && other == name {
        } else {
            assert(m.scopes[i].bindings.contains_key(other));
            assert(value_fits(after, records(m, limit), m.scopes[i].bindings[other]));
        }
    }
}

/// A new frame keeps the agreement.
proof fn fresh_agrees(m: Machine, parent: usize, limit: nat)
    requires
        sound(m),
        agrees(m, limit),
        parent < m.scopes.len(),
    ensures
        agrees(Machine { mode: m.mode, kont: m.kont, scopes: m.scopes.push(fresh(parent)), locals: m.locals }, limit),
{
    let after = m.scopes.push(fresh(parent));
    assert(grown(m.scopes, after));
    growth_keeps_fit(m, after, limit);
    assert forall|i: int, name: Seq<char>|
        0 <= i < after.len() && after[i].bindings.contains_key(name) implies value_fits(
        after,
        records(m, limit),
        #[trigger] after[i].bindings[name],
    ) by {
        if i < m.scopes.len() {
            assert(value_fits(after, records(m, limit), m.scopes[i].bindings[name]));
        }
    }
}

/// A failure leaves a state that agrees.
proof fn fail_agrees(m: Machine, error: RuntimeError, limit: nat)
    requires
        bindings_fit(m.scopes, records(m, limit)),
    ensures
        agrees(fail(m, error).0, limit),
{
}

/// The pending work without its top entry is in order, and what the top
/// entry hands down is what the entry below it waits for.
proof fn pop_keeps_links(kont: Seq<Kont>)
    requires
        linked(kont),
        kont.len() > 0,
    ensures
        linked(kont.drop_last()),
        kont.len() > 1 ==> takes(kont[kont.len() - 2], gives(kont.last())),
        kont.len() == 1 ==> !(gives(kont.last()) is Value),
{
    let rest = kont.drop_last();
    assert forall|j: int| 1 <= j < rest.len() implies takes(#[trigger] rest[j - 1], gives(rest[j])) by {
        assert(takes(kont[j - 1], gives(kont[j])));
    }
    if kont.len() > 1 {
        let top = kont.len() - 1;
        assert(takes(kont[top - 1], gives(kont[top])));
    }
}

/// Putting an entry on the pending work keeps it in order if the entry
/// hands down what the top waited for.
proof fn push_keeps_links(kont: Seq<Kont>, k: Kont)
    requires
        linked(kont),
        kont.len() > 0 ==> takes(kont.last(), gives(k)),
        kont.len() == 0 ==> !(gives(k) is Value),
    ensures
        linked(kont.push(k)),
{
    let pushed = kont.push(k);
    assert forall|j: int| 1 <= j < pushed.len() implies takes(#[trigger] pushed[j - 1], gives(pushed[j])) by {
        if j < kont.len() {
            assert(takes(kont[j - 1], gives(kont[j])));
        }
    }
}

/// Putting an entry that fits on the pending work keeps the entries
/// fitting.
proof fn push_keeps_fit(scopes: Seq<Scope>, locals: Records, kont: Seq<Kont>, k: Kont)
    requires
        entries_fit(scopes, locals, kont),
        entry_fits(scopes, locals, k),
    ensures
        entries_fit(scopes, locals, kont.push(k)),
{
    let pushed = kont.push(k);
    assert forall|j: int| 0 <= j < pushed.len() implies entry_fits(scopes, locals, #[trigger] pushed[j]) by {
        if j < kont.len() {
            assert(entry_fits(scopes, locals, kont[j]));
        }
    }
}

/// Taking the top entry off keeps the entries below fitting.
proof fn pop_keeps_fit(scopes: Seq<Scope>, locals: Records, kont: Seq<Kont>)
    requires
        entries_fit(scopes, locals, kont),
        kont.len() > 0,
    ensures
        entries_fit(scopes, locals, kont.drop_last()),
        entry_fits(scopes, locals, kont.last()),
{
    let rest = kont.drop_last();
    assert forall|j: int| 0 <= j < rest.len() implies entry_fits(scopes, locals, #[trigger] rest[j]) by {
        assert(entry_fits(scopes, locals, kont[j]));
    }
    assert(entry_fits(scopes, locals, kont[kont.len() - 1]));
}

/// Going on with an expression for which an entry waits keeps the
/// agreement.
proof fn descend_agrees(m: Machine, expr: Rc<Expr>, env: usize, k: Kont, limit: nat)
    requires
        agrees(in_mode(m, Mode::Done), limit) || (entries_fit(m.scopes, records(m, limit), m.kont) && bindings_fit(
            m.scopes,
            records(m, limit),
        ) && linked(m.kont)),
        fits_expr(*expr, depth(m.scopes, env), records(m, limit)),
        entry_fits(m.scopes, records(m, limit), k),
        wants_value(k),
        m.kont.len() > 0 ==> takes(m.kont.last(), gives(k)),
        m.kont.len() == 0 ==> !(gives(k) is Value),
    ensures
        agrees(descend(m, expr, env, k).0, limit),
{
    push_keeps_links(m.kont, k);
    push_keeps_fit(m.scopes, records(m, limit), m.kont, k);
}

/// Beginning the evaluation of an expression keeps the agreement and
/// meets no inconsistency.
pub proof fn evaluate_agrees(m: Machine, expr: Rc<Expr>, env: usize, limit: nat)
    requires
        sound(in_mode(m, Mode::Eval { expr, env })),
        agrees(in_mode(m, Mode::Eval { expr, env }), limit),
    ensures
        agrees(evaluate(m, expr, env).0, limit),
        fine(evaluate(m, expr, env).1),
{
    let scopes = m.scopes;
    let locals = records(m, limit);
    let kont = m.kont;
    let n = depth(scopes, env);
    let node = inner(expr);
    let idle = in_mode(m, Mode::Eval { expr, env });
    assert(fits_expr(node, n, locals));
    assert(kont.len() > 0 && wants_value(kont.last()));
    if node is Variable {
        let d = distance_in(m, expr);
        match d {
            Some(k) => {
                walk_within_depth_ends(scopes, env, k as nat);
            },
            None => {},
        }
    }
    match evaluation_in(m, expr, env) {
        Evaluation::Value(v) => {
            assert(value_fits(scopes, locals, v)) by {
                if node is Variable {
                    let d = distance_in(m, expr);
                    match d {
                        Some(k) => {
                            crate::environments::ancestor_in_range(scopes, env, k as nat);
                        },
                        None => {},
                    }
                    let t = target(scopes, env, d)->0;
                    let name = node->Variable_name;
                    assert(value_fits(scopes, locals, scopes[t as int].bindings[name.lexeme@]));
                }
            }
            match v {
                LiteralValue::Callable { name, arity, fun } => {
                    crate::soundness::evaluate_is_sound(m, expr, env);
                    assert(fun.closure < scopes.len());
                    hold_agrees(idle, fun.closure, limit);
                    assert(grown(scopes, hold(scopes, fun.closure)));
                    growth_keeps_depth(scopes, hold(scopes, fun.closure), fun.closure);
                },
                _ => {},
            }
        },
        Evaluation::Descend { next, then } => {
            match then {
                Some(k) => {
                    push_keeps_links(kont, k);
                    push_keeps_fit(scopes, locals, kont, k);
                },
                None => {},
            }
        },
        Evaluation::Failed(e) => {
            fail_agrees(m, e, limit);
        },
    }
}

/// Entering a new frame under `parent` for the statements `stmts`, above
/// an entry list that is in order, keeps the agreement.
proof fn enter_agrees(m: Machine, parent: usize, stmts: Rc<List<Rc<Stmt>>>, limit: nat)
    requires
        sound(in_mode(m, Mode::Done)),
        entries_fit(m.scopes, records(m, limit), m.kont),
        bindings_fit(m.scopes, records(m, limit)),
        linked(m.kont),
        m.kont.len() > 0 ==> !wants_value(m.kont.last()),
        parent < m.scopes.len() < usize::MAX,
        fits_stmts(*stmts, depth(m.scopes, parent) + 1, records(m, limit)),
    ensures
        agrees(
            Machine {
                mode: Mode::Done,
                kont: m.kont.push(Kont::Leave { frame: m.scopes.len() as usize }).push(
                    Kont::Sequence { rest: stmts, env: m.scopes.len() as usize },
                ),
                scopes: m.scopes.push(fresh(parent)),
                locals: m.locals,
            },
            limit,
        ),
{
    let frame = m.scopes.len() as usize;
    let after = m.scopes.push(fresh(parent));
    let idle = in_mode(m, Mode::Done);
    assert(agrees(idle, limit));
    fresh_agrees(idle, parent, limit);
    fresh_lies_deeper(m.scopes, parent);
    let marker = Kont::Leave { frame };
    let body = Kont::Sequence { rest: stmts, env: frame };
    push_keeps_links(m.kont, marker);
    push_keeps_fit(after, records(m, limit), m.kont, marker);
    let marked = m.kont.push(marker);
    push_keeps_links(marked, body);
    push_keeps_fit(after, records(m, limit), marked, body);
}

/// Beginning the execution of a statement keeps the agreement and meets
/// no inconsistency.
pub proof fn execute_agrees(m: Machine, stmt: Rc<Stmt>, env: usize, limit: nat)
    requires
        sound(in_mode(m, Mode::Exec { stmt, env })),
        agrees(in_mode(m, Mode::Exec { stmt, env }), limit),
        execute(m, stmt, env).0.scopes.len() <= usize::MAX,
    ensures
        agrees(execute(m, stmt, env).0, limit),
        fine(execute(m, stmt, env).1),
{
    let scopes = m.scopes;
    let locals = records(m, limit);
    let kont = m.kont;
    let n = depth(scopes, env);
    let st = inner(stmt);
    let idle = in_mode(m, Mode::Done);
    assert(fits_stmt(st, n, locals));
    assert(env < scopes.len());
    if st is Expression {
        descend_agrees(idle, st->Expression_expression, env, Kont::Discard, limit);
    } else if st is Print {
        descend_agrees(idle, st->Print_expression, env, Kont::Print, limit);
    } else if st is Var {
        descend_agrees(idle, st->initializer, env, Kont::Define { name: st->Var_name, env }, limit);
    } else if st is Block {
        enter_agrees(idle, env, st->stmts, limit);
    } else if st is IfElse {
        descend_agrees(
            idle,
            st->predicate,
            env,
            Kont::Branch { then_branch: st->then_branch, else_branch: st->else_branch, env },
            limit,
        );
    } else if st is WhileLoop {
        descend_agrees(idle, st->cond, env, Kont::Loop { cond: st->cond, body: st->WhileLoop_body, env }, limit);
    } else if st is Function {
        let name = st->Function_name;
        let made = declared(name, st->params, st->Function_body, env);
        assert(agrees(idle, limit));
        hold_agrees(idle, env, limit);
        let held = Machine { mode: Mode::Done, kont, scopes: hold(scopes, env), locals: m.locals };
        assert(grown(scopes, held.scopes));
        growth_keeps_depth(scopes, held.scopes, env);
        crate::soundness::hold_keeps_state_sound(idle, env);
        bound_agrees(held, env, name.lexeme@, made, limit);
    } else {
        match st->value {
            Some(e) => {
                descend_agrees(idle, e, env, Kont::Return, limit);
            },
            None => {},
        }
    }
}

/// Settling the outcome of an operator keeps the agreement and meets no
/// inconsistency.
proof fn settle_agrees(m: Machine, outcome: Applied, limit: nat)
    requires
        entries_fit(m.scopes, records(m, limit), m.kont),
        bindings_fit(m.scopes, records(m, limit)),
        linked(m.kont),
        m.kont.len() > 0 && wants_value(m.kont.last()),
        outcome matches Applied::Value(v) ==> !(v is Callable),
        !(outcome matches Applied::Failed(RuntimeError::InternalInvariantViolation)),
    ensures
        agrees(settle(m, outcome).0, limit),
        fine(settle(m, outcome).1),
{
}

/// An operator fails for its operands alone.
proof fn operators_are_consistent(operator: Token, left: LiteralValue, right: LiteralValue)
    ensures
        !(unary_result(operator, right) matches Applied::Failed(RuntimeError::InternalInvariantViolation)),
        !(binary_result(left, operator, right) matches Applied::Failed(RuntimeError::InternalInvariantViolation)),
        unary_result(operator, right) matches Applied::Value(v) ==> !(v is Callable),
        binary_result(left, operator, right) matches Applied::Value(v) ==> !(v is Callable),
{
}

/// Binding a value in a frame that exists keeps the agreement and meets
/// no inconsistency.
proof fn bind_agrees(m: Machine, name: Token, frame: usize, v: LiteralValue, limit: nat)
    requires
        sound(in_mode(m, Mode::Done)),
        agrees(in_mode(m, Mode::Done), limit),
        frame < m.scopes.len(),
        value_sound(m.scopes, v),
        value_fits(m.scopes, records(m, limit), v),
    ensures
        agrees(bind(m, name, frame, v).0, limit),
        fine(bind(m, name, frame, v).1),
{
    bound_agrees(in_mode(m, Mode::Done), frame, name.lexeme@, v, limit);
}

/// Calling a value keeps the agreement and meets no inconsistency.
proof fn call_agrees(m: Machine, callee: LiteralValue, args: Rc<List<Rc<Expr>>>, env: usize, limit: nat)
    requires
        sound(in_mode(m, Mode::Done)),
        entries_fit(m.scopes, records(m, limit), m.kont),
        bindings_fit(m.scopes, records(m, limit)),
        linked(m.kont),
        m.kont.len() > 0 && wants_value(m.kont.last()),
        value_sound(m.scopes, callee),
        value_fits(m.scopes, records(m, limit), callee),
        env < m.scopes.len(),
        fits_exprs(*args, depth(m.scopes, env), records(m, limit)),
        call(m, callee, args, env).0.scopes.len() <= usize::MAX,
    ensures
        agrees(call(m, callee, args, env).0, limit),
        fine(call(m, callee, args, env).1),
{
    match callee {
        LiteralValue::Callable { name, arity, fun } => {
            if crate::expr::clip(args.seq().len()) == arity {
                let code = inner(fun);
                let frame = m.scopes.len() as usize;
                let bounded = Machine {
                    mode: Mode::Done,
                    kont: m.kont.push(Kont::Call),
                    scopes: m.scopes,
                    locals: m.locals,
                };
                push_keeps_links(m.kont, Kont::Call);
                push_keeps_fit(m.scopes, records(m, limit), m.kont, Kont::Call);
                crate::soundness::boundary_is_sound(in_mode(m, Mode::Done));
                enter_agrees(bounded, code.closure, code.body, limit);
                let after = m.scopes.push(fresh(code.closure));
                let entered = bounded.kont.push(Kont::Leave { frame }).push(Kont::Sequence { rest: code.body, env: frame });
                let arguments = Kont::Arguments { params: code.params, args, frame, env };
                assert(grown(m.scopes, after));
                growth_keeps_depth(m.scopes, after, env);
                push_keeps_links(entered, arguments);
                push_keeps_fit(after, records(m, limit), entered, arguments);
            }
        },
        _ => {},
    }
}

/// Handing a value to the entry that waited for it keeps the agreement
/// and meets no inconsistency.
pub proof fn hand_agrees(m: Machine, k: Kont, v: LiteralValue, limit: nat)
    requires
        sound(Machine { mode: Mode::Value(v), kont: m.kont.push(k), scopes: m.scopes, locals: m.locals }),
        agrees(Machine { mode: Mode::Value(v), kont: m.kont.push(k), scopes: m.scopes, locals: m.locals }, limit),
        !(k matches Kont::BinaryRight { operator, left } && concatenates(left, operator, v)),
        hand(m, k, v).0.scopes.len() <= usize::MAX,
    ensures
        agrees(hand(m, k, v).0, limit),
        fine(hand(m, k, v).1),
{
    let scopes = m.scopes;
    let locals = records(m, limit);
    let full = m.kont.push(k);
    let top = m.kont.len() as int;
    assert(full.drop_last() =~= m.kont);
    assert(full[top] == k);
    assert(full.last() == k);
    pop_keeps_links(full);
    pop_keeps_fit(scopes, locals, full);
    crate::soundness::below_is_sound(m, k, v);
    assert(wants_value(k));
    if m.kont.len() > 0 {
        assert(full[full.len() - 2] == m.kont.last());
    }
    let idle = in_mode(m, Mode::Done);
    match k {
        Kont::Unary { operator } => {
            operators_are_consistent(operator, v, v);
            settle_agrees(m, unary_result(operator, v), limit);
        },
        Kont::BinaryLeft { operator, right, env } => {
            descend_agrees(idle, right, env, Kont::BinaryRight { operator, left: v }, limit);
        },
        Kont::BinaryRight { operator, left } => {
            operators_are_consistent(operator, left, v);
            settle_agrees(m, binary_result(left, operator, v), limit);
        },
        Kont::Logical { operator, right, env } => {},
        Kont::Assign { name, distance, env } => {
            match distance {
                Some(d) => {
                    walk_within_depth_ends(scopes, env, d as nat);
                    crate::environments::ancestor_in_range(scopes, env, d as nat);
                },
                None => {},
            }
            match assigned(scopes, env, name.lexeme@, distance) {
                Ok(true) => {
                    let t = target(scopes, env, distance)->0;
                    let holding = in_mode(m, Mode::Value(v));
                    assert(sound(holding));
                    assert(agrees(holding, limit));
                    bound_agrees(holding, t, name.lexeme@, v, limit);
                },
                Ok(false) => {
                    fail_agrees(m, RuntimeError::UndeclaredVariable { name }, limit);
                },
                Err(_) => {},
            }
        },
        Kont::Callee { paren, args, env } => {
            call_agrees(m, v, args, env, limit);
        },
        Kont::Bind { name, frame } => {
            bind_agrees(m, name, frame, v, limit);
        },
        Kont::Define { name, env } => {
            bind_agrees(m, name, env, v, limit);
        },
        Kont::Loop { cond, body, env } => {
            let again = Kont::Repeat { cond, body, env };
            push_keeps_links(m.kont, again);
            push_keeps_fit(scopes, locals, m.kont, again);
        },
        _ => {},
    }
}

/// Leaving the block or call whose end is on top of the pending work
/// keeps the agreement.
proof fn release_agrees(m: Machine, frame: usize, limit: nat)
    requires
        sound(m),
        agrees(m, limit),
        m.mode is Done || m.mode is Return,
        m.kont.len() > 0,
        m.kont.last() == (Kont::Leave { frame }),
    ensures
        agrees(Machine { mode: m.mode, kont: m.kont.drop_last(), scopes: released(m.scopes, frame), locals: m.locals }, limit),
{
    let scopes = m.scopes;
    let locals = records(m, limit);
    let rest = m.kont.drop_last();
    pop_keeps_links(m.kont);
    pop_keeps_fit(scopes, locals, m.kont);
    if m.kont.len() > 1 {
        assert(m.kont[m.kont.len() - 2] == rest.last());
    }
    if releasable(scopes, frame) {
        let after = scopes.drop_last();
        crate::soundness::release_keeps_state_sound(m, frame);
        let left = Machine { mode: m.mode, kont: rest, scopes: after, locals: m.locals };
        assert(sound(left));
        assert forall|f: usize| f < after.len() implies depth(after, f) == depth(scopes, f) by {
            release_keeps_depth(scopes, f);
        }
        assert forall|j: int| 0 <= j < rest.len() implies entry_fits(after, locals, #[trigger] rest[j]) by {
            assert(entry_fits(scopes, locals, rest[j]));
            assert(entry_sound(after, rest, j));
        }
        assert forall|i: int, name: Seq<char>|
            0 <= i < after.len() && after[i].bindings.contains_key(name) implies value_fits(
            after,
            locals,
            #[trigger] after[i].bindings[name],
        ) by {
            assert(value_fits(scopes, locals, scopes[i].bindings[name]));
            assert(value_sound(after, after[i].bindings[name]));
        }
    }
}

/// Going on after completed work keeps the agreement and meets no
/// inconsistency.
pub proof fn proceed_agrees(m: Machine, limit: nat)
    requires
        sound(in_mode(m, Mode::Done)),
        agrees(in_mode(m, Mode::Done), limit),
    ensures
        agrees(proceed(m).0, limit),
        fine(proceed(m).1),
{
    let scopes = m.scopes;
    let locals = records(m, limit);
    let idle = in_mode(m, Mode::Done);
    if m.kont.len() > 0 {
        let top = m.kont.len() - 1;
        let rest = m.kont.drop_last();
        pop_keeps_links(m.kont);
        pop_keeps_fit(scopes, locals, m.kont);
        assert(entry_sound(scopes, m.kont, top));
        if m.kont.len() > 1 {
            assert(m.kont[m.kont.len() - 2] == rest.last());
        }
        let below = Machine { mode: Mode::Done, kont: rest, scopes, locals: m.locals };
        match m.kont.last() {
            Kont::Sequence { rest: stmts, env } => {
                let list = inner(stmts);
                if list is Cons {
                    let more = Kont::Sequence { rest: list->tail, env };
                    push_keeps_links(rest, more);
                    push_keeps_fit(scopes, locals, rest, more);
                }
            },
            Kont::Arguments { params, args, frame, env } => {
                let names = inner(params);
                let values = inner(args);
                if names is Cons && values is Cons {
                    let more = Kont::Arguments { params: names->tail, args: values->tail, frame, env };
                    push_keeps_links(rest, more);
                    push_keeps_fit(scopes, locals, rest, more);
                    let with_more = rest.push(more);
                    let bind = Kont::Bind { name: names->head, frame };
                    push_keeps_links(with_more, bind);
                    push_keeps_fit(scopes, locals, with_more, bind);
                }
            },
            Kont::Repeat { cond, body, env } => {
                descend_agrees(below, cond, env, Kont::Loop { cond, body, env }, limit);
            },
            Kont::Leave { frame } => {
                release_agrees(idle, frame, limit);
            },
            _ => {},
        }
    }
}

/// Carrying a returned value one entry further keeps the agreement.
pub proof fn unwind_agrees(m: Machine, v: LiteralValue, limit: nat)
    requires
        sound(in_mode(m, Mode::Return(v))),
        agrees(in_mode(m, Mode::Return(v)), limit),
    ensures
        agrees(unwind(m, v).0, limit),
        fine(unwind(m, v).1),
{
    if m.kont.len() > 0 {
        let rest = m.kont.drop_last();
        pop_keeps_links(m.kont);
        pop_keeps_fit(m.scopes, records(m, limit), m.kont);
        if m.kont.len() > 1 {
            assert(m.kont[m.kont.len() - 2] == rest.last());
        }
        match m.kont.last() {
            Kont::Leave { frame } => {
                release_agrees(in_mode(m, Mode::Return(v)), frame, limit);
                crate::soundness::release_keeps_state_sound(in_mode(m, Mode::Return(v)), frame);
                if releasable(m.scopes, frame) {
                    match v {
                        LiteralValue::Callable { name, arity, fun } => {
                            release_keeps_depth(m.scopes, fun.closure);
                        },
                        _ => {},
                    }
                }
            },
            _ => {},
        }
    }
}

/// Where the recorded distances agree with a sound state, a step keeps
/// them in agreement and meets no inconsistency: every walk along
/// enclosing links ends at a frame, and the pending work is met in the
/// order in which it was put down.
pub proof fn step_agrees(m: Machine, reply: Option<Number>, post: Machine, request: Request, limit: nat)
    requires
        sound(m),
        agrees(m, limit),
        steps(m, reply, post, request),
        post.scopes.len() <= usize::MAX,
    ensures
        agrees(post, limit),
        fine(request),
{
    if concatenating(m) {
        pop_keeps_links(m.kont);
        pop_keeps_fit(m.scopes, records(m, limit), m.kont);
        if m.kont.len() > 1 {
            assert(m.kont[m.kont.len() - 2] == m.kont.drop_last().last());
        }
    } else {
        match m.mode {
            Mode::Eval { expr, env } => {
                evaluate_agrees(m, expr, env, limit);
            },
            Mode::Exec { stmt, env } => {
                execute_agrees(m, stmt, env, limit);
            },
            Mode::Value(v) => {
                assert(popped(m).kont.push(m.kont.last()) =~= m.kont);
                hand_agrees(popped(m), m.kont.last(), v, limit);
            },
            Mode::Done => {
                proceed_agrees(m, limit);
            },
            Mode::Return(v) => {
                unwind_agrees(m, v, limit);
            },
            _ => {},
        }
    }
}

/// The records agree with the state of a new machine.
pub proof fn new_machine_agrees(locals: Map<usize, usize>, limit: nat)
    ensures
        agrees(
            Machine {
                mode: Mode::Done,
                kont: Seq::empty(),
                scopes: seq![crate::environments::global_scope()],
                locals,
            },
            limit,
        ),
{
    let scopes = seq![crate::environments::global_scope()];
    let m = Machine { mode: Mode::Done, kont: Seq::empty(), scopes, locals };
    assert forall|i: int, name: Seq<char>|
        0 <= i < scopes.len() && scopes[i].bindings.contains_key(name) implies value_fits(
        scopes,
        records(m, limit),
        #[trigger] scopes[i].bindings[name],
    ) by {
        assert(name == "clock"@);
    }
}

} // verus!
