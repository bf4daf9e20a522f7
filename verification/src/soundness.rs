//! What holds of every state that the machine reaches: each frame that
//! anything in the machine names exists, and a frame is only given up
//! when nothing names it any more.

use vstd::prelude::*;
use std::rc::Rc;
use crate::environments::{
    Scope, acyclic, after_assign, ancestor_in_range, assigned, bound, fresh, hold, releasable, released,
    target,
};
use crate::expr::{
    Applied, Evaluation, Expr, LiteralValue, RuntimeError, binary_result, concatenates, evaluation, unary_result,
};
use crate::interpreter::{
    Kont, Machine, Mode, Request, bind, call, concatenating, declared, descend, distance_of, evaluate,
    execute, fail, hand, handles, keep, loaded, popped, proceed, settle, step, steps, unwind,
};
use crate::list::List;
use crate::number::Number;
use crate::scanner::Token;
use crate::stmt::Stmt;

verus! {

/// A callable names a frame that exists and that is held for it.
pub open spec fn value_sound(scopes: Seq<Scope>, v: LiteralValue) -> bool {
    v matches LiteralValue::Callable { name, arity, fun } ==> fun.closure < scopes.len() && scopes[fun.closure as int].held
}

/// Whether the end of the block or call that made frame `frame` waits
/// below position `below` of the pending work.
pub open spec fn marked(kont: Seq<Kont>, below: int, frame: usize) -> bool {
    exists|i: int| 0 <= i < below && i < kont.len() && #[trigger] kont[i] == (Kont::Leave { frame })
}

/// A frame named at position `below` of the pending work exists, and is
/// either held or still to be left further down.
pub open spec fn frame_sound(scopes: Seq<Scope>, kont: Seq<Kont>, below: int, frame: usize) -> bool {
    frame < scopes.len() && (scopes[frame as int].held || marked(kont, below, frame))
}

/// What entry `j` of the pending work names is sound.
pub open spec fn entry_sound(scopes: Seq<Scope>, kont: Seq<Kont>, j: int) -> bool {
    match kont[j] {
        Kont::BinaryLeft { operator, right, env } => frame_sound(scopes, kont, j, env),
        Kont::BinaryRight { operator, left } => value_sound(scopes, left),
        Kont::Logical { operator, right, env } => frame_sound(scopes, kont, j, env),
        Kont::Assign { name, distance, env } => frame_sound(scopes, kont, j, env),
        Kont::Callee { paren, args, env } => frame_sound(scopes, kont, j, env),
        Kont::Bind { name, frame } => frame_sound(scopes, kont, j, frame),
        Kont::Define { name, env } => frame_sound(scopes, kont, j, env),
        Kont::Branch { then_branch, else_branch, env } => frame_sound(scopes, kont, j, env),
        Kont::Loop { cond, body, env } => frame_sound(scopes, kont, j, env),
        Kont::Arguments { params, args, frame, env } => frame_sound(scopes, kont, j, frame) && frame_sound(
            scopes,
            kont,
            j,
            env,
        ),
        Kont::Sequence { rest, env } => frame_sound(scopes, kont, j, env),
        Kont::Repeat { cond, body, env } => frame_sound(scopes, kont, j, env),
        Kont::Leave { frame } => 1 <= frame < scopes.len(),
        _ => true,
    }
}

/// The frames that are still to be left were made in the order in which
/// they wait: a frame further up is newer.
pub open spec fn markers_rise(kont: Seq<Kont>) -> bool {
    forall|i: int, j: int|
        0 <= i < j < kont.len() && (#[trigger] kont[i]) is Leave && (#[trigger] kont[j]) is Leave ==> kont[i]->Leave_frame
            < kont[j]->Leave_frame
}

/// What the mode names is sound.
pub open spec fn mode_sound(scopes: Seq<Scope>, kont: Seq<Kont>, mode: Mode) -> bool {
    match mode {
        Mode::Eval { expr, env } => frame_sound(scopes, kont, kont.len() as int, env),
        Mode::Exec { stmt, env } => frame_sound(scopes, kont, kont.len() as int, env),
        Mode::Value(v) => value_sound(scopes, v),
        Mode::Return(v) => value_sound(scopes, v),
        _ => true,
    }
}

/// Every value that a frame binds is sound.
pub open spec fn bindings_sound(scopes: Seq<Scope>) -> bool {
    forall|i: int, name: Seq<char>|
        0 <= i < scopes.len() && scopes[i].bindings.contains_key(name) ==> value_sound(
            scopes,
            #[trigger] scopes[i].bindings[name],
        )
}

/// Every entry of the pending work is sound.
pub open spec fn entries_sound(scopes: Seq<Scope>, kont: Seq<Kont>) -> bool {
    forall|j: int| 0 <= j < kont.len() ==> #[trigger] entry_sound(scopes, kont, j)
}

/// The state is sound: no frame encloses itself; the global frame is
/// held; and every frame that the mode, the pending work or a bound
/// value names exists and is held or still to be left.
pub open spec fn sound(m: Machine) -> bool {
    &&& acyclic(m.scopes)
    &&& m.scopes.len() <= usize::MAX
    &&& m.scopes[0].held
    &&& mode_sound(m.scopes, m.kont, m.mode)
    &&& entries_sound(m.scopes, m.kont)
    &&& markers_rise(m.kont)
    &&& bindings_sound(m.scopes)
}

/// The machine in another mode.
pub open spec fn in_mode(m: Machine, mode: Mode) -> Machine {
    Machine { mode, kont: m.kont, scopes: m.scopes, locals: m.locals }
}

/// Whether `after` holds every frame of `before`, each with its enclosing
/// link and held if it was.
pub open spec fn grown(before: Seq<Scope>, after: Seq<Scope>) -> bool {
    &&& before.len() <= after.len()
    &&& forall|i: int|
        0 <= i < before.len() ==> (#[trigger] after[i]).enclosing == before[i].enclosing && (before[i].held
            ==> after[i].held)
}

/// Soundness of what the mode and the pending work name is kept when the
/// frames grow.
proof fn growth_keeps_names(scopes: Seq<Scope>, after: Seq<Scope>, kont: Seq<Kont>, mode: Mode)
    requires
        grown(scopes, after),
        entries_sound(scopes, kont),
        mode_sound(scopes, kont, mode),
    ensures
        entries_sound(after, kont),
        mode_sound(after, kont, mode),
{
    assert forall|j: int| 0 <= j < kont.len() implies #[trigger] entry_sound(after, kont, j) by {
        assert(entry_sound(scopes, kont, j));
    }
}

/// Soundness of a value is kept when the frames grow.
proof fn growth_keeps_value(scopes: Seq<Scope>, after: Seq<Scope>, v: LiteralValue)
    requires
        grown(scopes, after),
        value_sound(scopes, v),
    ensures
        value_sound(after, v),
{
}

/// Putting an entry on the pending work keeps the entries below sound.
proof fn push_keeps_entries(scopes: Seq<Scope>, kont: Seq<Kont>, k: Kont)
    requires
        entries_sound(scopes, kont),
        entry_sound(scopes, kont.push(k), kont.len() as int),
    ensures
        entries_sound(scopes, kont.push(k)),
{
    let pushed = kont.push(k);
    assert forall|j: int| 0 <= j < pushed.len() implies #[trigger] entry_sound(scopes, pushed, j) by {
        if j < kont.len() {
            assert(entry_sound(scopes, kont, j));
            assert(pushed[j] == kont[j]);
            assert forall|f: usize| marked(kont, j, f) implies marked(pushed, j, f) by {
                let i = choose|i: int| 0 <= i < j && i < kont.len() && #[trigger] kont[i] == (Kont::Leave { frame: f });
                assert(pushed[i] == (Kont::Leave { frame: f }));
            }
        }
    }
}

/// A frame that is sound at some position is sound at every position
/// further up, whatever is put there.
proof fn frame_sound_further_up(scopes: Seq<Scope>, kont: Seq<Kont>, below: int, frame: usize, k: Kont)
    requires
        frame_sound(scopes, kont, below, frame),
        below <= kont.len(),
    ensures
        frame_sound(scopes, kont.push(k), below, frame),
        frame_sound(scopes, kont.push(k), kont.len() as int, frame),
        frame_sound(scopes, kont.push(k), (kont.len() + 1) as int, frame),
        frame_sound(scopes, kont, kont.len() as int, frame),
{
    if !scopes[frame as int].held {
        let i = choose|i: int| 0 <= i < below && i < kont.len() && #[trigger] kont[i] == (Kont::Leave { frame });
        assert(kont.push(k)[i] == (Kont::Leave { frame }));
    }
}

/// Taking the top entry off the pending work keeps the entries below
/// sound.
proof fn pop_keeps_entries(scopes: Seq<Scope>, kont: Seq<Kont>)
    requires
        entries_sound(scopes, kont),
        markers_rise(kont),
        kont.len() > 0,
    ensures
        entries_sound(scopes, kont.drop_last()),
        markers_rise(kont.drop_last()),
{
    let rest = kont.drop_last();
    assert forall|j: int| 0 <= j < rest.len() implies #[trigger] entry_sound(scopes, rest, j) by {
        assert(entry_sound(scopes, kont, j));
        assert(rest[j] == kont[j]);
        assert forall|f: usize| marked(kont, j, f) implies marked(rest, j, f) by {
            let i = choose|i: int| 0 <= i < j && i < kont.len() && #[trigger] kont[i] == (Kont::Leave { frame: f });
            assert(rest[i] == (Kont::Leave { frame: f }));
        }
    }
    assert forall|i: int, j: int|
        0 <= i < j < rest.len() && (#[trigger] rest[i]) is Leave && (#[trigger] rest[j]) is Leave implies rest[i]->Leave_frame
            < rest[j]->Leave_frame by {
        assert(kont[i] == rest[i]);
        assert(kont[j] == rest[j]);
    }
}

/// A frame that the top entry names stays sound for the mode when the
/// entry is taken off.
proof fn frame_of_top_stays_sound(scopes: Seq<Scope>, kont: Seq<Kont>, frame: usize)
    requires
        kont.len() > 0,
        frame_sound(scopes, kont, kont.len() - 1, frame),
    ensures
        frame_sound(scopes, kont.drop_last(), kont.len() - 1, frame),
{
    if !scopes[frame as int].held {
        let i = choose|i: int|
            0 <= i < kont.len() - 1 && i < kont.len() && #[trigger] kont[i] == (Kont::Leave { frame });
        assert(kont.drop_last()[i] == (Kont::Leave { frame }));
    }
}

/// A sound state stays sound when its frames are replaced by frames that
/// have grown from them and are sound in themselves.
proof fn change_of_frames_is_sound(m: Machine, after: Seq<Scope>)
    requires
        sound(m),
        after.len() <= usize::MAX,
        grown(m.scopes, after),
        acyclic(after),
        bindings_sound(after),
    ensures
        sound(Machine { mode: m.mode, kont: m.kont, scopes: after, locals: m.locals }),
{
    growth_keeps_names(m.scopes, after, m.kont, m.mode);
}

/// Taking hold of a frame keeps the frames sound.
proof fn hold_is_sound(scopes: Seq<Scope>, at: usize)
    requires
        acyclic(scopes),
        bindings_sound(scopes),
    ensures
        grown(scopes, hold(scopes, at)),
        acyclic(hold(scopes, at)),
        bindings_sound(hold(scopes, at)),
        at < scopes.len() ==> hold(scopes, at)[at as int].held,
{
    let after = hold(scopes, at);
    assert forall|i: int, name: Seq<char>|
        0 <= i < after.len() && after[i].bindings.contains_key(name) implies value_sound(
        after,
        #[trigger] after[i].bindings[name],
    ) by {
        assert(value_sound(scopes, scopes[i].bindings[name]));
    }
}

/// Binding a sound value in a frame keeps the frames sound.
proof fn bound_is_sound(scopes: Seq<Scope>, at: usize, name: Seq<char>, v: LiteralValue)
    requires
        acyclic(scopes),
        bindings_sound(scopes),
        at < scopes.len(),
        value_sound(scopes, v),
    ensures
        grown(scopes, bound(scopes, at, name, v)),
        acyclic(bound(scopes, at, name, v)),
        bindings_sound(bound(scopes, at, name, v)),
{
    let after = bound(scopes, at, name, v);
    assert forall|i: int, other: Seq<char>|
        0 <= i < after.len() && after[i].bindings.contains_key(other) implies value_sound(
        after,
        #[trigger] after[i].bindings[other],
    ) by {
        if i == at && other == name {
        } else {
            assert(scopes[i].bindings.contains_key(other));
            assert(value_sound(scopes, scopes[i].bindings[other]));
        }
    }
}

/// A new frame under an existing one keeps the frames sound.
proof fn fresh_is_sound(scopes: Seq<Scope>, parent: usize)
    requires
        acyclic(scopes),
        bindings_sound(scopes),
        parent < scopes.len(),
    ensures
        grown(scopes, scopes.push(fresh(parent))),
        acyclic(scopes.push(fresh(parent))),
        bindings_sound(scopes.push(fresh(parent))),
{
    let after = scopes.push(fresh(parent));
    assert forall|i: int, name: Seq<char>|
        0 <= i < after.len() && after[i].bindings.contains_key(name) implies value_sound(
        after,
        #[trigger] after[i].bindings[name],
    ) by {
        if i < scopes.len() {
            assert(value_sound(scopes, scopes[i].bindings[name]));
        }
    }
}

/// A failure leaves a sound state.
pub proof fn fail_is_sound(m: Machine, error: RuntimeError)
    requires
        sound(m),
    ensures
        sound(fail(m, error).0),
{
}

/// Leaving the block or call whose end is on top of the pending work
/// keeps the state sound: where the frame is given up, nothing names it
/// any more.
proof fn release_is_sound(m: Machine, frame: usize)
    requires
        sound(m),
        m.mode is Done || m.mode is Return,
        m.kont.len() > 0,
        m.kont.last() == (Kont::Leave { frame }),
    ensures
        sound(Machine { mode: m.mode, kont: m.kont.drop_last(), scopes: released(m.scopes, frame), locals: m.locals }),
{
    let kont = m.kont;
    let rest = kont.drop_last();
    let scopes = m.scopes;
    let top = kont.len() - 1;
    pop_keeps_entries(scopes, kont);
    assert(entry_sound(scopes, kont, top));
    if releasable(scopes, frame) {
        let after = scopes.drop_last();
        // nothing that is held is the frame given up, and every frame that
        // is still to be left further down is older than it
        assert forall|j: int, e: usize| 0 <= j < rest.len() && frame_sound(scopes, kont, j, e) implies frame_sound(
            after,
            rest,
            j,
            e,
        ) by {
            if !scopes[e as int].held {
                let i = choose|i: int| 0 <= i < j && i < kont.len() && #[trigger] kont[i] == (Kont::Leave { frame: e });
                assert(kont[i] is Leave && kont[top] is Leave);
                assert(kont[i]->Leave_frame < kont[top]->Leave_frame);
                assert(rest[i] == (Kont::Leave { frame: e }));
            }
        }
        assert forall|j: int| 0 <= j < rest.len() implies #[trigger] entry_sound(after, rest, j) by {
            assert(entry_sound(scopes, kont, j));
            assert(rest[j] == kont[j]);
            match kont[j] {
                Kont::Leave { frame: g } => {
                    assert(kont[j] is Leave && kont[top] is Leave);
                    assert(kont[j]->Leave_frame < kont[top]->Leave_frame);
                },
                _ => {},
            }
        }
        assert forall|i: int, name: Seq<char>|
            0 <= i < after.len() && after[i].bindings.contains_key(name) implies value_sound(
            after,
            #[trigger] after[i].bindings[name],
        ) by {
            assert(value_sound(scopes, scopes[i].bindings[name]));
        }
    }
}

/// What an operator makes of values is no callable.
proof fn operators_make_no_callable(operator: Token, left: LiteralValue, right: LiteralValue)
    ensures
        unary_result(operator, right) matches Applied::Value(v) ==> !(v is Callable),
        binary_result(left, operator, right) matches Applied::Value(v) ==> !(v is Callable),
{
}

/// Settling the outcome of an operator keeps the state sound.
proof fn settle_is_sound(m: Machine, outcome: Applied)
    requires
        sound(in_mode(m, Mode::Done)),
        outcome matches Applied::Value(v) ==> !(v is Callable),
    ensures
        sound(settle(m, outcome).0),
{
}

/// What evaluating the node `expr` in frame `env` of `m` comes to.
pub open spec fn evaluation_in(m: Machine, expr: Rc<Expr>, env: usize) -> Evaluation {
    evaluation(*expr, env, distance_of(m.locals, *expr), m.scopes)
}

/// The binding distance recorded in `m` for the node `expr`.
pub open spec fn distance_in(m: Machine, expr: Rc<Expr>) -> Option<usize> {
    distance_of(m.locals, *expr)
}

/// Beginning the evaluation of an expression keeps the state sound.
pub proof fn evaluate_is_sound(m: Machine, expr: Rc<Expr>, env: usize)
    requires
        sound(in_mode(m, Mode::Eval { expr, env })),
    ensures
        sound(evaluate(m, expr, env).0),
{
    let scopes = m.scopes;
    let kont = m.kont;
    match evaluation_in(m, expr, env) {
        Evaluation::Value(v) => {
            assert(v is Callable ==> v->Callable_fun.closure < scopes.len()) by {
                let node = inner(expr);
                if node is Variable {
                    let name = node->Variable_name;
                    let d = distance_in(m, expr);
                    match d {
                        Some(n) => {
                            ancestor_in_range(scopes, env, n as nat);
                        },
                        None => {},
                    }
                    let t = target(scopes, env, d)->0;
                    assert(value_sound(scopes, scopes[t as int].bindings[name.lexeme@]));
                }
            }
            match v {
                LiteralValue::Callable { name, arity, fun } => {
                    hold_is_sound(scopes, fun.closure);
                    change_of_frames_is_sound(in_mode(m, Mode::Done), keep(scopes, v));
                },
                _ => {},
            }
        },
        Evaluation::Descend { next, then } => {
            match then {
                Some(k) => {
                    frame_sound_further_up(scopes, kont, kont.len() as int, env, k);
                    assert(entry_sound(scopes, kont.push(k), kont.len() as int));
                    push_keeps_entries(scopes, kont, k);
                    assert(!(k is Leave));
                    assert(markers_rise(kont.push(k))) by {
                        let pushed = kont.push(k);
                        assert forall|i: int, j: int|
                            0 <= i < j < pushed.len() && (#[trigger] pushed[i]) is Leave && (
                            #[trigger] pushed[j]) is Leave implies pushed[i]->Leave_frame
                            < pushed[j]->Leave_frame by {
                            assert(pushed[i] == kont[i]);
                            assert(pushed[j] == kont[j]);
                        }
                    }
                },
                None => {},
            }
        },
        Evaluation::Failed(e) => {
            fail_is_sound(in_mode(m, Mode::Done), e);
        },
    }
}

/// Putting an entry that is no end of a block or call on the pending
/// work keeps the order of those ends.
proof fn push_keeps_markers(kont: Seq<Kont>, k: Kont)
    requires
        markers_rise(kont),
        !(k is Leave),
    ensures
        markers_rise(kont.push(k)),
{
    let pushed = kont.push(k);
    assert forall|i: int, j: int|
        0 <= i < j < pushed.len() && (#[trigger] pushed[i]) is Leave && (#[trigger] pushed[j]) is Leave implies pushed[i]->Leave_frame
            < pushed[j]->Leave_frame by {
        assert(pushed[i] == kont[i]);
        assert(pushed[j] == kont[j]);
    }
}

/// Putting the end of a new frame on the pending work keeps the order of
/// the ends: the new frame is newer than every frame still to be left.
proof fn push_marker_keeps_markers(scopes: Seq<Scope>, kont: Seq<Kont>, frame: usize)
    requires
        markers_rise(kont),
        entries_sound(scopes, kont),
        frame >= scopes.len(),
    ensures
        markers_rise(kont.push(Kont::Leave { frame })),
{
    let pushed = kont.push(Kont::Leave { frame });
    assert forall|i: int, j: int|
        0 <= i < j < pushed.len() && (#[trigger] pushed[i]) is Leave && (#[trigger] pushed[j]) is Leave implies pushed[i]->Leave_frame
            < pushed[j]->Leave_frame by {
        assert(pushed[i] == kont[i]);
        assert(entry_sound(scopes, kont, i));
        if j < kont.len() {
            assert(pushed[j] == kont[j]);
        }
    }
}

/// Going on with an expression for which an entry waits keeps the state
/// sound.
proof fn descend_is_sound(m: Machine, expr: Rc<Expr>, env: usize, k: Kont)
    requires
        sound(in_mode(m, Mode::Done)),
        frame_sound(m.scopes, m.kont, m.kont.len() as int, env),
        entry_sound(m.scopes, m.kont.push(k), m.kont.len() as int),
        !(k is Leave),
    ensures
        sound(descend(m, expr, env, k).0),
{
    push_keeps_entries(m.scopes, m.kont, k);
    push_keeps_markers(m.kont, k);
    frame_sound_further_up(m.scopes, m.kont, m.kont.len() as int, env, k);
}

/// Entering a new frame for a block or a call keeps the state sound, and
/// the new frame is sound for whatever comes to wait above its end.
proof fn enter_is_sound(m: Machine, parent: usize)
    requires
        sound(in_mode(m, Mode::Done)),
        parent < m.scopes.len() < usize::MAX,
    ensures
        sound(
            Machine {
                mode: Mode::Done,
                kont: m.kont.push(Kont::Leave { frame: m.scopes.len() as usize }),
                scopes: m.scopes.push(fresh(parent)),
                locals: m.locals,
            },
        ),
        frame_sound(
            m.scopes.push(fresh(parent)),
            m.kont.push(Kont::Leave { frame: m.scopes.len() as usize }),
            (m.kont.len() + 1) as int,
            m.scopes.len() as usize,
        ),
{
    let frame = m.scopes.len() as usize;
    let after = m.scopes.push(fresh(parent));
    let marker = Kont::Leave { frame };
    fresh_is_sound(m.scopes, parent);
    growth_keeps_names(m.scopes, after, m.kont, Mode::Done);
    push_marker_keeps_markers(m.scopes, m.kont, frame);
    assert(entry_sound(after, m.kont.push(marker), m.kont.len() as int));
    push_keeps_entries(after, m.kont, marker);
    assert(m.kont.push(marker)[m.kont.len() as int] == marker);
}

/// What a handle refers to.
pub open spec fn inner<T>(r: Rc<T>) -> T {
    *r
}

/// Beginning the execution of a statement keeps the state sound.
pub proof fn execute_is_sound(m: Machine, stmt: Rc<Stmt>, env: usize)
    requires
        sound(in_mode(m, Mode::Exec { stmt, env })),
        execute(m, stmt, env).0.scopes.len() <= usize::MAX,
    ensures
        sound(execute(m, stmt, env).0),
{
    let scopes = m.scopes;
    let kont = m.kont;
    let idle = in_mode(m, Mode::Done);
    let st = inner(stmt);
    if st is Expression {
        descend_is_sound(idle, st->Expression_expression, env, Kont::Discard);
    } else if st is Print {
        descend_is_sound(idle, st->Print_expression, env, Kont::Print);
    } else if st is Var {
        let k = Kont::Define { name: st->Var_name, env };
        frame_sound_further_up(scopes, kont, kont.len() as int, env, k);
        descend_is_sound(idle, st->initializer, env, k);
    } else if st is Block {
        enter_is_sound(idle, env);
        let frame = scopes.len() as usize;
        let entered = Machine {
            mode: Mode::Done,
            kont: kont.push(Kont::Leave { frame }),
            scopes: scopes.push(fresh(env)),
            locals: m.locals,
        };
        let k = Kont::Sequence { rest: st->stmts, env: frame };
        frame_sound_further_up(entered.scopes, entered.kont, entered.kont.len() as int, frame, k);
        push_keeps_entries(entered.scopes, entered.kont, k);
        push_keeps_markers(entered.kont, k);
    } else if st is IfElse {
        let k = Kont::Branch { then_branch: st->then_branch, else_branch: st->else_branch, env };
        frame_sound_further_up(scopes, kont, kont.len() as int, env, k);
        descend_is_sound(idle, st->predicate, env, k);
    } else if st is WhileLoop {
        let k = Kont::Loop { cond: st->cond, body: st->WhileLoop_body, env };
        frame_sound_further_up(scopes, kont, kont.len() as int, env, k);
        descend_is_sound(idle, st->cond, env, k);
    } else if st is Function {
        let name = st->Function_name;
        let made = declared(name, st->params, st->Function_body, env);
        hold_is_sound(scopes, env);
        let held = hold(scopes, env);
        bound_is_sound(held, env, name.lexeme@, made);
        let after = bound(held, env, name.lexeme@, made);
        assert(grown(scopes, after));
        change_of_frames_is_sound(idle, after);
    } else {
        match st->value {
            Some(e) => {
                descend_is_sound(idle, e, env, Kont::Return);
            },
            None => {},
        }
    }
}

/// Binding a sound value in a frame that the pending work named keeps
/// the state sound.
proof fn bind_is_sound(m: Machine, name: Token, frame: usize, v: LiteralValue)
    requires
        sound(in_mode(m, Mode::Done)),
        value_sound(m.scopes, v),
    ensures
        sound(bind(m, name, frame, v).0),
{
    if frame < m.scopes.len() {
        bound_is_sound(m.scopes, frame, name.lexeme@, v);
        change_of_frames_is_sound(in_mode(m, Mode::Done), bound(m.scopes, frame, name.lexeme@, v));
    }
}

/// Calling a sound value keeps the state sound.
proof fn call_is_sound(m: Machine, callee: LiteralValue, args: Rc<List<Rc<Expr>>>, env: usize)
    requires
        sound(in_mode(m, Mode::Done)),
        value_sound(m.scopes, callee),
        frame_sound(m.scopes, m.kont, m.kont.len() as int, env),
        call(m, callee, args, env).0.scopes.len() <= usize::MAX,
    ensures
        sound(call(m, callee, args, env).0),
{
    let idle = in_mode(m, Mode::Done);
    match callee {
        LiteralValue::Callable { name, arity, fun } => {
            if crate::expr::clip(args.seq().len()) == arity && fun.closure < m.scopes.len() {
                let frame = m.scopes.len() as usize;
                let bounded = Machine {
                    mode: Mode::Done,
                    kont: m.kont.push(Kont::Call),
                    scopes: m.scopes,
                    locals: m.locals,
                };
                push_keeps_entries(m.scopes, m.kont, Kont::Call);
                push_keeps_markers(m.kont, Kont::Call);
                frame_sound_further_up(m.scopes, m.kont, m.kont.len() as int, env, Kont::Call);
                enter_is_sound(bounded, fun.closure);
                let entered = Machine {
                    mode: Mode::Done,
                    kont: bounded.kont.push(Kont::Leave { frame }),
                    scopes: m.scopes.push(fresh(fun.closure)),
                    locals: m.locals,
                };
                let code = inner(fun);
                let body = Kont::Sequence { rest: code.body, env: frame };
                frame_sound_further_up(entered.scopes, entered.kont, entered.kont.len() as int, frame, body);
                push_keeps_entries(entered.scopes, entered.kont, body);
                push_keeps_markers(entered.kont, body);
                let with_body = entered.kont.push(body);
                let arguments = Kont::Arguments { params: code.params, args, frame, env };
                // the frame in which the arguments are evaluated was sound below the call
                fresh_is_sound(m.scopes, fun.closure);
                assert(frame_sound(entered.scopes, bounded.kont, bounded.kont.len() as int, env)) by {
                    if !m.scopes[env as int].held {
                        let i = choose|i: int|
                            0 <= i < bounded.kont.len() && i < bounded.kont.len() && #[trigger] bounded.kont[i] == (
                            Kont::Leave { frame: env });
                        assert(bounded.kont[i] == (Kont::Leave { frame: env }));
                    }
                }
                frame_sound_further_up(
                    entered.scopes,
                    bounded.kont,
                    bounded.kont.len() as int,
                    env,
                    Kont::Leave { frame },
                );
                frame_sound_further_up(entered.scopes, entered.kont, entered.kont.len() as int, env, body);
                frame_sound_further_up(entered.scopes, with_body, with_body.len() as int, env, arguments);
                frame_sound_further_up(entered.scopes, with_body, with_body.len() as int, frame, arguments);
                push_keeps_entries(entered.scopes, with_body, arguments);
                push_keeps_markers(with_body, arguments);
            }
        },
        _ => {},
    }
}

/// Handing a value to the entry that waited for it keeps the state
/// sound.
pub proof fn hand_is_sound(m: Machine, k: Kont, v: LiteralValue)
    requires
        sound(Machine { mode: Mode::Value(v), kont: m.kont.push(k), scopes: m.scopes, locals: m.locals }),
        !(k matches Kont::BinaryRight { operator, left } && concatenates(left, operator, v)),
        hand(m, k, v).0.scopes.len() <= usize::MAX,
    ensures
        sound(hand(m, k, v).0),
{
    let scopes = m.scopes;
    let full = m.kont.push(k);
    let top = m.kont.len() as int;
    assert(full.drop_last() =~= m.kont);
    pop_keeps_entries(scopes, full);
    assert(entry_sound(scopes, full, top));
    assert(full[top] == k);
    let idle = in_mode(m, Mode::Done);
    assert(sound(idle));
    match k {
        Kont::Unary { operator } => {
            operators_make_no_callable(operator, v, v);
            settle_is_sound(m, unary_result(operator, v));
        },
        Kont::BinaryLeft { operator, right, env } => {
            frame_of_top_stays_sound(scopes, full, env);
            descend_is_sound(idle, right, env, Kont::BinaryRight { operator, left: v });
        },
        Kont::BinaryRight { operator, left } => {
            operators_make_no_callable(operator, left, v);
            settle_is_sound(m, binary_result(left, operator, v));
        },
        Kont::Logical { operator, right, env } => {
            frame_of_top_stays_sound(scopes, full, env);
        },
        Kont::Assign { name, distance, env } => {
            match assigned(scopes, env, name.lexeme@, distance) {
                Ok(true) => {
                    match distance {
                        Some(d) => {
                            ancestor_in_range(scopes, env, d as nat);
                        },
                        None => {},
                    }
                    let t = target(scopes, env, distance)->0;
                    bound_is_sound(scopes, t, name.lexeme@, v);
                    let after = after_assign(scopes, env, name.lexeme@, v, distance);
                    change_of_frames_is_sound(idle, after);
                    growth_keeps_value(scopes, after, v);
                },
                _ => {},
            }
        },
        Kont::Callee { paren, args, env } => {
            frame_of_top_stays_sound(scopes, full, env);
            call_is_sound(m, v, args, env);
        },
        Kont::Bind { name, frame } => {
            bind_is_sound(m, name, frame, v);
        },
        Kont::Define { name, env } => {
            bind_is_sound(m, name, env, v);
        },
        Kont::Branch { then_branch, else_branch, env } => {
            frame_of_top_stays_sound(scopes, full, env);
        },
        Kont::Loop { cond, body, env } => {
            frame_of_top_stays_sound(scopes, full, env);
            let again = Kont::Repeat { cond, body, env };
            frame_sound_further_up(scopes, m.kont, top, env, again);
            push_keeps_entries(scopes, m.kont, again);
            push_keeps_markers(m.kont, again);
        },
        _ => {},
    }
}

/// Going on after completed work keeps the state sound.
pub proof fn proceed_is_sound(m: Machine)
    requires
        sound(in_mode(m, Mode::Done)),
    ensures
        sound(proceed(m).0),
{
    let scopes = m.scopes;
    let idle = in_mode(m, Mode::Done);
    if m.kont.len() > 0 {
        let top = m.kont.len() - 1;
        let rest = m.kont.drop_last();
        pop_keeps_entries(scopes, m.kont);
        assert(entry_sound(scopes, m.kont, top));
        let below = Machine { mode: Mode::Done, kont: rest, scopes, locals: m.locals };
        match m.kont.last() {
            Kont::Sequence { rest: stmts, env } => {
                frame_of_top_stays_sound(scopes, m.kont, env);
                let list = inner(stmts);
                if list is Cons {
                    let more = Kont::Sequence { rest: list->tail, env };
                    frame_sound_further_up(scopes, rest, top, env, more);
                    push_keeps_entries(scopes, rest, more);
                    push_keeps_markers(rest, more);
                }
            },
            Kont::Arguments { params, args, frame, env } => {
                frame_of_top_stays_sound(scopes, m.kont, env);
                frame_of_top_stays_sound(scopes, m.kont, frame);
                let names = inner(params);
                let values = inner(args);
                if names is Cons && values is Cons {
                    let more = Kont::Arguments { params: names->tail, args: values->tail, frame, env };
                    frame_sound_further_up(scopes, rest, top, env, more);
                    frame_sound_further_up(scopes, rest, top, frame, more);
                    push_keeps_entries(scopes, rest, more);
                    push_keeps_markers(rest, more);
                    let with_more = rest.push(more);
                    let bind = Kont::Bind { name: names->head, frame };
                    frame_sound_further_up(scopes, with_more, with_more.len() as int, frame, bind);
                    frame_sound_further_up(scopes, with_more, with_more.len() as int, env, bind);
                    push_keeps_entries(scopes, with_more, bind);
                    push_keeps_markers(with_more, bind);
                }
            },
            Kont::Repeat { cond, body, env } => {
                frame_of_top_stays_sound(scopes, m.kont, env);
                let test = Kont::Loop { cond, body, env };
                frame_sound_further_up(scopes, rest, top, env, test);
                descend_is_sound(below, cond, env, test);
            },
            Kont::Leave { frame } => {
                release_is_sound(idle, frame);
            },
            _ => {},
        }
    }
}

/// Carrying a returned value one entry further keeps the state sound.
pub proof fn unwind_is_sound(m: Machine, v: LiteralValue)
    requires
        sound(in_mode(m, Mode::Return(v))),
    ensures
        sound(unwind(m, v).0),
{
    if m.kont.len() > 0 {
        pop_keeps_entries(m.scopes, m.kont);
        match m.kont.last() {
            Kont::Leave { frame } => {
                release_is_sound(in_mode(m, Mode::Return(v)), frame);
            },
            _ => {},
        }
    }
}

/// Beginning a run keeps the state sound.
pub proof fn loaded_is_sound(m: Machine, program: Seq<Stmt>)
    requires
        sound(m),
    ensures
        sound(loaded(m, program)),
{
    let k = Kont::Sequence { rest: Rc::new(List::of(handles(program))), env: 0 };
    let kont = seq![k];
    assert(kont[0] == k);
    assert forall|j: int| 0 <= j < kont.len() implies #[trigger] entry_sound(m.scopes, kont, j) by {
        assert(frame_sound(m.scopes, kont, 0, 0));
    }
}

/// Every step keeps the state sound, as long as the frames can be
/// counted: each frame that is named afterwards exists, and a frame that
/// was given up is named by nothing.
pub proof fn step_is_sound(m: Machine, reply: Option<Number>, post: Machine, request: Request)
    requires
        sound(m),
        steps(m, reply, post, request),
        post.scopes.len() <= usize::MAX,
    ensures
        sound(post),
{
    let idle = in_mode(m, Mode::Done);
    if concatenating(m) {
        pop_keeps_entries(m.scopes, m.kont);
    } else {
        match m.mode {
            Mode::Eval { expr, env } => {
                evaluate_is_sound(m, expr, env);
            },
            Mode::Exec { stmt, env } => {
                execute_is_sound(m, stmt, env);
            },
            Mode::Value(v) => {
                if m.kont.len() > 0 {
                    assert(popped(m).kont.push(m.kont.last()) =~= m.kont);
                    hand_is_sound(popped(m), m.kont.last(), v);
                }
            },
            Mode::Done => {
                proceed_is_sound(m);
            },
            Mode::Return(v) => {
                unwind_is_sound(m, v);
            },
            _ => {},
        }
    }
}

/// A new frame that nothing waits to leave keeps the state sound.
pub proof fn lone_frame_is_sound(m: Machine, parent: usize)
    requires
        sound(m),
        parent < m.scopes.len() < usize::MAX,
    ensures
        sound(Machine { mode: m.mode, kont: m.kont, scopes: m.scopes.push(fresh(parent)), locals: m.locals }),
{
    fresh_is_sound(m.scopes, parent);
    change_of_frames_is_sound(m, m.scopes.push(fresh(parent)));
}

/// The state of a new machine is sound.
pub proof fn new_machine_is_sound(locals: Map<usize, usize>)
    ensures
        sound(
            Machine {
                mode: Mode::Done,
                kont: Seq::empty(),
                scopes: seq![crate::environments::global_scope()],
                locals,
            },
        ),
{
    let scopes = seq![crate::environments::global_scope()];
    assert forall|i: int, name: Seq<char>|
        0 <= i < scopes.len() && scopes[i].bindings.contains_key(name) implies value_sound(
        scopes,
        #[trigger] scopes[i].bindings[name],
    ) by {
        assert(name == "clock"@);
    }
}

/// In a sound state the frame that the machine is about to enter a block
/// or a function from exists, so that entering does not fail for want
/// of it.
pub proof fn sound_state_names_frames_that_exist(m: Machine)
    requires
        sound(m),
    ensures
        m.mode matches Mode::Eval { expr, env } ==> env < m.scopes.len(),
        m.mode matches Mode::Exec { stmt, env } ==> env < m.scopes.len(),
        m.mode matches Mode::Value(LiteralValue::Callable { name, arity, fun }) ==> fun.closure < m.scopes.len(),
{
}

/// Taking hold of a frame keeps the state sound.
pub proof fn hold_keeps_state_sound(m: Machine, at: usize)
    requires
        sound(m),
    ensures
        sound(Machine { mode: m.mode, kont: m.kont, scopes: hold(m.scopes, at), locals: m.locals }),
        at < m.scopes.len() ==> hold(m.scopes, at)[at as int].held,
{
    hold_is_sound(m.scopes, at);
    change_of_frames_is_sound(m, hold(m.scopes, at));
}

/// Putting the boundary of a call on the pending work keeps the state
/// sound.
pub proof fn boundary_is_sound(m: Machine)
    requires
        sound(m),
        m.mode is Done,
    ensures
        sound(Machine { mode: Mode::Done, kont: m.kont.push(Kont::Call), scopes: m.scopes, locals: m.locals }),
{
    push_keeps_entries(m.scopes, m.kont, Kont::Call);
    push_keeps_markers(m.kont, Kont::Call);
}

/// What lies below the entry that a value is handed to is sound, and so
/// is what the entry and the value name.
pub proof fn below_is_sound(m: Machine, k: Kont, v: LiteralValue)
    requires
        sound(Machine { mode: Mode::Value(v), kont: m.kont.push(k), scopes: m.scopes, locals: m.locals }),
    ensures
        sound(in_mode(m, Mode::Done)),
        sound(in_mode(m, Mode::Value(v))),
        value_sound(m.scopes, v),
        entry_sound(m.scopes, m.kont.push(k), m.kont.len() as int),
        k matches Kont::BinaryLeft { operator, right, env } ==> env < m.scopes.len(),
        k matches Kont::Logical { operator, right, env } ==> env < m.scopes.len(),
        k matches Kont::Assign { name, distance, env } ==> env < m.scopes.len(),
        k matches Kont::Callee { paren, args, env } ==> env < m.scopes.len(),
        k matches Kont::Bind { name, frame } ==> frame < m.scopes.len(),
        k matches Kont::Define { name, env } ==> env < m.scopes.len(),
        k matches Kont::Branch { then_branch, else_branch, env } ==> env < m.scopes.len(),
        k matches Kont::Loop { cond, body, env } ==> env < m.scopes.len(),
{
    let full = m.kont.push(k);
    assert(full.drop_last() =~= m.kont);
    pop_keeps_entries(m.scopes, full);
    assert(entry_sound(m.scopes, full, m.kont.len() as int));
    assert(full[m.kont.len() as int] == k);
}

/// Leaving the block or call whose end is on top of the pending work
/// keeps the state sound.
pub proof fn release_keeps_state_sound(m: Machine, frame: usize)
    requires
        sound(m),
        m.mode is Done || m.mode is Return,
        m.kont.len() > 0,
        m.kont.last() == (Kont::Leave { frame }),
    ensures
        sound(Machine { mode: m.mode, kont: m.kont.drop_last(), scopes: released(m.scopes, frame), locals: m.locals }),
{
    release_is_sound(m, frame);
}

} // verus!
