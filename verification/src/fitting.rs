//! Resolution records distances that fit: where no two nodes of a program
//! share an identity and none was resolved before, every distance that
//! resolution records is smaller than the number of scopes around its
//! node.

use vstd::prelude::*;
use std::rc::Rc;
use crate::agreement::{
    Records, agrees, depth, entry_fits, fits_expr, fits_exprs, fits_stmt, fits_stmts, recorded, records,
    value_fits,
};
use crate::interpreter::{Kont, Machine, Mode, handles, loaded};
use crate::expr::Expr;
use crate::list::List;
use crate::resolver::{
    Bindings, begin_scope, distance, end_scope, note, note_params, resolve_expr, resolve_exprs, resolve_function,
    resolve_local, resolve_program, resolve_stmt, resolve_stmts, resolve_variable,
};
use crate::scanner::Token;
use crate::soundness::inner;
use crate::stmt::Stmt;

verus! {

/// The identities of the variable and assignment nodes of an expression.
pub open spec fn ids_expr(e: Expr) -> Set<usize>
    decreases e, 0nat,
{
    match e {
        Expr::Binary { left, operator, right } => ids_expr(*left).union(ids_expr(*right)),
        Expr::Logical { left, operator, right } => ids_expr(*left).union(ids_expr(*right)),
        Expr::Grouping { expression } => ids_expr(*expression),
        Expr::Literal { literal } => Set::empty(),
        Expr::Unary { operator, right } => ids_expr(*right),
        Expr::Variable { name, id } => Set::empty().insert(id),
        Expr::Assign { name, value, id } => ids_expr(*value).insert(id),
        Expr::Call { callee, paren, args } => ids_expr(*callee).union(ids_exprs(*args)),
        Expr::AnonFunc { paren, args, body } => ids_stmts(*body),
    }
}

/// The identities of the nodes of the expressions of a list.
pub open spec fn ids_exprs(l: List<Rc<Expr>>) -> Set<usize>
    decreases l, 0nat,
{
    match l {
        List::Nil => Set::empty(),
        List::Cons { head, tail } => ids_expr(*head).union(ids_exprs(*tail)),
    }
}

/// The identities of the nodes of a statement.
pub open spec fn ids_stmt(s: Stmt) -> Set<usize>
    decreases s, 0nat,
{
    match s {
        Stmt::Expression { expression } => ids_expr(*expression),
        Stmt::Print { expression } => ids_expr(*expression),
        Stmt::Var { name, initializer } => ids_expr(*initializer),
        Stmt::Block { stmts } => ids_stmts(*stmts),
        Stmt::IfElse { predicate, then_branch, else_branch } => ids_expr(*predicate).union(
            ids_stmt(*then_branch),
        ).union(
            match else_branch {
                Some(s) => ids_stmt(*s),
                None => Set::empty(),
            },
        ),
        Stmt::WhileLoop { cond, body } => ids_expr(*cond).union(ids_stmt(*body)),
        Stmt::Function { name, params, body } => ids_stmts(*body),
        Stmt::Return { keyword, value } => match value {
            Some(e) => ids_expr(*e),
            None => Set::empty(),
        },
    }
}

/// The identities of the nodes of the statements of a list.
pub open spec fn ids_stmts(l: List<Rc<Stmt>>) -> Set<usize>
    decreases l, 0nat,
{
    match l {
        List::Nil => Set::empty(),
        List::Cons { head, tail } => ids_stmt(*head).union(ids_stmts(*tail)),
    }
}

/// Whether an expression is proper: no two of its nodes share an
/// identity, and no literal in it is a callable.
pub open spec fn proper_expr(e: Expr) -> bool
    decreases e, 0nat,
{
    match e {
        Expr::Binary { left, operator, right } => proper_expr(*left) && proper_expr(*right) && ids_expr(
            *left,
        ).disjoint(ids_expr(*right)),
        Expr::Logical { left, operator, right } => proper_expr(*left) && proper_expr(*right) && ids_expr(
            *left,
        ).disjoint(ids_expr(*right)),
        Expr::Grouping { expression } => proper_expr(*expression),
        Expr::Literal { literal } => !(literal is Callable),
        Expr::Unary { operator, right } => proper_expr(*right),
        Expr::Variable { name, id } => true,
        Expr::Assign { name, value, id } => proper_expr(*value) && !ids_expr(*value).contains(id),
        Expr::Call { callee, paren, args } => proper_expr(*callee) && proper_exprs(*args) && ids_expr(
            *callee,
        ).disjoint(ids_exprs(*args)),
        Expr::AnonFunc { paren, args, body } => proper_stmts(*body),
    }
}

/// Whether the expressions of a list are proper, and no two nodes among
/// them share an identity.
pub open spec fn proper_exprs(l: List<Rc<Expr>>) -> bool
    decreases l, 0nat,
{
    match l {
        List::Nil => true,
        List::Cons { head, tail } => proper_expr(*head) && proper_exprs(*tail) && ids_expr(*head).disjoint(
            ids_exprs(*tail),
        ),
    }
}

/// Whether a statement is proper: no two of its nodes share an identity,
/// and no literal in it is a callable.
pub open spec fn proper_stmt(s: Stmt) -> bool
    decreases s, 0nat,
{
    match s {
        Stmt::Expression { expression } => proper_expr(*expression),
        Stmt::Print { expression } => proper_expr(*expression),
        Stmt::Var { name, initializer } => proper_expr(*initializer),
        Stmt::Block { stmts } => proper_stmts(*stmts),
        Stmt::IfElse { predicate, then_branch, else_branch } => proper_expr(*predicate) && proper_stmt(
            *then_branch,
        ) && ids_expr(*predicate).disjoint(ids_stmt(*then_branch)) && match else_branch {
            Some(s) => proper_stmt(*s) && ids_expr(*predicate).disjoint(ids_stmt(*s)) && ids_stmt(
                *then_branch,
            ).disjoint(ids_stmt(*s)),
            None => true,
        },
        Stmt::WhileLoop { cond, body } => proper_expr(*cond) && proper_stmt(*body) && ids_expr(*cond).disjoint(
            ids_stmt(*body),
        ),
        Stmt::Function { name, params, body } => proper_stmts(*body),
        Stmt::Return { keyword, value } => match value {
            Some(e) => proper_expr(*e),
            None => true,
        },
    }
}

/// Whether the statements of a list are proper, and no two nodes among
/// them share an identity.
pub open spec fn proper_stmts(l: List<Rc<Stmt>>) -> bool
    decreases l, 0nat,
{
    match l {
        List::Nil => true,
        List::Cons { head, tail } => proper_stmt(*head) && proper_stmts(*tail) && ids_stmt(*head).disjoint(
            ids_stmts(*tail),
        ),
    }
}

/// Whether two maps say the same of `id`.
pub open spec fn same(a: Map<usize, usize>, b: Map<usize, usize>, id: usize) -> bool {
    a.contains_key(id) == b.contains_key(id) && (a.contains_key(id) ==> a[id] == b[id])
}

/// Whether resolution went from `b` to `r` and touched the records of the
/// nodes in `ids` alone; if it ended without an error, it began without
/// one and ended with as many scopes open as it began with.
pub open spec fn touched(b: Bindings, r: Bindings, ids: Set<usize>) -> bool {
    &&& r.error is None ==> b.error is None && r.scopes.len() == b.scopes.len()
    &&& forall|id: usize| !ids.contains(id) ==> #[trigger] same(r.locals, b.locals, id)
}

/// Declaring the parameters touches no record.
proof fn params_touch_nothing(b: Bindings, params: List<Token>)
    ensures
        note_params(b, params).locals == b.locals,
        note_params(b, params).error == b.error,
        note_params(b, params).scopes.len() == b.scopes.len(),
    decreases params,
{
    match params {
        List::Nil => {},
        List::Cons { head, tail } => {
            if b.error is None {
                let next = note(note(b, head, false), head, true);
                params_touch_nothing(next, inner_tokens(tail));
            }
        },
    }
}

/// What a handle to a list of tokens refers to.
pub open spec fn inner_tokens(r: Rc<List<Token>>) -> List<Token> {
    *r
}

/// What one resolution touched and what the next one touched is what
/// the two touched together.
proof fn touched_in_turn(a: Bindings, b: Bindings, c: Bindings, first: Set<usize>, second: Set<usize>)
    requires
        touched(a, b, first),
        touched(b, c, second),
    ensures
        touched(a, c, first.union(second)),
{
    assert forall|id: usize| !first.union(second).contains(id) implies #[trigger] same(c.locals, a.locals, id) by {
        assert(same(b.locals, a.locals, id));
        assert(same(c.locals, b.locals, id));
    }
}

/// What touched some records touched no others.
proof fn touched_within(a: Bindings, b: Bindings, ids: Set<usize>, more: Set<usize>)
    requires
        touched(a, b, ids),
        ids.subset_of(more),
    ensures
        touched(a, b, more),
{
    assert forall|id: usize| !more.contains(id) implies #[trigger] same(b.locals, a.locals, id) by {
        assert(!ids.contains(id));
    }
}

/// Resolving an expression touches the records of its nodes alone.
pub proof fn expr_touches_its_nodes(b: Bindings, e: Expr)
    ensures
        touched(b, resolve_expr(b, e), ids_expr(e)),
    decreases e, 0nat,
{
    if b.error is None {
        match e {
            Expr::Variable { name, id } => {
                let r = resolve_variable(b, name, id);
                assert forall|other: usize| !ids_expr(e).contains(other) implies #[trigger] same(
                    r.locals,
                    b.locals,
                    other,
                ) by {
                    assert(other != id);
                }
            },
            Expr::Assign { name, value, id } => {
                let v = inner(value);
                expr_touches_its_nodes(b, v);
                let r1 = resolve_expr(b, v);
                let r = resolve_local(r1, id, name);
                assert(touched(r1, r, Set::<usize>::empty().insert(id))) by {
                    assert forall|other: usize|
                        !Set::<usize>::empty().insert(id).contains(other) implies #[trigger] same(
                        r.locals,
                        r1.locals,
                        other,
                    ) by {
                        assert(other != id);
                    }
                }
                touched_in_turn(b, r1, r, ids_expr(v), Set::<usize>::empty().insert(id));
                touched_within(b, r, ids_expr(v).union(Set::<usize>::empty().insert(id)), ids_expr(e));
            },
            Expr::Binary { left, operator, right } => {
                let l = inner(left);
                let r = inner(right);
                expr_touches_its_nodes(b, l);
                expr_touches_its_nodes(resolve_expr(b, l), r);
                touched_in_turn(b, resolve_expr(b, l), resolve_expr(resolve_expr(b, l), r), ids_expr(l), ids_expr(r));
            },
            Expr::Logical { left, operator, right } => {
                let l = inner(left);
                let r = inner(right);
                expr_touches_its_nodes(b, l);
                expr_touches_its_nodes(resolve_expr(b, l), r);
                touched_in_turn(b, resolve_expr(b, l), resolve_expr(resolve_expr(b, l), r), ids_expr(l), ids_expr(r));
            },
            Expr::Call { callee, paren, args } => {
                let c = inner(callee);
                let a = inner(args);
                expr_touches_its_nodes(b, c);
                exprs_touch_their_nodes(resolve_expr(b, c), a);
                touched_in_turn(
                    b,
                    resolve_expr(b, c),
                    resolve_exprs(resolve_expr(b, c), a),
                    ids_expr(c),
                    ids_exprs(a),
                );
            },
            Expr::Grouping { expression } => {
                expr_touches_its_nodes(b, inner(expression));
            },
            Expr::Literal { literal } => {},
            Expr::Unary { operator, right } => {
                expr_touches_its_nodes(b, inner(right));
            },
            Expr::AnonFunc { paren, args, body } => {
                function_touches_its_nodes(b, inner(args), inner(body));
            },
        }
    }
}

/// Resolving the expressions of a list touches the records of their
/// nodes alone.
pub proof fn exprs_touch_their_nodes(b: Bindings, l: List<Rc<Expr>>)
    ensures
        touched(b, resolve_exprs(b, l), ids_exprs(l)),
    decreases l, 0nat,
{
    if b.error is None {
        match l {
            List::Nil => {},
            List::Cons { head, tail } => {
                let h = inner(head);
                let t = inner(tail);
                expr_touches_its_nodes(b, h);
                exprs_touch_their_nodes(resolve_expr(b, h), t);
                touched_in_turn(b, resolve_expr(b, h), resolve_exprs(resolve_expr(b, h), t), ids_expr(h), ids_exprs(t));
            },
        }
    }
}

/// Resolving a function touches the records of the nodes of its body
/// alone.
pub proof fn function_touches_its_nodes(b: Bindings, params: List<Token>, body: List<Rc<Stmt>>)
    ensures
        touched(b, resolve_function(b, params, body), ids_stmts(body)),
    decreases body, 1nat,
{
    let opened = begin_scope(b);
    let declared = note_params(opened, params);
    params_touch_nothing(opened, params);
    stmts_touch_their_nodes(declared, body);
    let resolved = resolve_stmts(declared, body);
    let closed = end_scope(resolved);
    assert forall|id: usize| !ids_stmts(body).contains(id) implies #[trigger] same(closed.locals, b.locals, id) by {
        assert(same(resolved.locals, declared.locals, id));
    }
}

/// Resolving the statements of a list touches the records of their nodes
/// alone.
pub proof fn stmts_touch_their_nodes(b: Bindings, l: List<Rc<Stmt>>)
    ensures
        touched(b, resolve_stmts(b, l), ids_stmts(l)),
    decreases l, 0nat,
{
    if b.error is None {
        match l {
            List::Nil => {},
            List::Cons { head, tail } => {
                let h = inner(head);
                let t = inner(tail);
                stmt_touches_its_nodes(b, h);
                stmts_touch_their_nodes(resolve_stmt(b, h), t);
                touched_in_turn(b, resolve_stmt(b, h), resolve_stmts(resolve_stmt(b, h), t), ids_stmt(h), ids_stmts(t));
            },
        }
    }
}

/// Resolving a statement touches the records of its nodes alone.
pub proof fn stmt_touches_its_nodes(b: Bindings, s: Stmt)
    ensures
        touched(b, resolve_stmt(b, s), ids_stmt(s)),
    decreases s, 0nat,
{
    if b.error is None {
        match s {
            Stmt::Block { stmts } => {
                let l = inner(stmts);
                let opened = begin_scope(b);
                stmts_touch_their_nodes(opened, l);
                let resolved = resolve_stmts(opened, l);
                let closed = end_scope(resolved);
                assert forall|id: usize| !ids_stmts(l).contains(id) implies #[trigger] same(
                    closed.locals,
                    b.locals,
                    id,
                ) by {
                    assert(same(resolved.locals, opened.locals, id));
                }
            },
            Stmt::Var { name, initializer } => {
                let e = inner(initializer);
                let declared = note(b, name, false);
                expr_touches_its_nodes(declared, e);
                let resolved = resolve_expr(declared, e);
                let defined = note(resolved, name, true);
                assert forall|id: usize| !ids_expr(e).contains(id) implies #[trigger] same(
                    defined.locals,
                    b.locals,
                    id,
                ) by {
                    assert(same(resolved.locals, declared.locals, id));
                }
            },
            Stmt::Function { name, params, body } => {
                let named = note(note(b, name, false), name, true);
                function_touches_its_nodes(named, inner(params), inner(body));
                let r = resolve_function(named, inner(params), inner(body));
                assert forall|id: usize| !ids_stmts(inner(body)).contains(id) implies #[trigger] same(
                    r.locals,
                    b.locals,
                    id,
                ) by {
                    assert(same(r.locals, named.locals, id));
                }
            },
            Stmt::Expression { expression } => {
                expr_touches_its_nodes(b, inner(expression));
            },
            Stmt::IfElse { predicate, then_branch, else_branch } => {
                let p = inner(predicate);
                let t = inner(then_branch);
                expr_touches_its_nodes(b, p);
                let r1 = resolve_expr(b, p);
                stmt_touches_its_nodes(r1, t);
                let r2 = resolve_stmt(r1, t);
                touched_in_turn(b, r1, r2, ids_expr(p), ids_stmt(t));
                match else_branch {
                    Some(other) => {
                        let o = inner(other);
                        stmt_touches_its_nodes(r2, o);
                        touched_in_turn(b, r2, resolve_stmt(r2, o), ids_expr(p).union(ids_stmt(t)), ids_stmt(o));
                    },
                    None => {
                        touched_within(b, r2, ids_expr(p).union(ids_stmt(t)), ids_stmt(s));
                    },
                }
            },
            Stmt::Print { expression } => {
                expr_touches_its_nodes(b, inner(expression));
            },
            Stmt::Return { keyword, value } => {
                match value {
                    Some(e) => {
                        expr_touches_its_nodes(b, inner(e));
                    },
                    None => {},
                }
            },
            Stmt::WhileLoop { cond, body } => {
                let c = inner(cond);
                let d = inner(body);
                expr_touches_its_nodes(b, c);
                stmt_touches_its_nodes(resolve_expr(b, c), d);
                touched_in_turn(b, resolve_expr(b, c), resolve_stmt(resolve_expr(b, c), d), ids_expr(c), ids_stmt(d));
            },
        }
    }
}

/// Whether two maps say the same of every node in `ids`.
pub open spec fn alike(a: Map<usize, usize>, b: Map<usize, usize>, ids: Set<usize>) -> bool {
    forall|id: usize| ids.contains(id) ==> #[trigger] same(a, b, id)
}

/// Whether an expression fits depends on the records of its nodes alone.
pub proof fn expr_fits_by_its_nodes(e: Expr, n: nat, a: Records, b: Records)
    requires
        fits_expr(e, n, a),
        alike(a.map, b.map, ids_expr(e)),
        a.limit <= b.limit,
    ensures
        fits_expr(e, n, b),
    decreases e, 0nat,
{
    match e {
        Expr::Variable { name, id } => {
            assert(ids_expr(e).contains(id));
            assert(same(a.map, b.map, id));
        },
        Expr::Assign { name, value, id } => {
            assert(ids_expr(e).contains(id));
            assert(same(a.map, b.map, id));
            alike_within(a.map, b.map, ids_expr(e), ids_expr(inner(value)));
            expr_fits_by_its_nodes(inner(value), n, a, b);
        },
        Expr::Binary { left, operator, right } => {
            alike_within(a.map, b.map, ids_expr(e), ids_expr(inner(left)));
            alike_within(a.map, b.map, ids_expr(e), ids_expr(inner(right)));
            expr_fits_by_its_nodes(inner(left), n, a, b);
            expr_fits_by_its_nodes(inner(right), n, a, b);
        },
        Expr::Logical { left, operator, right } => {
            alike_within(a.map, b.map, ids_expr(e), ids_expr(inner(left)));
            alike_within(a.map, b.map, ids_expr(e), ids_expr(inner(right)));
            expr_fits_by_its_nodes(inner(left), n, a, b);
            expr_fits_by_its_nodes(inner(right), n, a, b);
        },
        Expr::Call { callee, paren, args } => {
            alike_within(a.map, b.map, ids_expr(e), ids_expr(inner(callee)));
            alike_within(a.map, b.map, ids_expr(e), ids_exprs(inner(args)));
            expr_fits_by_its_nodes(inner(callee), n, a, b);
            exprs_fit_by_their_nodes(inner(args), n, a, b);
        },
        Expr::Grouping { expression } => {
            expr_fits_by_its_nodes(inner(expression), n, a, b);
        },
        Expr::Literal { literal } => {},
        Expr::Unary { operator, right } => {
            expr_fits_by_its_nodes(inner(right), n, a, b);
        },
        Expr::AnonFunc { paren, args, body } => {
            stmts_fit_by_their_nodes(inner(body), n + 1, a, b);
        },
    }
}

/// Maps that are alike on some nodes are alike on fewer.
proof fn alike_within(a: Map<usize, usize>, b: Map<usize, usize>, ids: Set<usize>, fewer: Set<usize>)
    requires
        alike(a, b, ids),
        fewer.subset_of(ids),
    ensures
        alike(a, b, fewer),
{
    assert forall|id: usize| fewer.contains(id) implies #[trigger] same(a, b, id) by {
        assert(ids.contains(id));
    }
}

/// Whether the expressions of a list fit depends on the records of their
/// nodes alone.
pub proof fn exprs_fit_by_their_nodes(l: List<Rc<Expr>>, n: nat, a: Records, b: Records)
    requires
        fits_exprs(l, n, a),
        alike(a.map, b.map, ids_exprs(l)),
        a.limit <= b.limit,
    ensures
        fits_exprs(l, n, b),
    decreases l, 0nat,
{
    match l {
        List::Nil => {},
        List::Cons { head, tail } => {
            alike_within(a.map, b.map, ids_exprs(l), ids_expr(inner(head)));
            alike_within(a.map, b.map, ids_exprs(l), ids_exprs(inner(tail)));
            expr_fits_by_its_nodes(inner(head), n, a, b);
            exprs_fit_by_their_nodes(inner(tail), n, a, b);
        },
    }
}

/// Whether the statements of a list fit depends on the records of their
/// nodes alone.
pub proof fn stmts_fit_by_their_nodes(l: List<Rc<Stmt>>, n: nat, a: Records, b: Records)
    requires
        fits_stmts(l, n, a),
        alike(a.map, b.map, ids_stmts(l)),
        a.limit <= b.limit,
    ensures
        fits_stmts(l, n, b),
    decreases l, 0nat,
{
    match l {
        List::Nil => {},
        List::Cons { head, tail } => {
            alike_within(a.map, b.map, ids_stmts(l), ids_stmt(inner(head)));
            alike_within(a.map, b.map, ids_stmts(l), ids_stmts(inner(tail)));
            stmt_fits_by_its_nodes(inner(head), n, a, b);
            stmts_fit_by_their_nodes(inner(tail), n, a, b);
        },
    }
}

/// Whether a statement fits depends on the records of its nodes alone.
pub proof fn stmt_fits_by_its_nodes(s: Stmt, n: nat, a: Records, b: Records)
    requires
        fits_stmt(s, n, a),
        alike(a.map, b.map, ids_stmt(s)),
        a.limit <= b.limit,
    ensures
        fits_stmt(s, n, b),
    decreases s, 0nat,
{
    match s {
        Stmt::Expression { expression } => {
            expr_fits_by_its_nodes(inner(expression), n, a, b);
        },
        Stmt::Print { expression } => {
            expr_fits_by_its_nodes(inner(expression), n, a, b);
        },
        Stmt::Var { name, initializer } => {
            expr_fits_by_its_nodes(inner(initializer), n, a, b);
        },
        Stmt::Block { stmts } => {
            stmts_fit_by_their_nodes(inner(stmts), n + 1, a, b);
        },
        Stmt::IfElse { predicate, then_branch, else_branch } => {
            alike_within(a.map, b.map, ids_stmt(s), ids_expr(inner(predicate)));
            alike_within(a.map, b.map, ids_stmt(s), ids_stmt(inner(then_branch)));
            expr_fits_by_its_nodes(inner(predicate), n, a, b);
            stmt_fits_by_its_nodes(inner(then_branch), n, a, b);
            match else_branch {
                Some(other) => {
                    alike_within(a.map, b.map, ids_stmt(s), ids_stmt(inner(other)));
                    stmt_fits_by_its_nodes(inner(other), n, a, b);
                },
                None => {},
            }
        },
        Stmt::WhileLoop { cond, body } => {
            alike_within(a.map, b.map, ids_stmt(s), ids_expr(inner(cond)));
            alike_within(a.map, b.map, ids_stmt(s), ids_stmt(inner(body)));
            expr_fits_by_its_nodes(inner(cond), n, a, b);
            stmt_fits_by_its_nodes(inner(body), n, a, b);
        },
        Stmt::Function { name, params, body } => {
            stmts_fit_by_their_nodes(inner(body), n + 1, a, b);
        },
        Stmt::Return { keyword, value } => {
            match value {
                Some(e) => {
                    expr_fits_by_its_nodes(inner(e), n, a, b);
                },
                None => {},
            }
        },
    }
}

/// Whether none of the nodes in `ids` has a distance recorded, and each
/// is among the first `limit` nodes.
pub open spec fn unresolved(locals: Map<usize, usize>, ids: Set<usize>, limit: nat) -> bool {
    forall|id: usize| #[trigger] ids.contains(id) ==> !locals.contains_key(id) && (id as nat) < limit
}

/// The records that a state of resolution holds.
pub open spec fn records_of(b: Bindings, limit: nat) -> Records {
    Records { map: b.locals, limit }
}

/// A distance that is found is smaller than the number of scopes.
pub proof fn distance_is_within(scopes: Seq<Map<Seq<char>, bool>>, name: Seq<char>, below: int)
    requires
        0 <= below <= scopes.len(),
    ensures
        distance(scopes, name, below) matches Some(d) ==> d < scopes.len(),
    decreases below,
{
    if below > 0 && !scopes[below - 1].contains_key(name) {
        distance_is_within(scopes, name, below - 1);
    }
}

/// Nodes that were not touched are as unresolved as they were.
proof fn untouched_stay_unresolved(
    b: Bindings,
    r: Bindings,
    touched_ids: Set<usize>,
    ids: Set<usize>,
    limit: nat,
)
    requires
        touched(b, r, touched_ids),
        touched_ids.disjoint(ids),
        unresolved(b.locals, ids, limit),
    ensures
        unresolved(r.locals, ids, limit),
{
    assert forall|id: usize| #[trigger] ids.contains(id) implies !r.locals.contains_key(id) && (id as nat)
        < limit by {
        assert(!touched_ids.contains(id));
        assert(same(r.locals, b.locals, id));
    }
}

/// Nodes that are unresolved are so among fewer.
proof fn unresolved_within(locals: Map<usize, usize>, ids: Set<usize>, fewer: Set<usize>, limit: nat)
    requires
        unresolved(locals, ids, limit),
        fewer.subset_of(ids),
    ensures
        unresolved(locals, fewer, limit),
{
    assert forall|id: usize| #[trigger] fewer.contains(id) implies !locals.contains_key(id) && (id as nat)
        < limit by {
        assert(ids.contains(id));
    }
}

/// What was resolved first still fits after what was resolved next, if
/// the two share no node.
proof fn touched_elsewhere(r1: Bindings, r2: Bindings, mine: Set<usize>, other: Set<usize>)
    requires
        touched(r1, r2, other),
        mine.disjoint(other),
    ensures
        alike(r1.locals, r2.locals, mine),
{
    assert forall|id: usize| mine.contains(id) implies #[trigger] same(r1.locals, r2.locals, id) by {
        assert(!other.contains(id));
        assert(same(r2.locals, r1.locals, id));
    }
}

/// Recording the distance of a node that has none yet, in a state whose
/// scopes are `n`, leaves a record that fits.
proof fn local_is_recorded(b: Bindings, id: usize, name: Token, limit: nat)
    requires
        b.error is None,
        !b.locals.contains_key(id),
        (id as nat) < limit,
    ensures
        recorded(records_of(resolve_local(b, id, name), limit), id, b.scopes.len()),
        touched(b, resolve_local(b, id, name), Set::<usize>::empty().insert(id)),
        resolve_local(b, id, name).error is None,
        resolve_local(b, id, name).scopes == b.scopes,
{
    distance_is_within(b.scopes, name.lexeme@, b.scopes.len() as int);
    let r = resolve_local(b, id, name);
    assert forall|other: usize| !Set::<usize>::empty().insert(id).contains(other) implies #[trigger] same(
        r.locals,
        b.locals,
        other,
    ) by {
        assert(other != id);
    }
}

/// After an expression is resolved without an error, the distances
/// recorded for its nodes fit the scopes it was resolved in.
pub proof fn resolved_expr_fits(b: Bindings, e: Expr, limit: nat)
    requires
        b.error is None,
        resolve_expr(b, e).error is None,
        proper_expr(e),
        unresolved(b.locals, ids_expr(e), limit),
    ensures
        fits_expr(e, b.scopes.len(), records_of(resolve_expr(b, e), limit)),
    decreases e, 0nat,
{
    let n = b.scopes.len();
    match e {
        Expr::Variable { name, id } => {
            assert(ids_expr(e).contains(id));
            local_is_recorded(b, id, name, limit);
        },
        Expr::Assign { name, value, id } => {
            let v = inner(value);
            let r1 = resolve_expr(b, v);
            expr_touches_its_nodes(b, v);
            assert(ids_expr(e).contains(id));
            unresolved_within(b.locals, ids_expr(e), ids_expr(v), limit);
            resolved_expr_fits(b, v, limit);
            assert(same(r1.locals, b.locals, id));
            local_is_recorded(r1, id, name, limit);
            let r = resolve_local(r1, id, name);
            touched_elsewhere(r1, r, ids_expr(v), Set::<usize>::empty().insert(id));
            expr_fits_by_its_nodes(v, n, records_of(r1, limit), records_of(r, limit));
        },
        Expr::Binary { left, operator, right } => {
            let l = inner(left);
            let r = inner(right);
            let r1 = resolve_expr(b, l);
            let r2 = resolve_expr(r1, r);
            expr_touches_its_nodes(b, l);
            expr_touches_its_nodes(r1, r);
            unresolved_within(b.locals, ids_expr(e), ids_expr(l), limit);
            unresolved_within(b.locals, ids_expr(e), ids_expr(r), limit);
            resolved_expr_fits(b, l, limit);
            untouched_stay_unresolved(b, r1, ids_expr(l), ids_expr(r), limit);
            resolved_expr_fits(r1, r, limit);
            touched_elsewhere(r1, r2, ids_expr(l), ids_expr(r));
            expr_fits_by_its_nodes(l, n, records_of(r1, limit), records_of(r2, limit));
        },
        Expr::Logical { left, operator, right } => {
            let l = inner(left);
            let r = inner(right);
            let r1 = resolve_expr(b, l);
            let r2 = resolve_expr(r1, r);
            expr_touches_its_nodes(b, l);
            expr_touches_its_nodes(r1, r);
            unresolved_within(b.locals, ids_expr(e), ids_expr(l), limit);
            unresolved_within(b.locals, ids_expr(e), ids_expr(r), limit);
            resolved_expr_fits(b, l, limit);
            untouched_stay_unresolved(b, r1, ids_expr(l), ids_expr(r), limit);
            resolved_expr_fits(r1, r, limit);
            touched_elsewhere(r1, r2, ids_expr(l), ids_expr(r));
            expr_fits_by_its_nodes(l, n, records_of(r1, limit), records_of(r2, limit));
        },
        Expr::Call { callee, paren, args } => {
            let c = inner(callee);
            let a = inner(args);
            let r1 = resolve_expr(b, c);
            let r2 = resolve_exprs(r1, a);
            expr_touches_its_nodes(b, c);
            exprs_touch_their_nodes(r1, a);
            unresolved_within(b.locals, ids_expr(e), ids_expr(c), limit);
            unresolved_within(b.locals, ids_expr(e), ids_exprs(a), limit);
            resolved_expr_fits(b, c, limit);
            untouched_stay_unresolved(b, r1, ids_expr(c), ids_exprs(a), limit);
            resolved_exprs_fit(r1, a, limit);
            touched_elsewhere(r1, r2, ids_expr(c), ids_exprs(a));
            expr_fits_by_its_nodes(c, n, records_of(r1, limit), records_of(r2, limit));
        },
        Expr::Grouping { expression } => {
            resolved_expr_fits(b, inner(expression), limit);
        },
        Expr::Literal { literal } => {},
        Expr::Unary { operator, right } => {
            resolved_expr_fits(b, inner(right), limit);
        },
        Expr::AnonFunc { paren, args, body } => {
            resolved_function_fits(b, inner(args), inner(body), limit);
        },
    }
}

/// After the expressions of a list are resolved without an error, the
/// distances recorded for their nodes fit.
pub proof fn resolved_exprs_fit(b: Bindings, l: List<Rc<Expr>>, limit: nat)
    requires
        b.error is None,
        resolve_exprs(b, l).error is None,
        proper_exprs(l),
        unresolved(b.locals, ids_exprs(l), limit),
    ensures
        fits_exprs(l, b.scopes.len(), records_of(resolve_exprs(b, l), limit)),
    decreases l, 0nat,
{
    match l {
        List::Nil => {},
        List::Cons { head, tail } => {
            let h = inner(head);
            let t = inner(tail);
            let r1 = resolve_expr(b, h);
            let r2 = resolve_exprs(r1, t);
            expr_touches_its_nodes(b, h);
            exprs_touch_their_nodes(r1, t);
            unresolved_within(b.locals, ids_exprs(l), ids_expr(h), limit);
            unresolved_within(b.locals, ids_exprs(l), ids_exprs(t), limit);
            resolved_expr_fits(b, h, limit);
            untouched_stay_unresolved(b, r1, ids_expr(h), ids_exprs(t), limit);
            resolved_exprs_fit(r1, t, limit);
            touched_elsewhere(r1, r2, ids_expr(h), ids_exprs(t));
            expr_fits_by_its_nodes(h, b.scopes.len(), records_of(r1, limit), records_of(r2, limit));
        },
    }
}

/// After a function is resolved without an error, the distances recorded
/// for the nodes of its body fit one scope further in.
pub proof fn resolved_function_fits(b: Bindings, params: List<Token>, body: List<Rc<Stmt>>, limit: nat)
    requires
        b.error is None,
        resolve_function(b, params, body).error is None,
        proper_stmts(body),
        unresolved(b.locals, ids_stmts(body), limit),
    ensures
        fits_stmts(body, b.scopes.len() + 1, records_of(resolve_function(b, params, body), limit)),
    decreases body, 1nat,
{
    let opened = begin_scope(b);
    let declared = note_params(opened, params);
    params_touch_nothing(opened, params);
    resolved_stmts_fit(declared, body, limit);
}

/// After the statements of a list are resolved without an error, the
/// distances recorded for their nodes fit.
pub proof fn resolved_stmts_fit(b: Bindings, l: List<Rc<Stmt>>, limit: nat)
    requires
        b.error is None,
        resolve_stmts(b, l).error is None,
        proper_stmts(l),
        unresolved(b.locals, ids_stmts(l), limit),
    ensures
        fits_stmts(l, b.scopes.len(), records_of(resolve_stmts(b, l), limit)),
    decreases l, 0nat,
{
    match l {
        List::Nil => {},
        List::Cons { head, tail } => {
            let h = inner(head);
            let t = inner(tail);
            let r1 = resolve_stmt(b, h);
            let r2 = resolve_stmts(r1, t);
            stmt_touches_its_nodes(b, h);
            stmts_touch_their_nodes(r1, t);
            unresolved_within(b.locals, ids_stmts(l), ids_stmt(h), limit);
            unresolved_within(b.locals, ids_stmts(l), ids_stmts(t), limit);
            resolved_stmt_fits(b, h, limit);
            untouched_stay_unresolved(b, r1, ids_stmt(h), ids_stmts(t), limit);
            resolved_stmts_fit(r1, t, limit);
            touched_elsewhere(r1, r2, ids_stmt(h), ids_stmts(t));
            stmt_fits_by_its_nodes(h, b.scopes.len(), records_of(r1, limit), records_of(r2, limit));
        },
    }
}

/// After a statement is resolved without an error, the distances
/// recorded for its nodes fit the scopes it was resolved in.
pub proof fn resolved_stmt_fits(b: Bindings, s: Stmt, limit: nat)
    requires
        b.error is None,
        resolve_stmt(b, s).error is None,
        proper_stmt(s),
        unresolved(b.locals, ids_stmt(s), limit),
    ensures
        fits_stmt(s, b.scopes.len(), records_of(resolve_stmt(b, s), limit)),
    decreases s, 0nat,
{
    let n = b.scopes.len();
    match s {
        Stmt::Block { stmts } => {
            let l = inner(stmts);
            resolved_stmts_fit(begin_scope(b), l, limit);
        },
        Stmt::Var { name, initializer } => {
            let e = inner(initializer);
            resolved_expr_fits(note(b, name, false), e, limit);
        },
        Stmt::Function { name, params, body } => {
            let named = note(note(b, name, false), name, true);
            resolved_function_fits(named, inner(params), inner(body), limit);
        },
        Stmt::Expression { expression } => {
            resolved_expr_fits(b, inner(expression), limit);
        },
        Stmt::Print { expression } => {
            resolved_expr_fits(b, inner(expression), limit);
        },
        Stmt::Return { keyword, value } => {
            match value {
                Some(e) => {
                    resolved_expr_fits(b, inner(e), limit);
                },
                None => {},
            }
        },
        Stmt::WhileLoop { cond, body } => {
            let c = inner(cond);
            let d = inner(body);
            let r1 = resolve_expr(b, c);
            let r2 = resolve_stmt(r1, d);
            expr_touches_its_nodes(b, c);
            stmt_touches_its_nodes(r1, d);
            unresolved_within(b.locals, ids_stmt(s), ids_expr(c), limit);
            unresolved_within(b.locals, ids_stmt(s), ids_stmt(d), limit);
            resolved_expr_fits(b, c, limit);
            untouched_stay_unresolved(b, r1, ids_expr(c), ids_stmt(d), limit);
            resolved_stmt_fits(r1, d, limit);
            touched_elsewhere(r1, r2, ids_expr(c), ids_stmt(d));
            expr_fits_by_its_nodes(c, n, records_of(r1, limit), records_of(r2, limit));
        },
        Stmt::IfElse { predicate, then_branch, else_branch } => {
            let p = inner(predicate);
            let t = inner(then_branch);
            let r1 = resolve_expr(b, p);
            let r2 = resolve_stmt(r1, t);
            expr_touches_its_nodes(b, p);
            stmt_touches_its_nodes(r1, t);
            unresolved_within(b.locals, ids_stmt(s), ids_expr(p), limit);
            unresolved_within(b.locals, ids_stmt(s), ids_stmt(t), limit);
            match else_branch {
                Some(other) => {
                    let o = inner(other);
                    let r3 = resolve_stmt(r2, o);
                    stmt_touches_its_nodes(r2, o);
                    unresolved_within(b.locals, ids_stmt(s), ids_stmt(o), limit);
                    resolved_expr_fits(b, p, limit);
                    untouched_stay_unresolved(b, r1, ids_expr(p), ids_stmt(t), limit);
                    resolved_stmt_fits(r1, t, limit);
                    untouched_stay_unresolved(b, r1, ids_expr(p), ids_stmt(o), limit);
                    untouched_stay_unresolved(r1, r2, ids_stmt(t), ids_stmt(o), limit);
                    resolved_stmt_fits(r2, o, limit);
                    touched_elsewhere(r1, r2, ids_expr(p), ids_stmt(t));
                    expr_fits_by_its_nodes(p, n, records_of(r1, limit), records_of(r2, limit));
                    touched_elsewhere(r2, r3, ids_expr(p), ids_stmt(o));
                    expr_fits_by_its_nodes(p, n, records_of(r2, limit), records_of(r3, limit));
                    touched_elsewhere(r2, r3, ids_stmt(t), ids_stmt(o));
                    stmt_fits_by_its_nodes(t, n, records_of(r2, limit), records_of(r3, limit));
                },
                None => {
                    resolved_expr_fits(b, p, limit);
                    untouched_stay_unresolved(b, r1, ids_expr(p), ids_stmt(t), limit);
                    resolved_stmt_fits(r1, t, limit);
                    touched_elsewhere(r1, r2, ids_expr(p), ids_stmt(t));
                    expr_fits_by_its_nodes(p, n, records_of(r1, limit), records_of(r2, limit));
                },
            }
        },
    }
}

/// Whether every identity in `ids` lies from `lo` up to, but not
/// including, `hi`.
pub open spec fn spanned(ids: Set<usize>, lo: int, hi: int) -> bool {
    forall|id: usize| #[trigger] ids.contains(id) ==> lo <= id < hi
}

/// The nodes of an expression that fits are among the nodes resolved so
/// far.
pub proof fn fitting_expr_is_resolved(e: Expr, n: nat, r: Records)
    requires
        fits_expr(e, n, r),
    ensures
        spanned(ids_expr(e), 0, r.limit as int),
    decreases e, 0nat,
{
    match e {
        Expr::Variable { name, id } => {},
        Expr::Assign { name, value, id } => {
            fitting_expr_is_resolved(inner(value), n, r);
        },
        Expr::Binary { left, operator, right } => {
            fitting_expr_is_resolved(inner(left), n, r);
            fitting_expr_is_resolved(inner(right), n, r);
        },
        Expr::Logical { left, operator, right } => {
            fitting_expr_is_resolved(inner(left), n, r);
            fitting_expr_is_resolved(inner(right), n, r);
        },
        Expr::Call { callee, paren, args } => {
            fitting_expr_is_resolved(inner(callee), n, r);
            fitting_exprs_are_resolved(inner(args), n, r);
        },
        Expr::Grouping { expression } => {
            fitting_expr_is_resolved(inner(expression), n, r);
        },
        Expr::Literal { literal } => {},
        Expr::Unary { operator, right } => {
            fitting_expr_is_resolved(inner(right), n, r);
        },
        Expr::AnonFunc { paren, args, body } => {
            fitting_stmts_are_resolved(inner(body), n + 1, r);
        },
    }
}

/// The nodes of expressions that fit are among the nodes resolved so far.
pub proof fn fitting_exprs_are_resolved(l: List<Rc<Expr>>, n: nat, r: Records)
    requires
        fits_exprs(l, n, r),
    ensures
        spanned(ids_exprs(l), 0, r.limit as int),
    decreases l, 0nat,
{
    match l {
        List::Nil => {},
        List::Cons { head, tail } => {
            fitting_expr_is_resolved(inner(head), n, r);
            fitting_exprs_are_resolved(inner(tail), n, r);
        },
    }
}

/// The nodes of statements that fit are among the nodes resolved so far.
pub proof fn fitting_stmts_are_resolved(l: List<Rc<Stmt>>, n: nat, r: Records)
    requires
        fits_stmts(l, n, r),
    ensures
        spanned(ids_stmts(l), 0, r.limit as int),
    decreases l, 0nat,
{
    match l {
        List::Nil => {},
        List::Cons { head, tail } => {
            fitting_stmt_is_resolved(inner(head), n, r);
            fitting_stmts_are_resolved(inner(tail), n, r);
        },
    }
}

/// The nodes of a statement that fits are among the nodes resolved so
/// far.
pub proof fn fitting_stmt_is_resolved(s: Stmt, n: nat, r: Records)
    requires
        fits_stmt(s, n, r),
    ensures
        spanned(ids_stmt(s), 0, r.limit as int),
    decreases s, 0nat,
{
    match s {
        Stmt::Expression { expression } => {
            fitting_expr_is_resolved(inner(expression), n, r);
        },
        Stmt::Print { expression } => {
            fitting_expr_is_resolved(inner(expression), n, r);
        },
        Stmt::Var { name, initializer } => {
            fitting_expr_is_resolved(inner(initializer), n, r);
        },
        Stmt::Block { stmts } => {
            fitting_stmts_are_resolved(inner(stmts), n + 1, r);
        },
        Stmt::IfElse { predicate, then_branch, else_branch } => {
            fitting_expr_is_resolved(inner(predicate), n, r);
            fitting_stmt_is_resolved(inner(then_branch), n, r);
            match else_branch {
                Some(other) => {
                    fitting_stmt_is_resolved(inner(other), n, r);
                },
                None => {},
            }
        },
        Stmt::WhileLoop { cond, body } => {
            fitting_expr_is_resolved(inner(cond), n, r);
            fitting_stmt_is_resolved(inner(body), n, r);
        },
        Stmt::Function { name, params, body } => {
            fitting_stmts_are_resolved(inner(body), n + 1, r);
        },
        Stmt::Return { keyword, value } => {
            match value {
                Some(e) => {
                    fitting_expr_is_resolved(inner(e), n, r);
                },
                None => {},
            }
        },
    }
}

/// Identities that lie in a stretch lie in every wider one.
pub proof fn stretch_widens(a: Set<usize>, lo: int, hi: int, lower: int, higher: int)
    requires
        spanned(a, lo, hi),
        lower <= lo,
        hi <= higher,
    ensures
        spanned(a, lower, higher),
{
    assert forall|id: usize| #[trigger] a.contains(id) implies lower <= id < higher by {}
}

/// Resolving a program is resolving the list of its statements.
pub proof fn program_is_its_list(b: Bindings, stmts: Seq<Stmt>)
    ensures
        resolve_program(b, stmts) == resolve_stmts(b, List::of(crate::interpreter::handles(stmts))),
    decreases stmts.len(),
{
    let handles = crate::interpreter::handles(stmts);
    if b.error is None && stmts.len() > 0 {
        program_is_its_list(resolve_stmt(b, stmts[0]), stmts.drop_first());
        assert(handles.drop_first() =~= crate::interpreter::handles(stmts.drop_first()));
        assert(handles[0] == Rc::new(stmts[0]));
    }
}

/// The list of statements with one more statement at its end: it is
/// proper if the list and the statement are and share no node, and its
/// nodes are those of the two.
pub proof fn one_more_stmt(items: Seq<Rc<Stmt>>, next: Rc<Stmt>)
    requires
        proper_stmts(List::of(items)),
        proper_stmt(*next),
        ids_stmts(List::of(items)).disjoint(ids_stmt(*next)),
    ensures
        proper_stmts(List::of(items.push(next))),
        ids_stmts(List::of(items.push(next))) == ids_stmts(List::of(items)).union(ids_stmt(*next)),
    decreases items.len(),
{
    let longer = items.push(next);
    if items.len() == 0 {
        assert(longer.drop_first() =~= Seq::<Rc<Stmt>>::empty());
        assert(items =~= Seq::<Rc<Stmt>>::empty());
        let none = List::of(Seq::<Rc<Stmt>>::empty());
        assert(none == List::<Rc<Stmt>>::Nil);
        assert(ids_stmts(none) == Set::<usize>::empty());
        assert(proper_stmts(none));
        assert(longer[0] == next);
        assert(ids_stmts(List::of(longer)) == ids_stmt(*next).union(ids_stmts(none)));
        assert(ids_stmts(List::of(longer)) =~= ids_stmts(List::of(items)).union(ids_stmt(*next)));
    } else {
        assert(longer.drop_first() =~= items.drop_first().push(next));
        assert(longer[0] == items[0]);
        let rest = items.drop_first();
        assert(ids_stmts(List::of(items)) == ids_stmt(*items[0]).union(ids_stmts(List::of(rest))));
        assert(ids_stmts(List::of(rest)).disjoint(ids_stmt(*next)));
        one_more_stmt(rest, next);
        assert(ids_stmts(List::of(longer)) =~= ids_stmts(List::of(items)).union(ids_stmt(*next)));
    }
}

/// The same for a list of expressions.
pub proof fn one_more_expr(items: Seq<Rc<Expr>>, next: Rc<Expr>)
    requires
        proper_exprs(List::of(items)),
        proper_expr(*next),
        ids_exprs(List::of(items)).disjoint(ids_expr(*next)),
    ensures
        proper_exprs(List::of(items.push(next))),
        ids_exprs(List::of(items.push(next))) == ids_exprs(List::of(items)).union(ids_expr(*next)),
    decreases items.len(),
{
    let longer = items.push(next);
    if items.len() == 0 {
        assert(longer.drop_first() =~= Seq::<Rc<Expr>>::empty());
        assert(items =~= Seq::<Rc<Expr>>::empty());
        let none = List::of(Seq::<Rc<Expr>>::empty());
        assert(none == List::<Rc<Expr>>::Nil);
        assert(ids_exprs(none) == Set::<usize>::empty());
        assert(proper_exprs(none));
        assert(longer[0] == next);
        assert(ids_exprs(List::of(longer)) == ids_expr(*next).union(ids_exprs(none)));
        assert(ids_exprs(List::of(longer)) =~= ids_exprs(List::of(items)).union(ids_expr(*next)));
    } else {
        assert(longer.drop_first() =~= items.drop_first().push(next));
        assert(longer[0] == items[0]);
        let rest = items.drop_first();
        assert(ids_exprs(List::of(items)) == ids_expr(*items[0]).union(ids_exprs(List::of(rest))));
        assert(ids_exprs(List::of(rest)).disjoint(ids_expr(*next)));
        one_more_expr(rest, next);
        assert(ids_exprs(List::of(longer)) =~= ids_exprs(List::of(items)).union(ids_expr(*next)));
    }
}

/// Identities that lie in one stretch and identities that lie in a later
/// one share nothing, and together lie in the stretch that spans both.
pub proof fn stretches_join(a: Set<usize>, b: Set<usize>, lo: int, mid: int, next: int, hi: int)
    requires
        spanned(a, lo, mid),
        spanned(b, next, hi),
        lo <= mid <= next <= hi,
    ensures
        a.disjoint(b),
        b.disjoint(a),
        spanned(a.union(b), lo, hi),
        spanned(a, lo, hi),
        spanned(b, lo, hi),
{
    assert forall|id: usize| a.contains(id) implies !b.contains(id) by {}
    assert forall|id: usize| #[trigger] a.union(b).contains(id) implies lo <= id < hi by {
        if a.contains(id) {
        } else {
            assert(b.contains(id));
        }
    }
    assert forall|id: usize| #[trigger] a.contains(id) implies lo <= id < hi by {}
    assert forall|id: usize| #[trigger] b.contains(id) implies lo <= id < hi by {}
}

/// A list of two statements: it is proper if the two are and share no
/// node, and its nodes are those of the two.
pub proof fn two_stmts(first: Rc<Stmt>, second: Rc<Stmt>)
    requires
        proper_stmt(*first),
        proper_stmt(*second),
        ids_stmt(*first).disjoint(ids_stmt(*second)),
    ensures
        proper_stmts(List::of(seq![first, second])),
        ids_stmts(List::of(seq![first, second])) == ids_stmt(*first).union(ids_stmt(*second)),
{
    let none = Seq::<Rc<Stmt>>::empty();
    assert(List::of(none) == List::<Rc<Stmt>>::Nil);
    assert(proper_stmts(List::of(none)));
    assert(ids_stmts(List::of(none)) == Set::<usize>::empty());
    one_more_stmt(none, first);
    one_more_stmt(none.push(first), second);
    assert(none.push(first).push(second) =~= seq![first, second]);
    assert(ids_stmts(List::of(none)).union(ids_stmt(*first)).union(ids_stmt(*second)) =~= ids_stmt(*first).union(
        ids_stmt(*second),
    ));
}

/// The empty lists are proper and have no nodes.
pub proof fn empty_lists_are_proper()
    ensures
        proper_stmts(List::of(Seq::<Rc<Stmt>>::empty())),
        ids_stmts(List::of(Seq::<Rc<Stmt>>::empty())) == Set::<usize>::empty(),
        proper_exprs(List::of(Seq::<Rc<Expr>>::empty())),
        ids_exprs(List::of(Seq::<Rc<Expr>>::empty())) == Set::<usize>::empty(),
{
    assert(List::of(Seq::<Rc<Stmt>>::empty()) == List::<Rc<Stmt>>::Nil);
    assert(List::of(Seq::<Rc<Expr>>::empty()) == List::<Rc<Expr>>::Nil);
}

/// Whether two records say the same of every node resolved before the
/// first was made, and the second knows of at least as many nodes.
pub open spec fn extends(a: Records, b: Records) -> bool {
    &&& a.limit <= b.limit
    &&& forall|id: usize| (id as nat) < a.limit ==> #[trigger] same(a.map, b.map, id)
}

/// An expression that fits still fits when more nodes are resolved.
pub proof fn expr_still_fits(e: Expr, n: nat, a: Records, b: Records)
    requires
        fits_expr(e, n, a),
        extends(a, b),
    ensures
        fits_expr(e, n, b),
{
    fitting_expr_is_resolved(e, n, a);
    assert(alike(a.map, b.map, ids_expr(e)));
    expr_fits_by_its_nodes(e, n, a, b);
}

/// Expressions that fit still fit when more nodes are resolved.
pub proof fn exprs_still_fit(l: List<Rc<Expr>>, n: nat, a: Records, b: Records)
    requires
        fits_exprs(l, n, a),
        extends(a, b),
    ensures
        fits_exprs(l, n, b),
{
    fitting_exprs_are_resolved(l, n, a);
    assert(alike(a.map, b.map, ids_exprs(l)));
    exprs_fit_by_their_nodes(l, n, a, b);
}

/// A statement that fits still fits when more nodes are resolved.
pub proof fn stmt_still_fits(s: Stmt, n: nat, a: Records, b: Records)
    requires
        fits_stmt(s, n, a),
        extends(a, b),
    ensures
        fits_stmt(s, n, b),
{
    fitting_stmt_is_resolved(s, n, a);
    assert(alike(a.map, b.map, ids_stmt(s)));
    stmt_fits_by_its_nodes(s, n, a, b);
}

/// Statements that fit still fit when more nodes are resolved.
pub proof fn stmts_still_fit(l: List<Rc<Stmt>>, n: nat, a: Records, b: Records)
    requires
        fits_stmts(l, n, a),
        extends(a, b),
    ensures
        fits_stmts(l, n, b),
{
    fitting_stmts_are_resolved(l, n, a);
    assert(alike(a.map, b.map, ids_stmts(l)));
    stmts_fit_by_their_nodes(l, n, a, b);
}

/// A value that fits still fits when more nodes are resolved.
proof fn value_still_fits(scopes: Seq<crate::environments::Scope>, a: Records, b: Records, v: crate::expr::LiteralValue)
    requires
        value_fits(scopes, a, v),
        extends(a, b),
    ensures
        value_fits(scopes, b, v),
{
    match v {
        crate::expr::LiteralValue::Callable { name, arity, fun } => {
            let code = inner(fun);
            stmts_still_fit(inner(code.body), depth(scopes, code.closure) + 1, a, b);
        },
        _ => {},
    }
}

/// An entry of the pending work that fits still fits when more nodes are
/// resolved.
proof fn entry_still_fits(scopes: Seq<crate::environments::Scope>, a: Records, b: Records, k: Kont)
    requires
        entry_fits(scopes, a, k),
        extends(a, b),
    ensures
        entry_fits(scopes, b, k),
{
    match k {
        Kont::BinaryLeft { operator, right, env } => {
            expr_still_fits(inner(right), depth(scopes, env), a, b);
        },
        Kont::BinaryRight { operator, left } => {
            value_still_fits(scopes, a, b, left);
        },
        Kont::Logical { operator, right, env } => {
            expr_still_fits(inner(right), depth(scopes, env), a, b);
        },
        Kont::Callee { paren, args, env } => {
            exprs_still_fit(inner(args), depth(scopes, env), a, b);
        },
        Kont::Branch { then_branch, else_branch, env } => {
            stmt_still_fits(inner(then_branch), depth(scopes, env), a, b);
            match else_branch {
                Some(s) => {
                    stmt_still_fits(inner(s), depth(scopes, env), a, b);
                },
                None => {},
            }
        },
        Kont::Loop { cond, body, env } => {
            expr_still_fits(inner(cond), depth(scopes, env), a, b);
            stmt_still_fits(inner(body), depth(scopes, env), a, b);
        },
        Kont::Repeat { cond, body, env } => {
            expr_still_fits(inner(cond), depth(scopes, env), a, b);
            stmt_still_fits(inner(body), depth(scopes, env), a, b);
        },
        Kont::Arguments { params, args, frame, env } => {
            exprs_still_fit(inner(args), depth(scopes, env), a, b);
        },
        Kont::Sequence { rest, env } => {
            stmts_still_fit(inner(rest), depth(scopes, env), a, b);
        },
        _ => {},
    }
}

/// A state with which the records agree is one with which they still
/// agree when more nodes are resolved.
pub proof fn more_records_agree(m: Machine, limit: nat, locals: Map<usize, usize>, more: nat)
    requires
        agrees(m, limit),
        extends(records(m, limit), Records { map: locals, limit: more }),
    ensures
        agrees(Machine { mode: m.mode, kont: m.kont, scopes: m.scopes, locals }, more),
{
    let a = records(m, limit);
    let b = Records { map: locals, limit: more };
    let after = Machine { mode: m.mode, kont: m.kont, scopes: m.scopes, locals };
    assert(records(after, more) == b);
    match m.mode {
        Mode::Eval { expr, env } => {
            expr_still_fits(inner(expr), depth(m.scopes, env), a, b);
        },
        Mode::Exec { stmt, env } => {
            stmt_still_fits(inner(stmt), depth(m.scopes, env), a, b);
        },
        Mode::Value(v) => {
            value_still_fits(m.scopes, a, b, v);
        },
        Mode::Return(v) => {
            value_still_fits(m.scopes, a, b, v);
        },
        _ => {},
    }
    assert forall|j: int| 0 <= j < m.kont.len() implies entry_fits(m.scopes, b, #[trigger] m.kont[j]) by {
        assert(entry_fits(m.scopes, a, m.kont[j]));
        entry_still_fits(m.scopes, a, b, m.kont[j]);
    }
    assert forall|i: int, name: Seq<char>|
        0 <= i < m.scopes.len() && m.scopes[i].bindings.contains_key(name) implies value_fits(
        m.scopes,
        b,
        #[trigger] m.scopes[i].bindings[name],
    ) by {
        assert(value_fits(m.scopes, a, m.scopes[i].bindings[name]));
        value_still_fits(m.scopes, a, b, m.scopes[i].bindings[name]);
    }
}

/// Beginning a run of a program that fits the global frame, in a state
/// with which the records agree, gives a state with which they agree.
pub proof fn loaded_agrees(m: Machine, program: Seq<Stmt>, limit: nat)
    requires
        agrees(m, limit),
        fits_stmts(List::of(handles(program)), 0, records(m, limit)),
    ensures
        agrees(loaded(m, program), limit),
{
    let k = Kont::Sequence { rest: Rc::new(List::of(handles(program))), env: 0 };
    let kont = seq![k];
    assert(kont[0] == k);
    assert(depth(m.scopes, 0) == 0);
    assert forall|j: int| 0 <= j < kont.len() implies entry_fits(m.scopes, records(m, limit), #[trigger] kont[j]) by {}
}

/// Whether every node that has a distance recorded is among the first
/// `limit` nodes.
pub open spec fn keys_below(locals: Map<usize, usize>, limit: nat) -> bool {
    forall|id: usize| #[trigger] locals.contains_key(id) ==> (id as nat) < limit
}

/// What resolving a properly numbered program leaves behind: records that
/// extend those before, that know of no node beyond the program's, and,
/// if resolution met no error, that fit the program at global level.
pub proof fn resolved_program_fits(m: Machine, limit: nat, program: Seq<Stmt>, more: nat)
    requires
        keys_below(m.locals, limit),
        proper_stmts(List::of(handles(program))),
        spanned(ids_stmts(List::of(handles(program))), limit as int, more as int),
        limit <= more,
    ensures
        ({
            let r = resolve_program(Bindings { scopes: Seq::empty(), locals: m.locals, error: None }, program);
            &&& extends(records(m, limit), Records { map: r.locals, limit: more })
            &&& keys_below(r.locals, more)
            &&& r.error is None ==> fits_stmts(List::of(handles(program)), 0, Records { map: r.locals, limit: more })
        }),
{
    let b = Bindings { scopes: Seq::empty(), locals: m.locals, error: None };
    let list = List::of(handles(program));
    let r = resolve_program(b, program);
    program_is_its_list(b, program);
    stmts_touch_their_nodes(b, list);
    assert forall|id: usize| (id as nat) < limit implies #[trigger] same(m.locals, r.locals, id) by {
        assert(!ids_stmts(list).contains(id));
        assert(same(r.locals, b.locals, id));
    }
    assert forall|id: usize| #[trigger] r.locals.contains_key(id) implies (id as nat) < more by {
        if !ids_stmts(list).contains(id) {
            assert(same(r.locals, b.locals, id));
        }
    }
    if r.error is None {
        assert forall|id: usize| #[trigger] ids_stmts(list).contains(id) implies !b.locals.contains_key(id) && (
        id as nat) < more by {}
        resolved_stmts_fit(b, list, more);
    }
}

} // verus!
