//! Statements.

use vstd::prelude::*;
use std::rc::Rc;
use crate::expr::{Expr, expr_text};
use crate::list::List;
use crate::scanner::Token;
use crate::text::append;

verus! {

/// A statement.
#[derive(Debug)]
#[allow(inconsistent_fields)]
pub enum Stmt {
    Expression { expression: Rc<Expr> },
    Print { expression: Rc<Expr> },
    Var { name: Token, initializer: Rc<Expr> },
    Block { stmts: Rc<List<Rc<Stmt>>> },
    IfElse { predicate: Rc<Expr>, then_branch: Rc<Stmt>, else_branch: Option<Rc<Stmt>> },
    WhileLoop { cond: Rc<Expr>, body: Rc<Stmt> },
    Function { name: Token, params: Rc<List<Token>>, body: Rc<List<Rc<Stmt>>> },
    Return { keyword: Token, value: Option<Rc<Expr>> },
}

/// How a statement is written out.
pub open spec fn stmt_text(stmt: Stmt) -> Seq<char>
    decreases stmt,
{
    match stmt {
        Stmt::Var { name, initializer } => "(var "@ + name.lexeme@ + ")"@,
        Stmt::Print { expression } => "(print "@ + expr_text(*expression) + ")"@,
        Stmt::Expression { expression } => expr_text(*expression),
        Stmt::Block { stmts } => stmts_text(*stmts),
        Stmt::IfElse { predicate, then_branch, else_branch } => "(if "@ + expr_text(*predicate) + " "@ + stmt_text(
            *then_branch,
        ) + (match else_branch {
            Some(s) => " "@ + stmt_text(*s),
            None => Seq::empty(),
        }) + ")"@,
        Stmt::WhileLoop { cond, body } => "(while "@ + expr_text(*cond) + " "@ + stmt_text(*body) + ")"@,
        Stmt::Function { name, params, body } => "(fun "@ + name.lexeme@ + ")"@,
        Stmt::Return { keyword, value } => "(return"@ + (match value {
            Some(e) => " "@ + expr_text(*e),
            None => Seq::empty(),
        }) + ")"@,
    }
}

/// How the statements of a list are written out: one after the other.
pub open spec fn stmts_text(l: List<Rc<Stmt>>) -> Seq<char>
    decreases l,
{
    match l {
        List::Nil => Seq::empty(),
        List::Cons { head, tail } => stmt_text(*head) + stmts_text(*tail),
    }
}

impl Stmt {
    pub fn to_string(&self) -> (r: String)
        ensures
            r@ == stmt_text(*self),
        decreases self,
    {
        match self {
            Stmt::Var { name, initializer } => {
                let mut s = String::from_str("(var ");
                append(&mut s, name.lexeme.as_str());
                append(&mut s, ")");
                s
            },
            Stmt::Print { expression } => {
                let mut s = String::from_str("(print ");
                append(&mut s, (&**expression).to_string().as_str());
                append(&mut s, ")");
                s
            },
            Stmt::Expression { expression } => (&**expression).to_string(),
            Stmt::Block { stmts } => {
                let mut s = String::new();
                let mut cur: &List<Rc<Stmt>> = &**stmts;
                proof {
                    assert(Seq::<char>::empty() + stmts_text(**stmts) =~= stmts_text(**stmts));
                }
                loop
                    invariant
                        stmts_text(**stmts) == s@ + stmts_text(*cur),
                        *cur == **stmts || decreases_to!(self => cur),
                        self matches Stmt::Block { stmts: b } && b == stmts,
                    ensures
                        s@ == stmts_text(**stmts),
                    decreases cur,
                {
                    match cur {
                        List::Nil => {
                            proof {
                                assert(s@ + Seq::<char>::empty() =~= s@);
                            }
                            break ;
                        },
                        List::Cons { head, tail } => {
                            let ghost was = s@;
                            let item = (&**head).to_string();
                            append(&mut s, item.as_str());
                            proof {
                                assert(was + (stmt_text(**head) + stmts_text(**tail)) =~= s@ + stmts_text(**tail));
                            }
                            cur = &**tail;
                        },
                    }
                }
                s
            },
            Stmt::IfElse { predicate, then_branch, else_branch } => {
                let mut s = String::from_str("(if ");
                append(&mut s, (&**predicate).to_string().as_str());
                append(&mut s, " ");
                append(&mut s, (&**then_branch).to_string().as_str());
                match else_branch {
                    Some(e) => {
                        let ghost was = s@;
                        append(&mut s, " ");
                        append(&mut s, (&**e).to_string().as_str());
                        proof {
                            assert(s@ =~= was + (" "@ + stmt_text(**e)));
                        }
                    },
                    None => {
                        proof {
                            assert(s@ + Seq::<char>::empty() =~= s@);
                        }
                    },
                }
                append(&mut s, ")");
                s
            },
            Stmt::WhileLoop { cond, body } => {
                let mut s = String::from_str("(while ");
                append(&mut s, (&**cond).to_string().as_str());
                append(&mut s, " ");
                append(&mut s, (&**body).to_string().as_str());
                append(&mut s, ")");
                s
            },
            Stmt::Function { name, params, body } => {
                let mut s = String::from_str("(fun ");
                append(&mut s, name.lexeme.as_str());
                append(&mut s, ")");
                s
            },
            Stmt::Return { keyword, value } => {
                let mut s = String::from_str("(return");
                match value {
                    Some(e) => {
                        let ghost was = s@;
                        append(&mut s, " ");
                        append(&mut s, (&**e).to_string().as_str());
                        proof {
                            assert(s@ =~= was + (" "@ + expr_text(**e)));
                        }
                    },
                    None => {
                        proof {
                            assert(s@ + Seq::<char>::empty() =~= s@);
                        }
                    },
                }
                append(&mut s, ")");
                s
            },
        }
    }
}

} // verus!
