//! Immutable singly linked lists whose tails are shared.

use vstd::prelude::*;
use std::rc::Rc;

verus! {

/// Hands out another handle to the same shared value: `Rc::clone`. The
/// contract claims that the new handle refers to a value equal to the one
/// behind `r`.
#[verifier::external_body]
pub(crate) fn share<T>(r: &Rc<T>) -> (out: Rc<T>)
    ensures
        out == *r,
{
    r.clone()
}

/// A list of items, first item outermost.
#[derive(Debug)]
pub enum List<T> {
    Nil,
    Cons { head: T, tail: Rc<List<T>> },
}

impl<T> List<T> {
    /// The items of the list, in order.
    pub open spec fn seq(&self) -> Seq<T>
        decreases self,
    {
        match self {
            List::Nil => Seq::empty(),
            List::Cons { head, tail } => seq![*head] + tail.seq(),
        }
    }

    /// The list that holds the items of `s`, in order.
    pub open spec fn of(s: Seq<T>) -> List<T>
        decreases s.len(),
    {
        if s.len() == 0 {
            List::Nil
        } else {
            List::Cons { head: s[0], tail: Rc::new(List::of(s.drop_first())) }
        }
    }

    /// `of` undoes `seq`.
    pub proof fn of_seq(&self)
        ensures
            List::of(self.seq()) == *self,
        decreases self,
    {
        match self {
            List::Nil => {},
            List::Cons { head, tail } => {
                tail.of_seq();
                assert(self.seq().drop_first() =~= tail.seq());
            },
        }
    }

    /// `seq` undoes `of`.
    pub proof fn seq_of(s: Seq<T>)
        ensures
            List::of(s).seq() == s,
        decreases s.len(),
    {
        if s.len() > 0 {
            List::seq_of(s.drop_first());
            assert(seq![s[0]] + s.drop_first() =~= s);
        } else {
            assert(List::<T>::of(s).seq() =~= s);
        }
    }

    /// The empty list.
    pub fn empty() -> (r: Rc<List<T>>)
        ensures
            *r == List::<T>::Nil,
    {
        Rc::new(List::Nil)
    }

    /// The list with `head` put in front of `tail`.
    pub fn cons(head: T, tail: Rc<List<T>>) -> (r: Rc<List<T>>)
        ensures
            *r == (List::Cons { head, tail }),
    {
        Rc::new(List::Cons { head, tail })
    }

    /// Moves the items of a vector into a list, keeping their order.
    pub fn from_vec(items: Vec<T>) -> (r: Rc<List<T>>)
        ensures
            *r == List::of(items@),
    {
        let mut items = items;
        let ghost all = items@;
        let mut list: Rc<List<T>> = Rc::new(List::Nil);
        while items.len() > 0
            invariant
                items@.len() <= all.len(),
                items@ == all.subrange(0, items@.len() as int),
                *list == List::of(all.subrange(items@.len() as int, all.len() as int)),
            decreases items.len(),
        {
            let ghost n = items@.len() as int;
            let item = items.pop().unwrap();
            proof {
                let rest = all.subrange(n - 1, all.len() as int);
                assert(rest[0] == item);
                assert(rest.drop_first() =~= all.subrange(n, all.len() as int));
                assert(items@ =~= all.subrange(0, n - 1));
            }
            list = Rc::new(List::Cons { head: item, tail: list });
        }
        proof {
            assert(all.subrange(0, all.len() as int) =~= all);
        }
        list
    }

    /// The number of items, or `usize::MAX` if there are more than that.
    pub fn len(&self) -> (n: usize)
        ensures
            n == if self.seq().len() <= usize::MAX { self.seq().len() } else { usize::MAX as nat },
        decreases self,
    {
        match self {
            List::Nil => 0,
            List::Cons { head, tail } => {
                let rest = (&**tail).len();
                if rest < usize::MAX {
                    rest + 1
                } else {
                    rest
                }
            },
        }
    }
}

} // verus!
