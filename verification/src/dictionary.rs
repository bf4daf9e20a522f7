//! A finite map from names to values, kept as a list of entries in which
//! a later entry for a name hides the earlier ones.

use vstd::prelude::*;

verus! {

/// A map from names to values of type `V`.
pub struct Dictionary<V> {
    entries: Vec<(String, V)>,
}

/// The map that a list of entries stands for.
pub open spec fn entries_map<V>(entries: Seq<(String, V)>) -> Map<Seq<char>, V>
    decreases entries.len(),
{
    if entries.len() == 0 {
        Map::empty()
    } else {
        entries_map(entries.drop_last()).insert(entries.last().0@, entries.last().1)
    }
}

/// Replacing the value of the last entry for a name is an insertion.
proof fn update_is_insert<V>(entries: Seq<(String, V)>, i: int, name: String, value: V)
    requires
        0 <= i < entries.len(),
        entries[i].0@ == name@,
        forall|j: int| i < j < entries.len() ==> entries[j].0@ != name@,
    ensures
        entries_map(entries.update(i, (name, value))) == entries_map(entries).insert(name@, value),
    decreases entries.len(),
{
    let changed = entries.update(i, (name, value));
    if i == entries.len() - 1 {
        assert(changed.drop_last() =~= entries.drop_last());
        assert(entries_map(changed) =~= entries_map(entries).insert(name@, value));
    } else {
        update_is_insert(entries.drop_last(), i, name, value);
        assert(changed.drop_last() =~= entries.drop_last().update(i, (name, value)));
        assert(changed.last() == entries.last());
        assert(entries_map(changed) =~= entries_map(entries).insert(name@, value));
    }
}

impl<V> Dictionary<V> {
    pub closed spec fn view(&self) -> Map<Seq<char>, V> {
        entries_map(self.entries@)
    }

    pub fn new() -> (r: Self)
        ensures
            r@ == Map::<Seq<char>, V>::empty(),
    {
        Dictionary { entries: Vec::new() }
    }

    /// The index of the last entry for `name`.
    fn find(&self, name: &String) -> (r: Option<usize>)
        ensures
            match r {
                Some(i) => {
                    &&& i < self.entries@.len()
                    &&& self.entries@[i as int].0@ == name@
                    &&& forall|j: int| i < j < self.entries@.len() ==> self.entries@[j].0@ != name@
                    &&& self@.contains_key(name@)
                    &&& self@[name@] == self.entries@[i as int].1
                },
                None => !self@.contains_key(name@),
            },
    {
        let mut i: usize = self.entries.len();
        proof {
            assert(self.entries@.take(i as int) =~= self.entries@);
        }
        while i > 0
            invariant
                0 <= i <= self.entries@.len(),
                forall|j: int| i <= j < self.entries@.len() ==> self.entries@[j].0@ != name@,
                self@.contains_key(name@) == entries_map(self.entries@.take(i as int)).contains_key(name@),
                self@.contains_key(name@) ==> self@[name@] == entries_map(self.entries@.take(i as int))[name@],
            decreases i,
        {
            proof {
                assert(self.entries@.take(i as int).drop_last() =~= self.entries@.take(i - 1));
            }
            i -= 1;
            if self.entries[i].0 == *name {
                return Some(i);
            }
        }
        proof {
            assert(self.entries@.take(0).len() == 0);
        }
        None
    }

    /// The value bound to `name`, if any.
    pub fn get(&self, name: &String) -> (r: Option<&V>)
        ensures
            match r {
                Some(v) => self@.contains_key(name@) && self@[name@] == *v,
                None => !self@.contains_key(name@),
            },
    {
        match self.find(name) {
            Some(i) => Some(&self.entries[i].1),
            None => None,
        }
    }

    pub fn contains(&self, name: &String) -> (r: bool)
        ensures
            r == self@.contains_key(name@),
    {
        self.find(name).is_some()
    }

    /// Binds `name` to `value`, whether or not it was bound before.
    pub fn insert(&mut self, name: String, value: V)
        ensures
            final(self)@ == old(self)@.insert(name@, value),
    {
        match self.find(&name) {
            Some(i) => {
                proof {
                    update_is_insert(self.entries@, i as int, name, value);
                }
                self.entries.set(i, (name, value));
            },
            None => {
                self.entries.push((name, value));
                proof {
                    assert(self.entries@.drop_last() =~= old(self).entries@);
                }
            },
        }
    }
}

} // verus!
