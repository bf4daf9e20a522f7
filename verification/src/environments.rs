//! Scope frames: each frame binds names to values and may name the frame
//! that encloses it. Frames are addressed by their index, so every holder
//! of an index sees what any other holder wrote.

use vstd::prelude::*;
use crate::dictionary::Dictionary;
use crate::expr::{LiteralValue, Native};

verus! {

/// A walk along enclosing links ran out of frames: the distance handed in
/// does not fit the chain it was applied to.
#[derive(Debug, Clone, Copy, PartialEq, Eq, Structural)]
pub struct InternalInvariantViolation;

/// What one frame holds: its bindings, the frame that encloses it, and
/// whether a callable holds on to it, so that it must outlive the block or
/// call that made it.
pub ghost struct Scope {
    pub bindings: Map<Seq<char>, LiteralValue>,
    pub enclosing: Option<usize>,
    pub held: bool,
}

/// One frame.
pub struct Frame {
    values: Dictionary<LiteralValue>,
    enclosing: Option<usize>,
    held: bool,
}

/// A new frame enclosed by `enclosing`: it binds nothing and nothing
/// holds on to it.
pub open spec fn fresh(enclosing: usize) -> Scope {
    Scope { bindings: Map::empty(), enclosing: Some(enclosing), held: false }
}

/// The global frame at the start. It is never given up.
pub open spec fn global_scope() -> Scope {
    Scope { bindings: globals(), enclosing: None, held: true }
}

/// The scopes after a callable has taken hold of frame `at`.
pub open spec fn hold(scopes: Seq<Scope>, at: usize) -> Seq<Scope> {
    if at < scopes.len() {
        scopes.update(
            at as int,
            Scope { bindings: scopes[at as int].bindings, enclosing: scopes[at as int].enclosing, held: true },
        )
    } else {
        scopes
    }
}

/// Whether frame `frame` can be given up: it is the newest frame, it is
/// not the global one, and no callable holds on to it.
pub open spec fn releasable(scopes: Seq<Scope>, frame: usize) -> bool {
    1 <= frame && frame + 1 == scopes.len() && !scopes[frame as int].held
}

/// The scopes after the block or call that made frame `frame` is left:
/// the frame is given up if it can be.
pub open spec fn released(scopes: Seq<Scope>, frame: usize) -> Seq<Scope> {
    if releasable(scopes, frame) {
        scopes.drop_last()
    } else {
        scopes
    }
}

/// All frames made so far. Frame 0 is the global frame.
pub struct Environment {
    frames: Vec<Frame>,
}

/// What the global frame binds at the start: the functions of the
/// embedding program, each under its name.
pub open spec fn globals() -> Map<Seq<char>, LiteralValue> {
    Map::<Seq<char>, LiteralValue>::empty().insert("clock"@, LiteralValue::Native(Native::Clock))
}

/// The frame reached from `frame` after `distance` enclosing links.
pub open spec fn ancestor(scopes: Seq<Scope>, frame: usize, distance: nat) -> Option<usize>
    decreases distance,
{
    if frame >= scopes.len() {
        None
    } else if distance == 0 {
        Some(frame)
    } else {
        match scopes[frame as int].enclosing {
            Some(parent) => ancestor(scopes, parent, (distance - 1) as nat),
            None => None,
        }
    }
}

/// The frame that a reference made in `frame` with binding `distance`
/// speaks of: the global frame when there is no distance.
pub open spec fn target(scopes: Seq<Scope>, frame: usize, distance: Option<usize>) -> Option<usize> {
    match distance {
        None => if scopes.len() > 0 {
            Some(0usize)
        } else {
            None
        },
        Some(d) => ancestor(scopes, frame, d as nat),
    }
}

/// No frame encloses itself, directly or through others: every enclosing
/// link points to an older frame, and the global frame has none.
pub open spec fn acyclic(scopes: Seq<Scope>) -> bool {
    &&& scopes.len() > 0
    &&& scopes[0].enclosing is None
    &&& forall|i: int|
        0 <= i < scopes.len() ==> match (#[trigger] scopes[i]).enclosing {
            Some(parent) => parent < i,
            None => true,
        }
}

/// The scopes after `name` is bound to `value` in frame `at`.
pub open spec fn bound(scopes: Seq<Scope>, at: usize, name: Seq<char>, value: LiteralValue) -> Seq<Scope> {
    scopes.update(
        at as int,
        Scope {
            bindings: scopes[at as int].bindings.insert(name, value),
            enclosing: scopes[at as int].enclosing,
            held: scopes[at as int].held,
        },
    )
}

/// What `get` returns.
pub open spec fn lookup(scopes: Seq<Scope>, frame: usize, name: Seq<char>, distance: Option<usize>) -> Result<
    Option<LiteralValue>,
    InternalInvariantViolation,
> {
    match target(scopes, frame, distance) {
        None => Err(InternalInvariantViolation),
        Some(t) => if scopes[t as int].bindings.contains_key(name) {
            Ok(Some(scopes[t as int].bindings[name]))
        } else {
            Ok(None)
        },
    }
}

/// What `assign` returns.
pub open spec fn assigned(scopes: Seq<Scope>, frame: usize, name: Seq<char>, distance: Option<usize>) -> Result<
    bool,
    InternalInvariantViolation,
> {
    match target(scopes, frame, distance) {
        None => Err(InternalInvariantViolation),
        Some(t) => Ok(distance is None || scopes[t as int].bindings.contains_key(name)),
    }
}

/// The scopes that `assign` leaves.
pub open spec fn after_assign(
    scopes: Seq<Scope>,
    frame: usize,
    name: Seq<char>,
    value: LiteralValue,
    distance: Option<usize>,
) -> Seq<Scope> {
    match target(scopes, frame, distance) {
        None => scopes,
        Some(t) => if distance is None || scopes[t as int].bindings.contains_key(name) {
            bound(scopes, t, name, value)
        } else {
            scopes
        },
    }
}

impl Environment {
    pub closed spec fn view(&self) -> Seq<Scope> {
        Seq::new(
            self.frames@.len(),
            |i: int|
                Scope {
                    bindings: self.frames@[i].values@,
                    enclosing: self.frames@[i].enclosing,
                    held: self.frames@[i].held,
                },
        )
    }

    /// Holds of every environment that this module hands out.
    pub open spec fn wf(&self) -> bool {
        acyclic(self@)
    }

    /// An environment with the global frame alone, which binds the
    /// functions of the embedding program.
    pub fn new() -> (r: Self)
        ensures
            r.wf(),
            r@ == seq![global_scope()],
    {
        let mut values: Dictionary<LiteralValue> = Dictionary::new();
        values.insert(String::from_str("clock"), LiteralValue::Native(Native::Clock));
        let mut frames: Vec<Frame> = Vec::new();
        frames.push(Frame { values, enclosing: None, held: true });
        let r = Environment { frames };
        proof {
            assert(r@ =~= seq![global_scope()]);
        }
        r
    }

    /// There are no more frames than can be counted.
    pub proof fn counted(&self)
        ensures
            self@.len() <= usize::MAX,
    {
        assert(self.frames.len() <= usize::MAX);
    }

    /// The number of frames.
    pub fn len(&self) -> (n: usize)
        ensures
            n == self@.len(),
    {
        self.frames.len()
    }

    /// Makes an empty frame enclosed by `enclosing` and returns its index;
    /// `None`, and no change, if there is no frame `enclosing`.
    pub fn enter(&mut self, enclosing: usize) -> (r: Option<usize>)
        requires
            old(self).wf(),
        ensures
            final(self).wf(),
            enclosing < old(self)@.len() ==> r == Some(old(self)@.len() as usize) && final(self)@ == old(self)@.push(
                fresh(enclosing),
            ),
            enclosing >= old(self)@.len() ==> r is None && final(self)@ == old(self)@,
    {
        if enclosing < self.frames.len() {
            let index = self.frames.len();
            self.frames.push(Frame { values: Dictionary::new(), enclosing: Some(enclosing), held: false });
            proof {
                assert(self@ =~= old(self)@.push(fresh(enclosing)));
            }
            Some(index)
        } else {
            None
        }
    }

    /// Notes that a callable holds on to frame `frame`; nothing, if there
    /// is no such frame.
    pub fn hold(&mut self, frame: usize)
        requires
            old(self).wf(),
        ensures
            final(self).wf(),
            final(self)@ == hold(old(self)@, frame),
    {
        if frame < self.frames.len() {
            self.frames[frame].held = true;
            proof {
                assert(self@ =~= hold(old(self)@, frame));
            }
        }
    }

    /// Gives up frame `frame` if it is the newest frame, not the global
    /// one, and no callable holds on to it. Returns whether it did.
    pub fn release(&mut self, frame: usize) -> (r: bool)
        requires
            old(self).wf(),
        ensures
            final(self).wf(),
            r == releasable(old(self)@, frame),
            final(self)@ == released(old(self)@, frame),
    {
        let n = self.frames.len();
        if 1 <= frame && frame == n - 1 && !self.frames[frame].held {
            self.frames.pop();
            proof {
                assert(self@ =~= old(self)@.drop_last());
            }
            true
        } else {
            false
        }
    }

    /// The frame that `target` names.
    fn locate(&self, frame: usize, distance: Option<usize>) -> (r: Option<usize>)
        requires
            self.wf(),
        ensures
            r == target(self@, frame, distance),
            r matches Some(t) ==> t < self@.len(),
    {
        match distance {
            None => Some(0),
            Some(d) => {
                let mut at: usize = frame;
                let mut left: usize = d;
                loop
                    invariant
                        distance == Some(d),
                        ancestor(self@, frame, d as nat) == ancestor(self@, at, left as nat),
                    decreases left,
                {
                    if at >= self.frames.len() {
                        return None;
                    }
                    if left == 0 {
                        return Some(at);
                    }
                    match self.frames[at].enclosing {
                        Some(parent) => {
                            at = parent;
                            left -= 1;
                        },
                        None => {
                            return None;
                        },
                    }
                }
            },
        }
    }

    /// Binds `name` to `value` in frame `frame`, whether or not the frame
    /// bound it before. Returns `false`, and changes nothing, if there is
    /// no such frame.
    pub fn define(&mut self, frame: usize, name: String, value: LiteralValue) -> (r: bool)
        requires
            old(self).wf(),
        ensures
            final(self).wf(),
            r == (frame < old(self)@.len()),
            r ==> final(self)@ == bound(old(self)@, frame, name@, value),
            !r ==> final(self)@ == old(self)@,
    {
        if frame < self.frames.len() {
            self.frames[frame].values.insert(name, value);
            proof {
                assert(self@ =~= bound(old(self)@, frame, name@, value));
            }
            true
        } else {
            false
        }
    }

    /// Gives `name` the value `value` in the frame that `distance` names.
    /// Without a distance that is the global frame, which takes the name
    /// whether or not it held it. With a distance the frame must hold the
    /// name already: if it does not, nothing changes and `Ok(false)` comes
    /// back.
    pub fn assign(&mut self, frame: usize, name: &str, value: LiteralValue, distance: Option<usize>) -> (r:
        Result<bool, InternalInvariantViolation>)
        requires
            old(self).wf(),
        ensures
            final(self).wf(),
            r == assigned(old(self)@, frame, name@, distance),
            final(self)@ == after_assign(old(self)@, frame, name@, value, distance),
    {
        match self.locate(frame, distance) {
            None => Err(InternalInvariantViolation),
            Some(t) => {
                let name = String::from_str(name);
                if distance.is_none() || self.frames[t].values.contains(&name) {
                    self.frames[t].values.insert(name, value);
                    proof {
                        assert(self@ =~= bound(old(self)@, t, name@, value));
                    }
                    Ok(true)
                } else {
                    Ok(false)
                }
            },
        }
    }

    /// The value of `name` in the frame that `distance` names, if that
    /// frame binds it.
    pub fn get(&self, frame: usize, name: &str, distance: Option<usize>) -> (r: Result<
        Option<LiteralValue>,
        InternalInvariantViolation,
    >)
        requires
            self.wf(),
        ensures
            r == lookup(self@, frame, name@, distance),
    {
        match self.locate(frame, distance) {
            None => Err(InternalInvariantViolation),
            Some(t) => {
                let name = String::from_str(name);
                match self.frames[t].values.get(&name) {
                    Some(v) => Ok(Some(v.clone())),
                    None => Ok(None),
                }
            },
        }
    }
}

/// Binding a name in one frame moves no enclosing link: a walk ends at
/// the same frame before and after.
pub proof fn binding_keeps_ancestors(
    scopes: Seq<Scope>,
    at: usize,
    name: Seq<char>,
    value: LiteralValue,
    frame: usize,
    distance: nat,
)
    requires
        at < scopes.len(),
    ensures
        ancestor(bound(scopes, at, name, value), frame, distance) == ancestor(scopes, frame, distance),
    decreases distance,
{
    if frame < scopes.len() && distance > 0 {
        match scopes[frame as int].enclosing {
            Some(parent) => {
                binding_keeps_ancestors(scopes, at, name, value, parent, (distance - 1) as nat);
            },
            None => {},
        }
    }
}

/// Frames are shared by all who hold their index: after an assignment
/// through one frame and distance, a read through any frame and distance
/// that name the same frame gives the value assigned.
pub proof fn assignment_is_seen_by_every_holder(
    scopes: Seq<Scope>,
    writer: usize,
    write_distance: Option<usize>,
    reader: usize,
    read_distance: Option<usize>,
    name: Seq<char>,
    value: LiteralValue,
)
    requires
        assigned(scopes, writer, name, write_distance) == Ok::<bool, InternalInvariantViolation>(true),
        target(scopes, reader, read_distance) == target(scopes, writer, write_distance),
    ensures
        lookup(after_assign(scopes, writer, name, value, write_distance), reader, name, read_distance) == Ok::<
            Option<LiteralValue>,
            InternalInvariantViolation,
        >(Some(value)),
{
    let t = target(scopes, writer, write_distance)->0;
    assert(t < scopes.len()) by {
        match write_distance {
            Some(d) => {
                ancestor_in_range(scopes, writer, d as nat);
            },
            None => {},
        }
    }
    match read_distance {
        Some(d) => {
            binding_keeps_ancestors(scopes, t, name, value, reader, d as nat);
        },
        None => {},
    }
}

/// A walk ends at a frame that exists.
pub proof fn ancestor_in_range(scopes: Seq<Scope>, frame: usize, distance: nat)
    ensures
        ancestor(scopes, frame, distance) matches Some(t) ==> t < scopes.len(),
    decreases distance,
{
    if frame < scopes.len() && distance > 0 {
        match scopes[frame as int].enclosing {
            Some(parent) => {
                ancestor_in_range(scopes, parent, (distance - 1) as nat);
            },
            None => {},
        }
    }
}

/// A definition in a frame is seen by a read from that frame at distance
/// zero, and hides nothing in any other frame.
pub proof fn definition_is_local(
    scopes: Seq<Scope>,
    at: usize,
    name: Seq<char>,
    value: LiteralValue,
    other: usize,
    other_name: Seq<char>,
)
    requires
        at < scopes.len(),
        other < scopes.len(),
    ensures
        lookup(bound(scopes, at, name, value), at, name, Some(0usize)) == Ok::<
            Option<LiteralValue>,
            InternalInvariantViolation,
        >(Some(value)),
        other != at || other_name != name ==> lookup(bound(scopes, at, name, value), other, other_name, Some(0usize))
            == lookup(scopes, other, other_name, Some(0usize)),
{
}

/// Binding a name in a frame keeps the chains of frames acyclic.
pub proof fn binding_keeps_acyclic(scopes: Seq<Scope>, at: usize, name: Seq<char>, value: LiteralValue)
    requires
        acyclic(scopes),
        at < scopes.len(),
    ensures
        acyclic(bound(scopes, at, name, value)),
{
}

/// A new frame reads through the frame that encloses it: one link
/// further than that frame itself, it reaches the same frames and finds
/// there what they bind at the time of the read. So a function that is
/// called after the block that declared it was left still sees the
/// variables of that block as they are when it is called.
pub proof fn new_frame_reads_through_its_parent(
    scopes: Seq<Scope>,
    parent: usize,
    name: Seq<char>,
    distance: usize,
)
    requires
        acyclic(scopes),
        parent < scopes.len() < usize::MAX,
        distance < usize::MAX,
    ensures
        ({
            let entered = scopes.push(fresh(parent));
            let frame = scopes.len() as usize;
            &&& ancestor(entered, frame, (distance + 1) as nat) == ancestor(scopes, parent, distance as nat)
            &&& lookup(entered, frame, name, Some((distance + 1) as usize)) == lookup(
                scopes,
                parent,
                name,
                Some(distance),
            )
            &&& lookup(entered, frame, name, None) == lookup(scopes, parent, name, None)
        }),
{
    pushing_keeps_ancestors(scopes, fresh(parent), parent, distance as nat);
    ancestor_in_range(scopes, parent, distance as nat);
}

/// A frame added at the end changes no walk that starts at an older frame.
pub proof fn pushing_keeps_ancestors(scopes: Seq<Scope>, added: Scope, frame: usize, distance: nat)
    requires
        acyclic(scopes),
        frame < scopes.len(),
    ensures
        ancestor(scopes.push(added), frame, distance) == ancestor(scopes, frame, distance),
    decreases distance,
{
    if distance > 0 {
        match scopes[frame as int].enclosing {
            Some(parent) => {
                pushing_keeps_ancestors(scopes, added, parent, (distance - 1) as nat);
            },
            None => {},
        }
    }
}

} // verus!
