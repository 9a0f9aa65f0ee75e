//! Lenses: named, stateful destinations of events, each with a path of nodes
//! and a handler.
use crate::event::{EventWrapper, Gates};
use vstd::prelude::*;

verus! {

/// The state of a lens. Only an idle lens accepts events that are not
/// passive; the busy states are the handler's own, told apart by a tag.
#[derive(PartialEq, Eq, Structural, Clone, Copy, Debug)]
pub enum LensState {
    Idle,
    Busy(u64),
}

/// A named destination of events.
pub struct Lens {
    /// The lens's name; events are fired at it by this name.
    pub name: String,
    /// The nodes an event passes, first to last on its way in.
    pub path: Vec<usize>,
    /// The current state.
    pub state: LensState,
}

/// The reaction of a lens to the events it is fired.
pub trait Handler<E>: Sized {
    /// The state this handler proposes when handed `event` for `lens`.
    spec fn proposal(&self, event: EventWrapper<E>, lens: Lens) -> LensState;

    /// This handler as `on_event` leaves it; unchanged unless an
    /// implementation says otherwise.
    open spec fn handled(&self, event: EventWrapper<E>, lens: Lens) -> Self {
        *self
    }

    /// The gates as `on_event` leaves them; as they were unless an
    /// implementation says otherwise.
    open spec fn gates_after(&self, event: EventWrapper<E>, lens: Lens) -> Gates {
        event.gates()
    }

    /// Evaluates an event in the action phase and returns the state that the
    /// lens should move to. It may close gates of the wrapper, nothing else of
    /// it.
    fn on_event(&mut self, event: &mut EventWrapper<E>, lens: &Lens) -> (next: LensState)
        ensures
            next == old(self).proposal(*old(event), *lens),
            *final(self) == old(self).handled(*old(event), *lens),
            final(event).gates() == old(self).gates_after(*old(event), *lens),
            old(event).only_closed_to(final(event)),
    ;
}

/// All lenses, by id, each with its handler.
pub struct Lenses<H> {
    pub(crate) lenses: Vec<Lens>,
    pub(crate) handlers: Vec<H>,
}

impl<H> Lenses<H> {
    /// The lenses, by id.
    pub open(crate) spec fn lenses(&self) -> Seq<Lens> {
        self.lenses@
    }

    /// The handlers, by lens id.
    pub open(crate) spec fn handlers(&self) -> Seq<H> {
        self.handlers@
    }

    /// Each lens has its handler.
    pub open spec fn wf(&self) -> bool {
        self.lenses().len() == self.handlers().len()
    }

    /// The id of the first lens named `name`, if any.
    pub open spec fn id_of(&self, name: Seq<char>) -> Option<int> {
        if exists|i: int| 0 <= i < self.lenses().len() && (#[trigger] self.lenses()[i]).name@ == name {
            Some(
                choose|i: int|
                    0 <= i < self.lenses().len() && (#[trigger] self.lenses()[i]).name@ == name
                        && forall|j: int| 0 <= j < i ==> (#[trigger] self.lenses()[j]).name@ != name,
            )
        } else {
            None
        }
    }

    /// No lenses.
    pub fn new() -> (r: Lenses<H>)
        ensures
            r.wf(),
            r.lenses().len() == 0,
    {
        Lenses { lenses: Vec::new(), handlers: Vec::new() }
    }

    /// The number of lenses.
    pub fn len(&self) -> (r: usize)
        requires
            self.wf(),
        ensures
            r == self.lenses().len(),
    {
        self.lenses.len()
    }

    /// Adds an idle lens and returns its id.
    pub fn new_lens(&mut self, name: &str, path: Vec<usize>, handler: H) -> (r: usize)
        requires
            old(self).wf(),
        ensures
            final(self).wf(),
            r == old(self).lenses().len(),
            final(self).lenses().len() == r + 1,
            final(self).lenses().subrange(0, r as int) == old(self).lenses(),
            final(self).handlers() == old(self).handlers().push(handler),
            final(self).lenses()[r as int].name@ == name@,
            final(self).lenses()[r as int].path@ == path@,
            final(self).lenses()[r as int].state == LensState::Idle,
    {
        let r = self.lenses.len();
        self.lenses.push(Lens { name: name.to_owned(), path, state: LensState::Idle });
        self.handlers.push(handler);
        proof {
            assert(self.lenses().subrange(0, r as int) =~= old(self).lenses());
        }
        r
    }

    /// The id of the first lens named `name`.
    pub fn find(&self, name: &str) -> (r: Option<usize>)
        requires
            self.wf(),
        ensures
            match r {
                Some(i) => i < self.lenses().len() && self.id_of(name@) == Some(i as int),
                None => self.id_of(name@).is_none(),
            },
    {
        let target = name.to_owned();
        let mut i: usize = 0;
        while i < self.lenses.len()
            invariant
                i <= self.lenses().len(),
                target@ == name@,
                forall|j: int| 0 <= j < i ==> (#[trigger] self.lenses()[j]).name@ != name@,
            decreases self.lenses().len() - i,
        {
            if self.lenses[i].name == target {
                proof {
                    let c = choose|c: int|
                        0 <= c < self.lenses().len() && (#[trigger] self.lenses()[c]).name@ == name@
                            && forall|j: int| 0 <= j < c ==> (#[trigger] self.lenses()[j]).name@ != name@;
                    assert(0 <= i < self.lenses().len() && self.lenses()[i as int].name@ == name@
                        && forall|j: int| 0 <= j < i ==> (#[trigger] self.lenses()[j]).name@ != name@);
                    if c < i {
                        assert(self.lenses()[c].name@ != name@);
                    } else if c > i {
                        assert(self.lenses()[i as int].name@ != name@);
                    }
                }
                return Some(i);
            }
            i += 1;
        }
        None
    }

    /// Borrows the lens with id `id`.
    pub fn lens(&self, id: usize) -> (r: Option<&Lens>)
        requires
            self.wf(),
        ensures
            match r {
                Some(l) => id < self.lenses().len() && *l == self.lenses()[id as int],
                None => id >= self.lenses().len(),
            },
    {
        if id < self.lenses.len() {
            Some(&self.lenses[id])
        } else {
            None
        }
    }

    /// Borrows the handler of the lens with id `id`.
    pub fn handler(&self, id: usize) -> (r: Option<&H>)
        requires
            self.wf(),
        ensures
            match r {
                Some(h) => id < self.handlers().len() && *h == self.handlers()[id as int],
                None => id >= self.handlers().len(),
            },
    {
        if id < self.handlers.len() {
            Some(&self.handlers[id])
        } else {
            None
        }
    }

    /// Sets the state of the lens with id `id`.
    pub(crate) fn set_state(&mut self, id: usize, state: LensState)
        requires
            old(self).wf(),
            id < old(self).lenses().len(),
        ensures
            final(self).wf(),
            final(self).handlers() == old(self).handlers(),
            final(self).lenses() == old(self).lenses().update(
                id as int,
                Lens { state, ..old(self).lenses()[id as int] },
            ),
    {
        self.lenses[id].state = state;
    }
}

} // verus!
