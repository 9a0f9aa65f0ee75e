//! Events, the phases of a delivery, and the wrapper that carries an event
//! through one delivery together with its three gates.
use vstd::prelude::*;

verus! {

/// A payload that can be fired at a lens.
///
/// Whether an event is passive is fixed when it is built: a passive event is
/// delivered whatever state its lens is in.
pub trait Event: Sized {
    /// Whether this event is passive.
    spec fn passive(&self) -> bool;

    fn is_passive(&self) -> (r: bool)
        ensures
            r == self.passive(),
    ;
}

/// The phase that a delivery is in.
#[derive(PartialEq, Eq, Structural, Clone, Copy, Debug)]
pub enum EventPhase {
    /// The event is being wrapped.
    Creation,
    /// The event flows along the lens path, first node to last.
    Propagation,
    /// The lens handler evaluates the event.
    Action,
    /// The event flows back along the path, last node to first.
    Bubbling,
}

/// The three gates of one delivery, as they stand at some moment.
#[derive(PartialEq, Eq, Structural, Clone, Copy, Debug)]
pub struct Gates {
    /// May the event still flow towards the lens?
    pub propagate: bool,
    /// May the lens handler still evaluate the event?
    pub default: bool,
    /// May the event still flow back?
    pub bubble: bool,
}

impl Gates {
    /// All three gates open, as at the start of a delivery.
    pub open spec fn open() -> Gates {
        Gates { propagate: true, default: true, bubble: true }
    }

    /// `later` closed zero or more of the gates of `self` and opened none.
    pub open spec fn only_closed_to(self, later: Gates) -> bool {
        &&& (later.propagate ==> self.propagate)
        &&& (later.default ==> self.default)
        &&& (later.bubble ==> self.bubble)
    }
}

/// Wraps an event while it is delivered.
///
/// The gates can only be closed: the fields are private to this crate, and
/// the only public methods that write them set them to `false`.
pub struct EventWrapper<E> {
    pub(crate) event: E,
    pub(crate) phase: EventPhase,
    pub(crate) can_propagate: bool,
    pub(crate) can_default: bool,
    pub(crate) can_bubble: bool,
}

impl<E> EventWrapper<E> {
    /// The wrapped event.
    pub open(crate) spec fn spec_event(&self) -> E {
        self.event
    }

    /// The current phase.
    pub open(crate) spec fn spec_phase(&self) -> EventPhase {
        self.phase
    }

    /// The current gates.
    pub open(crate) spec fn gates(&self) -> Gates {
        Gates { propagate: self.can_propagate, default: self.can_default, bubble: self.can_bubble }
    }

    /// A fresh wrapper around `event`: all gates open, phase `Creation`.
    pub open(crate) spec fn spec_new(event: E) -> EventWrapper<E> {
        EventWrapper {
            event,
            phase: EventPhase::Creation,
            can_propagate: true,
            can_default: true,
            can_bubble: true,
        }
    }

    /// This wrapper with its gates set to `g`.
    pub open(crate) spec fn with_gates(self, g: Gates) -> EventWrapper<E> {
        EventWrapper { can_propagate: g.propagate, can_default: g.default, can_bubble: g.bubble, ..self }
    }

    /// This wrapper moved into `phase`.
    pub open(crate) spec fn with_phase(self, phase: EventPhase) -> EventWrapper<E> {
        EventWrapper { phase, ..self }
    }

    /// What a node hook or a lens handler may do to a wrapper: close gates.
    /// The event and the phase stay as they are.
    pub open spec fn only_closed_to(&self, later: &EventWrapper<E>) -> bool {
        &&& later.spec_event() == self.spec_event()
        &&& later.spec_phase() == self.spec_phase()
        &&& self.gates().only_closed_to(later.gates())
    }

    /// Wraps an event: all gates open, phase `Creation`.
    pub fn new(event: E) -> (w: EventWrapper<E>)
        ensures
            w == EventWrapper::spec_new(event),
            w.spec_event() == event,
            w.spec_phase() == EventPhase::Creation,
            w.gates() == Gates::open(),
    {
        EventWrapper {
            event,
            phase: EventPhase::Creation,
            can_propagate: true,
            can_default: true,
            can_bubble: true,
        }
    }

    /// Borrows the wrapped event.
    pub fn event(&self) -> (e: &E)
        ensures
            *e == self.spec_event(),
    {
        &self.event
    }

    /// Unwraps the event.
    pub fn into_event(self) -> (e: E)
        ensures
            e == self.spec_event(),
    {
        self.event
    }

    pub fn phase(&self) -> (p: EventPhase)
        ensures
            p == self.spec_phase(),
    {
        self.phase
    }

    pub fn can_propagate(&self) -> (b: bool)
        ensures
            b == self.gates().propagate,
    {
        self.can_propagate
    }

    pub fn can_default(&self) -> (b: bool)
        ensures
            b == self.gates().default,
    {
        self.can_default
    }

    pub fn can_bubble(&self) -> (b: bool)
        ensures
            b == self.gates().bubble,
    {
        self.can_bubble
    }

    /// Returns the current gates.
    pub fn current_gates(&self) -> (g: Gates)
        ensures
            g == self.gates(),
    {
        Gates { propagate: self.can_propagate, default: self.can_default, bubble: self.can_bubble }
    }

    /// Moves the delivery into the given phase.
    pub(crate) fn enter(&mut self, phase: EventPhase)
        ensures
            *final(self) == old(self).with_phase(phase),
            final(self).spec_event() == old(self).spec_event(),
            final(self).spec_phase() == phase,
            final(self).gates() == old(self).gates(),
    {
        self.phase = phase;
    }

    /// Prevents the event from being evaluated by the lens handler.
    pub fn prevent_default(&mut self)
        ensures
            old(self).only_closed_to(final(self)),
            final(self).gates() == (Gates { default: false, ..old(self).gates() }),
    {
        self.can_default = false;
    }

    /// Stops the flow of the event towards the lens.
    pub fn stop_propagation(&mut self)
        ensures
            old(self).only_closed_to(final(self)),
            final(self).gates() == (Gates { propagate: false, ..old(self).gates() }),
    {
        self.can_propagate = false;
    }

    /// Stops the flow of the event back along the path.
    pub fn stop_bubbling(&mut self)
        ensures
            old(self).only_closed_to(final(self)),
            final(self).gates() == (Gates { bubble: false, ..old(self).gates() }),
    {
        self.can_bubble = false;
    }
}

} // verus!
