//! The router: the nodes and lenses of the application, and the delivery of
//! an event to a lens in four phases (creation, propagation along the lens
//! path, the handler's action, bubbling back along the path).
use crate::comp::Component;
use crate::event::{Event, EventPhase, EventWrapper, Gates};
use crate::lens::{Handler, Lens, LensState, Lenses};
use crate::node::Nodes;
use vstd::prelude::*;

verus! {

/// One node that a delivery passed, with the gates as its components left
/// them.
#[derive(PartialEq, Eq, Structural, Clone, Copy, Debug)]
pub struct Visit {
    pub node: usize,
    pub gates: Gates,
}

/// The action phase of a delivery: the state the handler returned, and the
/// gates as it left them.
#[derive(PartialEq, Eq, Structural, Clone, Copy, Debug)]
pub struct Act {
    pub next: LensState,
    pub gates: Gates,
}

/// What one delivery did, phase by phase.
pub struct Delivery {
    /// The nodes passed during propagation, in order.
    pub propagated: Vec<Visit>,
    /// The action, if the handler ran.
    pub action: Option<Act>,
    /// The nodes passed during bubbling, in order.
    pub bubbled: Vec<Visit>,
}

/// Which gate a walk in `phase` goes by.
pub open spec fn gate_of(g: Gates, phase: EventPhase) -> bool {
    match phase {
        EventPhase::Propagation => g.propagate,
        EventPhase::Bubbling => g.bubble,
        _ => g.default,
    }
}

/// The `i`-th node of a walk of `path`: first to last when `forward`, last
/// to first otherwise.
pub open spec fn step_of(path: Seq<usize>, i: int, forward: bool) -> usize {
    if forward {
        path[i]
    } else {
        path[path.len() - 1 - i]
    }
}

/// `visits` walks `path` in the given direction while the `phase` gate
/// stays open: it passes at least one node, goes on after each node whose
/// gate is open, and ends at the end of the path or at the first node after
/// which that gate is closed.
pub open spec fn walk(visits: Seq<Visit>, path: Seq<usize>, forward: bool, phase: EventPhase) -> bool {
    &&& 1 <= visits.len() <= path.len()
    &&& forall|i: int| 0 <= i < visits.len() ==> (#[trigger] visits[i]).node == step_of(path, i, forward)
    &&& forall|i: int| 0 <= i < visits.len() - 1 ==> gate_of((#[trigger] visits[i]).gates, phase)
    &&& (visits.len() == path.len() || !gate_of(visits.last().gates, phase))
}

/// From `start` on, the visits in `visits` closed zero or more gates and
/// opened none: each one's gates are `start`'s, or an earlier visit's, with
/// some gates closed.
pub open spec fn closes_only(visits: Seq<Visit>, start: Gates) -> bool {
    &&& forall|i: int| 0 <= i < visits.len() ==> start.only_closed_to(#[trigger] visits[i].gates)
    &&& forall|i: int, j: int|
        0 <= i < j < visits.len() ==> (#[trigger] visits[i].gates).only_closed_to(
            #[trigger] visits[j].gates,
        )
}

/// One more visit that closes gates only keeps a walk closing gates only.
proof fn lemma_closes_only_push(visits: Seq<Visit>, start: Gates, v: Visit, was: Gates)
    requires
        closes_only(visits, start),
        was == (if visits.len() == 0 {
            start
        } else {
            visits.last().gates
        }),
        was.only_closed_to(v.gates),
    ensures
        closes_only(visits.push(v), start),
{
    let t = visits.push(v);
    let n = visits.len() as int;
    assert forall|i: int| 0 <= i < t.len() implies start.only_closed_to(#[trigger] t[i].gates) by {
        if i < n {
            assert(t[i] == visits[i]);
        } else if n > 0 {
            assert(start.only_closed_to(visits[n - 1].gates));
        }
    }
    assert forall|i: int, j: int| 0 <= i < j < t.len() implies (#[trigger] t[i].gates).only_closed_to(
        #[trigger] t[j].gates,
    ) by {
        assert(t[i] == visits[i]);
        if j < n {
            assert(t[j] == visits[j]);
        } else if i < n - 1 {
            assert(visits[i].gates.only_closed_to(visits[n - 1].gates));
        }
    }
}

impl Delivery {
    /// The gates when propagation ended.
    pub open spec fn after_propagation(&self) -> Gates {
        self.propagated@.last().gates
    }

    /// The gates when the action phase ended, or was skipped.
    pub open spec fn after_action(&self) -> Gates {
        match self.action {
            Some(a) => a.gates,
            None => self.after_propagation(),
        }
    }

    /// The state the handler asks for: its answer if it ran, else idle.
    pub open spec fn candidate(&self) -> LensState {
        match self.action {
            Some(a) => a.next,
            None => LensState::Idle,
        }
    }

    /// The phases ran as the protocol orders them for a lens with `path`:
    /// propagation walks the path forward; the handler runs exactly when the
    /// action gate is still open; bubbling walks the path backward exactly
    /// when the bubbling gate is still open after that. From the open gates
    /// of the start on, no step opens a gate.
    pub open spec fn follows(&self, path: Seq<usize>) -> bool {
        &&& walk(self.propagated@, path, true, EventPhase::Propagation)
        &&& closes_only(self.propagated@, Gates::open())
        &&& self.action.is_some() == self.after_propagation().default
        &&& self.action.is_some() ==> self.after_propagation().only_closed_to(self.action.unwrap().gates)
        &&& closes_only(self.bubbled@, self.after_action())
        &&& if self.after_action().bubble {
            walk(self.bubbled@, path, false, EventPhase::Bubbling)
        } else {
            self.bubbled@.len() == 0
        }
    }
}

/// The nodes that `visits` passed, in order.
pub open spec fn nodes_of(visits: Seq<Visit>) -> Seq<usize> {
    visits.map_values(|v: Visit| v.node)
}

/// Propagation passes the first nodes of the path, in path order, and
/// bubbling the last nodes, in reverse path order. When no gate closes,
/// both pass the whole path and the handler runs.
pub proof fn lemma_delivery_order(d: Delivery, path: Seq<usize>)
    requires
        d.follows(path),
    ensures
        nodes_of(d.propagated@) == path.subrange(0, d.propagated@.len() as int),
        nodes_of(d.bubbled@) == path.reverse().subrange(0, d.bubbled@.len() as int),
        ({
            &&& forall|i: int| 0 <= i < d.propagated@.len() ==> (#[trigger] d.propagated@[i]).gates == Gates::open()
            &&& forall|i: int| 0 <= i < d.bubbled@.len() ==> (#[trigger] d.bubbled@[i]).gates == Gates::open()
            &&& d.action.is_some() ==> d.action.unwrap().gates == Gates::open()
        }) ==> {
            &&& nodes_of(d.propagated@) == path
            &&& d.action.is_some()
            &&& nodes_of(d.bubbled@) == path.reverse()
        },
{
    assert(nodes_of(d.propagated@) =~= path.subrange(0, d.propagated@.len() as int));
    if d.bubbled@.len() > 0 {
        assert(nodes_of(d.bubbled@) =~= path.reverse().subrange(0, d.bubbled@.len() as int));
    } else {
        assert(nodes_of(d.bubbled@) =~= path.reverse().subrange(0, d.bubbled@.len() as int));
    }
    if ({
        &&& forall|i: int| 0 <= i < d.propagated@.len() ==> (#[trigger] d.propagated@[i]).gates == Gates::open()
        &&& forall|i: int| 0 <= i < d.bubbled@.len() ==> (#[trigger] d.bubbled@[i]).gates == Gates::open()
        &&& d.action.is_some() ==> d.action.unwrap().gates == Gates::open()
    }) {
        let n = d.propagated@.len();
        assert(d.propagated@[n - 1].gates == Gates::open());
        assert(n == path.len());
        assert(nodes_of(d.propagated@) =~= path);
        assert(d.after_action() == Gates::open());
        let m = d.bubbled@.len();
        assert(d.bubbled@[m - 1].gates == Gates::open());
        assert(m == path.len());
        assert(nodes_of(d.bubbled@) =~= path.reverse());
    }
}

/// A node that stops propagation is the last that propagation passes, and
/// the handler's phase and bubbling do not depend on it: bubbling passes
/// the whole path, last node to first, unless the bubbling gate closes.
pub proof fn lemma_stopped_propagation_still_bubbles(d: Delivery, path: Seq<usize>, i: int)
    requires
        d.follows(path),
        0 <= i < d.propagated@.len(),
        !d.propagated@[i].gates.propagate,
        d.after_action().bubble,
        forall|j: int| 0 <= j < d.bubbled@.len() ==> (#[trigger] d.bubbled@[j]).gates.bubble,
    ensures
        d.propagated@.len() == i + 1,
        nodes_of(d.bubbled@) == path.reverse(),
{
    let m = d.bubbled@.len();
    assert(d.bubbled@[m - 1].gates.bubble);
    assert(nodes_of(d.bubbled@) =~= path.reverse());
}

/// A gate closed once stays closed: a node that closes the bubbling gate
/// during propagation leaves no bubbling phase.
pub proof fn lemma_bubbling_closed_early_stays_closed(d: Delivery, path: Seq<usize>, i: int)
    requires
        d.follows(path),
        0 <= i < d.propagated@.len(),
        !d.propagated@[i].gates.bubble,
    ensures
        d.bubbled@.len() == 0,
{
    let n = d.propagated@.len() as int;
    if i < n - 1 {
        assert(d.propagated@[i].gates.only_closed_to(d.propagated@[n - 1].gates));
    }
    assert(!d.after_propagation().bubble);
}

/// What the event does when it passes `node`: every component there runs
/// its hook in order (see `node_on_event`); a node that does not exist or
/// holds no component changes nothing.
pub open spec fn pass_node<C: Component>(
    maps: Seq<Option<Seq<C>>>,
    node: usize,
    w: EventWrapper<C::Ev>,
) -> (Seq<Option<Seq<C>>>, EventWrapper<C::Ev>) {
    if node < maps.len() && maps[node as int].is_some() {
        let s = maps[node as int].unwrap();
        (maps.update(node as int, Some(crate::comp::handled_all(s, w))), crate::comp::wrapper_after(s, w))
    } else {
        (maps, w)
    }
}

/// A walk of `order` in `phase` from node contents `maps` and wrapper `w`:
/// the event passes the first node, the visit is recorded with the gates
/// its hooks left, and the walk goes on while the phase's gate is open.
/// Gives the node contents, the wrapper and the visits at the end.
pub open spec fn walk_run<C: Component>(
    maps: Seq<Option<Seq<C>>>,
    w: EventWrapper<C::Ev>,
    order: Seq<usize>,
    phase: EventPhase,
) -> (Seq<Option<Seq<C>>>, EventWrapper<C::Ev>, Seq<Visit>)
    decreases order.len(),
{
    if order.len() == 0 {
        (maps, w, Seq::empty())
    } else {
        let p = pass_node(maps, order[0], w);
        let v = Visit { node: order[0], gates: p.1.gates() };
        if gate_of(p.1.gates(), phase) {
            let r = walk_run(p.0, p.1, order.drop_first(), phase);
            (r.0, r.1, seq![v] + r.2)
        } else {
            (p.0, p.1, seq![v])
        }
    }
}

/// One step of a walk: from position `i` of `order`, the walk passes
/// `order[i]` and either goes on from `i + 1` or ends there.
proof fn lemma_walk_run_step<C: Component>(
    m: Seq<Option<Seq<C>>>,
    w: EventWrapper<C::Ev>,
    order: Seq<usize>,
    i: int,
    phase: EventPhase,
)
    requires
        0 <= i < order.len(),
    ensures
        ({
            let p = pass_node(m, order[i], w);
            let v = Visit { node: order[i], gates: p.1.gates() };
            let r = walk_run(m, w, order.subrange(i, order.len() as int), phase);
            if gate_of(p.1.gates(), phase) {
                let r2 = walk_run(p.0, p.1, order.subrange(i + 1, order.len() as int), phase);
                r == (r2.0, r2.1, seq![v] + r2.2)
            } else {
                r == (p.0, p.1, seq![v])
            }
        }),
{
    let rest = order.subrange(i, order.len() as int);
    assert(rest.drop_first() =~= order.subrange(i + 1, order.len() as int));
    assert(rest[0] == order[i]);
}

/// Walks the event along `path` (first to last when `forward`, else last to
/// first) in the wrapper's phase, handing it to each node it passes, and
/// returns the visits.
fn walk_nodes<C: Component>(
    nodes: &mut Nodes<C>,
    path: &Vec<usize>,
    forward: bool,
    wrapper: &mut EventWrapper<C::Ev>,
    phase: EventPhase,
) -> (visits: Vec<Visit>)
    requires
        old(nodes).wf(),
        path@.len() >= 1,
        old(wrapper).spec_phase() == phase,
        phase == EventPhase::Propagation || phase == EventPhase::Bubbling,
        gate_of(old(wrapper).gates(), phase),
    ensures
        final(nodes).wf(),
        old(nodes).same_layout(final(nodes)),
        old(wrapper).only_closed_to(final(wrapper)),
        walk_run(
            old(nodes).maps(),
            *old(wrapper),
            if forward {
                path@
            } else {
                path@.reverse()
            },
            phase,
        ) == (final(nodes).maps(), *final(wrapper), visits@),
        walk(visits@, path@, forward, phase),
        closes_only(visits@, old(wrapper).gates()),
        visits@.last().gates == final(wrapper).gates(),
{
    let ghost m0 = nodes.maps();
    let ghost w0 = *wrapper;
    let ghost before = *nodes;
    let ghost order = if forward {
        path@
    } else {
        path@.reverse()
    };
    let n = path.len();
    let mut visits: Vec<Visit> = Vec::new();
    let mut i: usize = 0;
    let mut go = true;
    proof {
        assert(order.subrange(0, n as int) =~= order);
        let r = walk_run(m0, w0, order, phase);
        assert(visits@ + r.2 =~= r.2);
    }
    while go && i < n
        invariant
            phase == EventPhase::Propagation || phase == EventPhase::Bubbling,
            nodes.wf(),
            before.same_layout(nodes),
            w0.only_closed_to(wrapper),
            n == path@.len(),
            order.len() == n,
            forall|j: int| 0 <= j < n ==> #[trigger] order[j] == step_of(path@, j, forward),
            i <= n,
            visits@.len() == i,
            forall|j: int| 0 <= j < i ==> (#[trigger] visits@[j]).node == step_of(path@, j, forward),
            forall|j: int| 0 <= j && j + 1 < i ==> gate_of((#[trigger] visits@[j]).gates, phase),
            go ==> gate_of(wrapper.gates(), phase),
            !go ==> (i > 0 && !gate_of(visits@.last().gates, phase)),
            i > 0 ==> visits@.last().gates == wrapper.gates(),
            i == 0 ==> *wrapper == w0,
            wrapper.spec_phase() == phase,
            closes_only(visits@, w0.gates()),
            go ==> ({
                let r = walk_run(nodes.maps(), *wrapper, order.subrange(i as int, n as int), phase);
                walk_run(m0, w0, order, phase) == (r.0, r.1, visits@ + r.2)
            }),
            !go ==> walk_run(m0, w0, order, phase) == (nodes.maps(), *wrapper, visits@),
        decreases n - i,
    {
        let node = if forward {
            path[i]
        } else {
            path[n - 1 - i]
        };
        assert(node == order[i as int]);
        let ghost prev = visits@;
        let ghost was = wrapper.gates();
        let ghost mb = nodes.maps();
        let ghost wb = *wrapper;
        nodes.node_on_event(node, wrapper);
        let gates = wrapper.current_gates();
        visits.push(Visit { node, gates });
        proof {
            assert(visits@ == prev.push(Visit { node, gates }));
            lemma_closes_only_push(prev, w0.gates(), Visit { node, gates }, was);
            lemma_walk_run_step(mb, wb, order, i as int, phase);
            if gate_of(gates, phase) {
                let r = walk_run(nodes.maps(), *wrapper, order.subrange(i + 1, n as int), phase);
                assert(prev + (seq![Visit { node, gates }] + r.2) =~= visits@ + r.2);
            } else {
                assert(prev + seq![Visit { node, gates }] =~= visits@);
            }
        }
        i += 1;
        go = match phase {
            EventPhase::Propagation => gates.propagate,
            _ => gates.bubble,
        };
    }
    proof {
        if go {
            let r = walk_run(nodes.maps(), *wrapper, order.subrange(i as int, n as int), phase);
            assert(order.subrange(i as int, n as int).len() == 0);
            assert(visits@ + r.2 =~= visits@);
        }
    }
    visits
}

/// A handler that always proposes `Busy(b)`: when it runs on an idle lens,
/// the lens ends in `Busy(b)`; a lens that is busy keeps its state.
pub proof fn lemma_busy_handler_commits<C: Component, H: Handler<C::Ev>>(
    r: Router<C, H>,
    lens_id: int,
    event: C::Ev,
    d: Delivery,
    next: Router<C, H>,
    b: u64,
)
    requires
        0 <= lens_id < r.lenses.lenses().len(),
        r.delivered(lens_id, &d, &next),
        r.ran(lens_id, event, &d, &next),
        forall|w: EventWrapper<C::Ev>, l: Lens| #[trigger] r.lenses.handlers()[lens_id].proposal(w, l) == LensState::Busy(b),
    ensures
        r.lenses.lenses()[lens_id].state == LensState::Idle && d.action.is_some()
            ==> next.lenses.lenses()[lens_id].state == LensState::Busy(b),
        r.lenses.lenses()[lens_id].state != LensState::Idle
            ==> next.lenses.lenses()[lens_id].state == r.lenses.lenses()[lens_id].state,
{
}

/// Whether a lens in state `state` with `path` accepts an event.
pub open spec fn accepts(state: LensState, path: Seq<usize>, passive: bool) -> bool {
    (passive || state == LensState::Idle) && path.len() > 0
}

/// The state a lens ends a delivery in: the candidate if the lens is still
/// idle, else the state it is in.
pub open spec fn committed(state: LensState, candidate: LensState) -> LensState {
    if state == LensState::Idle {
        candidate
    } else {
        state
    }
}

/// The nodes, components and lenses of an application.
pub struct Router<C, H> {
    pub nodes: Nodes<C>,
    pub lenses: Lenses<H>,
}

impl<C: Component, H: Handler<C::Ev>> Router<C, H> {
    pub open spec fn wf(&self) -> bool {
        self.nodes.wf() && self.lenses.wf()
    }

    /// What delivering `event` to lens `lens_id` made of `self`, as `d`
    /// records it: the lens ends in the committed state, the other lenses
    /// are as they were, only this lens's handler may have changed, and the
    /// nodes keep their layout.
    pub open spec fn delivered(&self, lens_id: int, d: &Delivery, next: &Self) -> bool {
        let lens = self.lenses.lenses()[lens_id];
        &&& d.follows(lens.path@)
        &&& next.lenses.lenses() == self.lenses.lenses().update(
            lens_id,
            Lens { state: committed(lens.state, d.candidate()), ..lens },
        )
        &&& next.lenses.handlers() == self.lenses.handlers().update(
            lens_id,
            next.lenses.handlers()[lens_id],
        )
        &&& self.nodes.same_layout(&next.nodes)
    }

    /// What the hooks and the handler did when `event` was delivered to lens
    /// `lens_id`: the delivery runs propagation from a fresh wrapper, hands
    /// the wrapper to the handler when the action gate is open, and runs
    /// bubbling when the bubbling gate is open after that. `d` records the
    /// visits and the action exactly as the hooks and the handler produced
    /// them, the nodes end as the hooks left them, and the handler as it
    /// left itself.
    pub open spec fn ran(&self, lens_id: int, event: C::Ev, d: &Delivery, next: &Self) -> bool {
        let lens = self.lenses.lenses()[lens_id];
        let h = self.lenses.handlers()[lens_id];
        let prop = walk_run(
            self.nodes.maps(),
            EventWrapper::spec_new(event).with_phase(EventPhase::Propagation),
            lens.path@,
            EventPhase::Propagation,
        );
        let w1 = prop.1;
        let wa = w1.with_phase(EventPhase::Action);
        let acted = w1.gates().default;
        let w2 = if acted {
            wa.with_gates(h.gates_after(wa, lens))
        } else {
            w1
        };
        let bub = if w2.gates().bubble {
            walk_run(prop.0, w2.with_phase(EventPhase::Bubbling), lens.path@.reverse(), EventPhase::Bubbling)
        } else {
            (prop.0, w2, Seq::empty())
        };
        &&& d.propagated@ == prop.2
        &&& d.action == if acted {
            Some(Act { next: h.proposal(wa, lens), gates: w2.gates() })
        } else {
            None
        }
        &&& d.bubbled@ == bub.2
        &&& next.nodes.maps() == bub.0
        &&& next.lenses.handlers() == self.lenses.handlers().update(
            lens_id,
            if acted {
                h.handled(wa, lens)
            } else {
                h
            },
        )
    }

    /// A router with no nodes and no lenses.
    pub fn new() -> (r: Router<C, H>)
        ensures
            r.wf(),
            r.nodes.len() == 0,
            r.lenses.lenses().len() == 0,
    {
        Router { nodes: Nodes::new(), lenses: Lenses::new() }
    }

    /// Fires `event` at the first lens named `target`; an unknown name is
    /// a no-op. See `fire_event_at_lens_id`.
    pub fn fire_event_at_lens(&mut self, target: &str, event: C::Ev) -> (r: Option<Delivery>)
        where
            C::Ev: Event,
        requires
            old(self).wf(),
        ensures
            final(self).wf(),
            match old(self).lenses.id_of(target@) {
                None => r.is_none() && *final(self) == *old(self),
                Some(id) => {
                    let lens = old(self).lenses.lenses()[id];
                    &&& r.is_some() == accepts(lens.state, lens.path@, event.passive())
                    &&& r.is_none() ==> *final(self) == *old(self)
                    &&& r.is_some() ==> old(self).delivered(id, &r.unwrap(), final(self))
                    &&& r.is_some() ==> old(self).ran(id, event, &r.unwrap(), final(self))
                },
            },
    {
        match self.lenses.find(target) {
            Some(id) => self.fire_event_at_lens_id(id, event),
            None => None,
        }
    }

    /// Delivers `event` to lens `lens_id`.
    ///
    /// Nothing happens, and `None` is returned, when there is no such lens,
    /// when the event is not passive and the lens is not idle, or when the
    /// lens path is empty. Otherwise the event is wrapped with all gates
    /// open; propagation hands it to the path's nodes first to last and stops
    /// after a node that closes the propagation gate; the handler runs if the
    /// action gate is open and proposes a state (idle if it did not run);
    /// bubbling, if its gate is open, hands the event to the path's nodes
    /// last to first and stops after a node that closes the bubbling gate.
    /// Last, a lens that is idle takes the proposed state; one that is not
    /// keeps its own.
    pub fn fire_event_at_lens_id(&mut self, lens_id: usize, event: C::Ev) -> (r: Option<Delivery>)
        where
            C::Ev: Event,
        requires
            old(self).wf(),
        ensures
            final(self).wf(),
            r.is_some() == (lens_id < old(self).lenses.lenses().len() && accepts(
                old(self).lenses.lenses()[lens_id as int].state,
                old(self).lenses.lenses()[lens_id as int].path@,
                event.passive(),
            )),
            r.is_none() ==> *final(self) == *old(self),
            r.is_some() ==> old(self).delivered(lens_id as int, &r.unwrap(), final(self)),
            r.is_some() ==> old(self).ran(lens_id as int, event, &r.unwrap(), final(self)),
            // a busy lens drops an event that is not passive, untouched
            lens_id < old(self).lenses.lenses().len() && !event.passive()
                && old(self).lenses.lenses()[lens_id as int].state != LensState::Idle ==> {
                &&& r.is_none()
                &&& *final(self) == *old(self)
            },
            // a busy lens takes a passive event and stays in its state
            lens_id < old(self).lenses.lenses().len() && event.passive()
                && old(self).lenses.lenses()[lens_id as int].path@.len() > 0
                && old(self).lenses.lenses()[lens_id as int].state != LensState::Idle ==> {
                &&& r.is_some()
                &&& final(self).lenses.lenses()[lens_id as int].state == old(self).lenses.lenses()[lens_id as int].state
            },
    {
        if lens_id >= self.lenses.lenses.len() {
            return None;
        }
        if !event.is_passive() && self.lenses.lenses[lens_id].state != LensState::Idle {
            return None;
        }
        let n = self.lenses.lenses[lens_id].path.len();
        if n == 0 {
            return None;
        }
        let ghost before = *self;
        let ghost path = self.lenses.lenses()[lens_id as int].path@;
        let mut wrapper = EventWrapper::new(event);

        // Propagation: first node to last.
        wrapper.enter(EventPhase::Propagation);
        let propagated = walk_nodes(
            &mut self.nodes,
            &self.lenses.lenses[lens_id].path,
            true,
            &mut wrapper,
            EventPhase::Propagation,
        );
        let ghost w1 = wrapper;

        // Action: the handler proposes the next state.
        let mut action: Option<Act> = None;
        if wrapper.can_default() {
            wrapper.enter(EventPhase::Action);
            let next = self.lenses.handlers[lens_id].on_event(&mut wrapper, &self.lenses.lenses[lens_id]);
            action = Some(Act { next, gates: wrapper.current_gates() });
        }
        let ghost w2 = wrapper;
        let ghost m1 = self.nodes.maps();

        // Bubbling: last node to first.
        let mut bubbled: Vec<Visit> = Vec::new();
        if wrapper.can_bubble() {
            wrapper.enter(EventPhase::Bubbling);
            bubbled = walk_nodes(
                &mut self.nodes,
                &self.lenses.lenses[lens_id].path,
                false,
                &mut wrapper,
                EventPhase::Bubbling,
            );
        }
        proof {
            if !w2.gates().bubble {
                assert(bubbled@ =~= Seq::<Visit>::empty());
            }
        }
        let d = Delivery { propagated, action, bubbled };

        // Commit: only an idle lens takes the proposed state.
        if self.lenses.lenses[lens_id].state == LensState::Idle {
            let next = match action {
                Some(a) => a.next,
                None => LensState::Idle,
            };
            self.lenses.set_state(lens_id, next);
        }
        proof {
            assert(self.lenses.handlers() =~= before.lenses.handlers().update(
                lens_id as int,
                self.lenses.handlers()[lens_id as int],
            ));
            assert(self.lenses.lenses() =~= before.lenses.lenses().update(
                lens_id as int,
                Lens { state: committed(before.lenses.lenses()[lens_id as int].state, d.candidate()), ..before.lenses.lenses()[lens_id as int] },
            ));
        }
        Some(d)
    }

    /// Fires an event at a single node; node-addressed delivery is not part
    /// of the protocol, so the router is left as it is.
    #[allow(unused_variables)]
    pub fn fire_event_at_node(&mut self, path: &str, event: C::Ev)
        requires
            old(self).wf(),
        ensures
            *final(self) == *old(self),
    {
    }
}

} // verus!
