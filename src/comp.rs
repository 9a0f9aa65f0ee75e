//! Components: attaching them to nodes, replacing them, and looking them up
//! from a node or its ancestors.
use crate::event::{EventWrapper, Gates};
use crate::node::Nodes;
use vstd::prelude::*;

verus! {

/// A bundle of state and behaviour attached to a node.
///
/// Each value has a kind, a tag that its type fixes; a node holds at most one
/// component of each kind. What the hooks do is stated by spec functions:
/// `attached` and `detached` for the lifecycle hooks, `handled` and
/// `gates_after` for the event hook.
pub trait Component: Sized {
    /// The events this component reacts to.
    type Ev;

    /// The kind of this component.
    spec fn kind_of(&self) -> u64;

    /// This component as `on_attachment(node_id)` leaves it; unchanged
    /// unless an implementation says otherwise.
    open spec fn attached(&self, node_id: usize) -> Self {
        *self
    }

    /// This component as `on_detachment(node_id)` leaves it; unchanged
    /// unless an implementation says otherwise.
    open spec fn detached(&self, node_id: usize) -> Self {
        *self
    }

    /// This component as `on_event` leaves it when handed `event`;
    /// unchanged unless an implementation says otherwise.
    open spec fn handled(&self, event: EventWrapper<Self::Ev>) -> Self {
        *self
    }

    /// The gates as `on_event` leaves them when handed `event`; as they were
    /// unless an implementation says otherwise.
    open spec fn gates_after(&self, event: EventWrapper<Self::Ev>) -> Gates {
        event.gates()
    }

    fn kind(&self) -> (k: u64)
        ensures
            k == self.kind_of(),
    ;

    /// A name for the component's type, for diagnostics.
    fn get_type_name(&self) -> &'static str;

    /// Runs when the component is attached to a node.
    fn on_attachment(&mut self, node_id: usize)
        ensures
            *final(self) == old(self).attached(node_id),
            final(self).kind_of() == old(self).kind_of(),
    ;

    /// Runs when the component is replaced by another of its kind.
    fn on_detachment(&mut self, node_id: usize)
        ensures
            *final(self) == old(self).detached(node_id),
            final(self).kind_of() == old(self).kind_of(),
    ;

    fn on_load(&mut self)
        ensures
            final(self).kind_of() == old(self).kind_of(),
    ;

    fn on_unload(&mut self)
        ensures
            final(self).kind_of() == old(self).kind_of(),
    ;

    /// Runs when an event passes the component's node. It may close gates
    /// of the wrapper, nothing else of it.
    fn on_event(&mut self, event: &mut EventWrapper<Self::Ev>)
        ensures
            *final(self) == old(self).handled(*old(event)),
            final(event).gates() == old(self).gates_after(*old(event)),
            final(self).kind_of() == old(self).kind_of(),
            old(event).only_closed_to(final(event)),
    ;
}

/// A lifecycle hook that the store ran: on which node, for which kind, and
/// on which value (as it was before the hook).
pub enum Hook<C> {
    Attached { node: usize, kind: u64, value: C },
    Detached { node: usize, kind: u64, value: C },
}

/// No two components in `s` have the same kind.
pub open spec fn kinds_distinct<C: Component>(s: Seq<C>) -> bool {
    forall|i: int, j: int|
        0 <= i < s.len() && 0 <= j < s.len() && i != j ==> #[trigger] s[i].kind_of()
            != #[trigger] s[j].kind_of()
}

/// Some component in `s` has kind `kind`.
pub open spec fn has_kind<C: Component>(s: Seq<C>, kind: u64) -> bool {
    exists|i: int| 0 <= i < s.len() && (#[trigger] s[i]).kind_of() == kind
}

/// The component of kind `kind` in `s`, if there is one.
pub open spec fn component_in<C: Component>(s: Seq<C>, kind: u64) -> Option<C> {
    if has_kind(s, kind) {
        Some(s[choose|i: int| 0 <= i < s.len() && (#[trigger] s[i]).kind_of() == kind])
    } else {
        None
    }
}

/// With distinct kinds, the component at `i` is the one of its kind.
pub proof fn lemma_component_at<C: Component>(s: Seq<C>, i: int)
    requires
        kinds_distinct(s),
        0 <= i < s.len(),
    ensures
        component_in(s, s[i].kind_of()) == Some(s[i]),
{
    let k = s[i].kind_of();
    assert(has_kind(s, k));
    let j = choose|j: int| 0 <= j < s.len() && (#[trigger] s[j]).kind_of() == k;
    assert(j == i);
}

/// Replacing a component by one of the same kind keeps the kinds distinct
/// and leaves the answer for every other kind as it was.
pub proof fn lemma_replace_keeps_others<C: Component>(s: Seq<C>, i: int, x: C, k: u64)
    requires
        kinds_distinct(s),
        0 <= i < s.len(),
        x.kind_of() == s[i].kind_of(),
    ensures
        kinds_distinct(s.update(i, x)),
        k != x.kind_of() ==> component_in(s.update(i, x), k) == component_in(s, k),
{
    let t = s.update(i, x);
    assert(kinds_distinct(t)) by {
        assert forall|a: int, b: int|
            0 <= a < t.len() && 0 <= b < t.len() && a != b implies #[trigger] t[a].kind_of()
            != #[trigger] t[b].kind_of() by {
            assert(t[a].kind_of() == s[a].kind_of());
            assert(t[b].kind_of() == s[b].kind_of());
        }
    }
    if k == x.kind_of() {
    } else if has_kind(s, k) {
        let j = choose|j: int| 0 <= j < s.len() && (#[trigger] s[j]).kind_of() == k;
        assert(j != i);
        lemma_component_at(s, j);
        assert(t[j] == s[j]);
        lemma_component_at(t, j);
    } else {
        assert(!has_kind(t, k)) by {
            if has_kind(t, k) {
                let j = choose|j: int| 0 <= j < t.len() && (#[trigger] t[j]).kind_of() == k;
                assert(j != i);
                assert(s[j].kind_of() == k);
            }
        }
    }
}

/// Adding a component of a kind not yet present keeps the kinds distinct
/// and leaves the answer for every other kind as it was.
pub proof fn lemma_push_keeps_others<C: Component>(s: Seq<C>, x: C, k: u64)
    requires
        kinds_distinct(s),
        !has_kind(s, x.kind_of()),
    ensures
        kinds_distinct(s.push(x)),
        k != x.kind_of() ==> component_in(s.push(x), k) == component_in(s, k),
{
    let t = s.push(x);
    assert(kinds_distinct(t)) by {
        assert forall|a: int, b: int|
            0 <= a < t.len() && 0 <= b < t.len() && a != b implies #[trigger] t[a].kind_of()
            != #[trigger] t[b].kind_of() by {
            if a == s.len() {
                assert(s[b].kind_of() == t[b].kind_of());
            } else if b == s.len() {
                assert(s[a].kind_of() == t[a].kind_of());
            } else {
                assert(t[a] == s[a] && t[b] == s[b]);
            }
        }
    }
    if k == x.kind_of() {
    } else if has_kind(s, k) {
        let j = choose|j: int| 0 <= j < s.len() && (#[trigger] s[j]).kind_of() == k;
        lemma_component_at(s, j);
        assert(t[j] == s[j]);
        lemma_component_at(t, j);
    } else {
        assert(!has_kind(t, k)) by {
            if has_kind(t, k) {
                let j = choose|j: int| 0 <= j < t.len() && (#[trigger] t[j]).kind_of() == k;
                assert(j != s.len());
                assert(s[j].kind_of() == k);
            }
        }
    }
}

/// The hooks that attaching `value` to `node` runs, given what the node held
/// of that kind before: the old value's detachment, then the new value's
/// attachment.
pub open spec fn attach_hooks<C: Component>(prev: Option<C>, node: usize, value: C) -> Seq<Hook<C>> {
    let kind = value.kind_of();
    match prev {
        Some(o) => seq![
            Hook::Detached { node, kind, value: o },
            Hook::Attached { node, kind, value },
        ],
        None => seq![Hook::Attached { node, kind, value }],
    }
}

/// Finds the position of the component of kind `kind` in `v`.
fn find_kind<C: Component>(v: &Vec<C>, kind: u64) -> (r: Option<usize>)
    ensures
        match r {
            Some(i) => i < v@.len() && v@[i as int].kind_of() == kind,
            None => !has_kind(v@, kind),
        },
{
    let mut i: usize = 0;
    while i < v.len()
        invariant
            i <= v@.len(),
            forall|j: int| 0 <= j < i ==> (#[trigger] v@[j]).kind_of() != kind,
        decreases v@.len() - i,
    {
        if v[i].kind() == kind {
            return Some(i);
        }
        i += 1;
    }
    None
}

/// The wrapper after the event hooks of `s` ran in order, starting from `w`:
/// each hook is handed the wrapper as the hooks before it left it.
pub open spec fn wrapper_after<C: Component>(s: Seq<C>, w: EventWrapper<C::Ev>) -> EventWrapper<C::Ev>
    decreases s.len(),
{
    if s.len() == 0 {
        w
    } else {
        let v = wrapper_after(s.drop_last(), w);
        v.with_gates(s.last().gates_after(v))
    }
}

/// The components of `s` after each ran its event hook in order, starting
/// from wrapper `w`.
pub open spec fn handled_all<C: Component>(s: Seq<C>, w: EventWrapper<C::Ev>) -> Seq<C> {
    Seq::new(s.len(), |i: int| s[i].handled(wrapper_after(s.subrange(0, i), w)))
}

/// Running the hooks of the first `i + 1` components is running those of
/// the first `i`, then the hook of component `i`.
pub proof fn lemma_hooks_step<C: Component>(s: Seq<C>, i: int, w: EventWrapper<C::Ev>)
    requires
        0 <= i < s.len(),
    ensures
        wrapper_after(s.subrange(0, i + 1), w) == wrapper_after(s.subrange(0, i), w).with_gates(
            s[i].gates_after(wrapper_after(s.subrange(0, i), w)),
        ),
        handled_all(s.subrange(0, i + 1), w) == handled_all(s.subrange(0, i), w).push(
            s[i].handled(wrapper_after(s.subrange(0, i), w)),
        ),
{
    let t = s.subrange(0, i + 1);
    let u = s.subrange(0, i);
    assert(t.drop_last() =~= u);
    assert forall|j: int| 0 <= j < i implies #[trigger] t.subrange(0, j) == u.subrange(0, j) by {
        assert(t.subrange(0, j) =~= u.subrange(0, j));
    }
    assert(t.subrange(0, i) =~= u);
    assert(handled_all(t, w) =~= handled_all(u, w).push(s[i].handled(wrapper_after(u, w))));
}

/// `t` holds components of the same kinds as `s`, at the same places.
pub open spec fn same_kinds<C: Component>(s: Seq<C>, t: Seq<C>) -> bool {
    &&& t.len() == s.len()
    &&& forall|i: int| 0 <= i < s.len() ==> (#[trigger] t[i]).kind_of() == s[i].kind_of()
}

/// The position of the component of kind `kind` in `s`.
pub open spec fn index_of_kind<C: Component>(s: Seq<C>, kind: u64) -> int {
    choose|i: int| 0 <= i < s.len() && (#[trigger] s[i]).kind_of() == kind
}

/// The components that an optional vector holds.
pub open spec fn seq_of<C>(m: Option<Vec<C>>) -> Option<Seq<C>> {
    match m {
        Some(v) => Some(v@),
        None => None,
    }
}

/// The components of all nodes, by node id.
pub struct Components<C> {
    pub(crate) comps: Vec<Option<Vec<C>>>,
}

impl<C> View for Components<C> {
    type V = Seq<Option<Seq<C>>>;

    closed spec fn view(&self) -> Seq<Option<Seq<C>>> {
        self.comps@.map_values(|m: Option<Vec<C>>| seq_of(m))
    }
}

impl<C> Components<C> {
    /// A container with no nodes.
    pub fn new() -> (r: Components<C>)
        ensures
            r@ == Seq::<Option<Seq<C>>>::empty(),
    {
        let r = Components { comps: Vec::new() };
        proof {
            assert(r@ =~= Seq::<Option<Seq<C>>>::empty());
        }
        r
    }

    /// Makes room for one more node, which holds no component.
    pub(crate) fn push_empty(&mut self)
        ensures
            final(self)@ == old(self)@.push(None),
    {
        self.comps.push(None);
        proof {
            assert(self@ =~= old(self)@.push(None));
        }
    }

    /// Takes the components of `node` out, leaving `None` in their place.
    pub(crate) fn take(&mut self, node: usize) -> (r: Option<Vec<C>>)
        requires
            node < old(self)@.len(),
        ensures
            seq_of(r) == old(self)@[node as int],
            final(self)@ == old(self)@.update(node as int, None),
    {
        let mut r: Option<Vec<C>> = None;
        std::mem::swap(&mut self.comps[node], &mut r);
        proof {
            assert(self@ =~= old(self)@.update(node as int, None));
        }
        r
    }

    /// Borrows the `i`-th component of `node`.
    pub(crate) fn slot_mut(&mut self, node: usize, i: usize) -> (r: &mut C)
        requires
            node < old(self)@.len(),
            old(self)@[node as int].is_some(),
            i < old(self)@[node as int].unwrap().len(),
        ensures
            *r == old(self)@[node as int].unwrap()[i as int],
            final(self)@ == old(self)@.update(
                node as int,
                Some(old(self)@[node as int].unwrap().update(i as int, *final(r))),
            ),
    {
        let v = self.comps[node].as_mut().unwrap();
        &mut v[i]
    }

    /// Puts `m` in as the components of `node`.
    pub(crate) fn put(&mut self, node: usize, m: Option<Vec<C>>)
        requires
            node < old(self)@.len(),
        ensures
            final(self)@ == old(self)@.update(node as int, seq_of(m)),
    {
        self.comps.set(node, m);
        proof {
            assert(self@ =~= old(self)@.update(node as int, seq_of(m)));
        }
    }
}

impl<C: Component> Nodes<C> {
    /// The node at which a lookup from `node` ends: the nearest of `node`
    /// and its ancestors that holds any component.
    pub open spec fn holder(&self, node: int) -> Option<int>
        decreases node,
    {
        if !self.has_node(node) {
            None
        } else if self.maps()[node].is_some() {
            Some(node)
        } else {
            match self.parents()[node] {
                Some(p) => if 0 <= p < node {
                    self.holder(p as int)
                } else {
                    None
                },
                None => None,
            }
        }
    }

    /// `node` exists and holds components.
    pub open spec fn component_holder(&self, node: int) -> bool {
        self.has_node(node) && self.maps()[node].is_some()
    }

    /// Neither `node` nor any of its ancestors holds a component.
    pub open spec fn bare_line(&self, node: int) -> bool
        decreases node,
    {
        &&& self.has_node(node)
        &&& self.maps()[node].is_none()
        &&& match self.parents()[node] {
            Some(p) => if 0 <= p < node {
                self.bare_line(p as int)
            } else {
                true
            },
            None => true,
        }
    }

    /// `next` is what attaching `value` to `node` makes of `self`: the node
    /// holds `value` as its attachment hook left it, every other kind and
    /// node is as it was, and the hooks that ran are logged.
    pub open spec fn attach_step(&self, node: usize, value: C, next: &Self) -> bool {
        let k = value.kind_of();
        &&& self.has_node(node as int)
        &&& next.parents() == self.parents()
        &&& next.maps().len() == self.maps().len()
        &&& forall|j: int|
            0 <= j < self.maps().len() && j != node ==> #[trigger] next.maps()[j]
                == self.maps()[j]
        &&& next.maps()[node as int].is_some()
        &&& next.component(node as int, k) == Some(value.attached(node))
        &&& forall|k2: u64|
            k2 != k ==> #[trigger] next.component(node as int, k2) == self.component(
                node as int,
                k2,
            )
        &&& next.hooks() == self.hooks() + attach_hooks(self.component(node as int, k), node, value)
    }

    /// Attaches `component` to `node_id`. A component of the same kind that
    /// the node held is detached first, then the new one is attached.
    /// Returns `false`, and changes nothing, when the node does not exist.
    pub fn set_node_component(&mut self, node_id: usize, component: C) -> (r: bool)
        requires
            old(self).wf(),
        ensures
            final(self).wf(),
            r == old(self).has_node(node_id as int),
            r ==> old(self).attach_step(node_id, component, final(self)),
            !r ==> *final(self) == *old(self),
    {
        if node_id >= self.parents.len() {
            return false;
        }
        let ghost before = *self;
        let k = component.kind();
        let m = self.comps.take(node_id);
        let mut v: Vec<C> = match m {
            Some(v) => v,
            None => Vec::new(),
        };
        let ghost s = v@;
        assert(kinds_distinct(s)) by {
            if before.maps()[node_id as int].is_some() {
                assert(before.maps()[node_id as int] == Some(s));
            }
        }
        let mut c = component;
        match find_kind(&v, k) {
            Some(i) => {
                proof {
                    lemma_component_at(s, i as int);
                }
                std::mem::swap(&mut v[i], &mut c);
                let ghost prev = c;
                c.on_detachment(node_id);
                v[i].on_attachment(node_id);
                proof {
                    assert(v@ == s.update(i as int, component.attached(node_id)));
                    assert forall|k2: u64| k2 != k implies #[trigger] component_in(v@, k2)
                        == component_in(s, k2) by {
                        lemma_replace_keeps_others(s, i as int, component.attached(node_id), k2);
                    }
                    lemma_replace_keeps_others(s, i as int, component.attached(node_id), k);
                    lemma_component_at(v@, i as int);
                    self.hooks = Ghost(
                        self.hooks@ + seq![
                            Hook::Detached { node: node_id, kind: k, value: prev },
                            Hook::Attached { node: node_id, kind: k, value: component },
                        ],
                    );
                }
            },
            None => {
                c.on_attachment(node_id);
                v.push(c);
                proof {
                    assert(v@ == s.push(component.attached(node_id)));
                    assert forall|k2: u64| k2 != k implies #[trigger] component_in(v@, k2)
                        == component_in(s, k2) by {
                        lemma_push_keeps_others(s, component.attached(node_id), k2);
                    }
                    lemma_push_keeps_others(s, component.attached(node_id), k);
                    lemma_component_at(v@, s.len() as int);
                    self.hooks = Ghost(
                        self.hooks@ + seq![Hook::Attached { node: node_id, kind: k, value: component }],
                    );
                }
            },
        }
        self.comps.put(node_id, Some(v));
        proof {
            assert forall|n: int|
                0 <= n < self.maps().len() && (#[trigger] self.maps()[n]).is_some() implies
                kinds_distinct(self.maps()[n].unwrap()) by {
                if n != node_id {
                    assert(self.maps()[n] == before.maps()[n]);
                }
            }
            assert forall|k2: u64| k2 != k implies #[trigger] self.component(node_id as int, k2)
                == before.component(node_id as int, k2) by {
                if before.maps()[node_id as int].is_none() {
                    assert(!has_kind(s, k2));
                }
            }
            if before.maps()[node_id as int].is_none() {
                assert(!has_kind(s, k));
            }
        }
        true
    }

    /// Where the component that a lookup of `kind` from `node_id` finds is
    /// stored: the holding node and the position in it.
    fn locate(&self, node_id: usize, kind: u64) -> (r: Option<(usize, usize)>)
        requires
            self.wf(),
        ensures
            match r {
                Some((o, i)) => {
                    &&& self.holder(node_id as int) == Some(o as int)
                    &&& o < self.maps().len()
                    &&& self.maps()[o as int].is_some()
                    &&& i < self.maps()[o as int].unwrap().len()
                    &&& self.maps()[o as int].unwrap()[i as int].kind_of() == kind
                    &&& index_of_kind(self.maps()[o as int].unwrap(), kind) == i
                    &&& self.lookup(node_id as int, kind) == Some(self.maps()[o as int].unwrap()[i as int])
                },
                None => self.lookup(node_id as int, kind).is_none(),
            },
    {
        let mut cur: usize = node_id;
        loop
            invariant
                self.wf(),
                self.lookup(cur as int, kind) == self.lookup(node_id as int, kind),
                self.holder(cur as int) == self.holder(node_id as int),
            decreases cur,
        {
            if cur >= self.parents.len() {
                return None;
            }
            match &self.comps.comps[cur] {
                Some(v) => {
                    assert(self.maps()[cur as int] == Some(v@));
                    match find_kind(v, kind) {
                        Some(i) => {
                            proof {
                                lemma_component_at(v@, i as int);
                                let j = index_of_kind(v@, kind);
                                assert(0 <= j < v@.len() && v@[j].kind_of() == kind);
                                assert(j == i);
                            }
                            return Some((cur, i));
                        },
                        None => {
                            return None;
                        },
                    }
                },
                None => {
                    assert(self.maps()[cur as int].is_none());
                    match self.parents[cur] {
                        Some(p) => {
                            assert(self.parents()[cur as int] == Some(p));
                            cur = p;
                        },
                        None => {
                            return None;
                        },
                    }
                },
            }
        }
    }

    /// Mutably borrows the component of kind `kind` that a lookup from
    /// `node_id` finds (see `lookup`). What the caller leaves behind the
    /// borrow is what the holding node then holds; the store stays
    /// well formed as long as the kind is kept.
    pub fn get_mut_node_component(&mut self, node_id: usize, kind: u64) -> (r: Option<&mut C>)
        requires
            old(self).wf(),
        ensures
            old(self).lookup(node_id as int, kind) == match r {
                Some(c) => Some(*c),
                None => None,
            },
            r.is_none() ==> *final(self) == *old(self),
            r.is_some() ==> {
                let c = r.unwrap();
                let o = old(self).holder(node_id as int).unwrap();
                let s = old(self).maps()[o].unwrap();
                &&& old(self).holder(node_id as int).is_some()
                &&& final(self).parents() == old(self).parents()
                &&& final(self).hooks() == old(self).hooks()
                &&& final(self).maps() == old(self).maps().update(
                    o,
                    Some(s.update(index_of_kind(s, kind), *final(c))),
                )
                &&& final(c).kind_of() == kind ==> final(self).wf()
            },
    {
        match self.locate(node_id, kind) {
            Some((o, i)) => {
                let ghost s = self.maps()[o as int].unwrap();
                proof {
                    assert forall|x: C| x.kind_of() == kind implies kinds_distinct(
                        #[trigger] s.update(i as int, x),
                    ) by {
                        lemma_replace_keeps_others(s, i as int, x, kind);
                    }
                }
                Some(self.comps.slot_mut(o, i))
            },
            None => None,
        }
    }

    /// Borrows the component of kind `kind` that a lookup from `node_id`
    /// finds: see `lookup`. An unknown node, or no component of that kind
    /// where the walk ends, gives `None`.
    pub fn get_node_component(&self, node_id: usize, kind: u64) -> (r: Option<&C>)
        requires
            self.wf(),
        ensures
            match r {
                Some(c) => self.lookup(node_id as int, kind) == Some(*c),
                None => self.lookup(node_id as int, kind).is_none(),
            },
    {
        match self.locate(node_id, kind) {
            Some((o, i)) => match &self.comps.comps[o] {
                Some(v) => Some(&v[i]),
                None => None,
            },
            None => None,
        }
    }

    /// `later` has the nodes, parents and logged hooks of `self`, and its
    /// nodes hold components of the same kinds; their contents may differ.
    pub open spec fn same_layout(&self, later: &Self) -> bool {
        &&& later.parents() == self.parents()
        &&& later.hooks() == self.hooks()
        &&& later.maps().len() == self.maps().len()
        &&& forall|n: int|
            0 <= n < self.maps().len() ==> (#[trigger] later.maps()[n]).is_some()
                == self.maps()[n].is_some()
        &&& forall|n: int|
            0 <= n < self.maps().len() && (#[trigger] self.maps()[n]).is_some() ==> same_kinds(
                self.maps()[n].unwrap(),
                later.maps()[n].unwrap(),
            )
    }

    /// Hands an event to every component of `node_id`, in the order they
    /// were first attached: each component's hook gets the wrapper as the
    /// hooks before it left it. An unknown node, or one without components,
    /// lets the event pass untouched.
    pub fn node_on_event(&mut self, node_id: usize, event: &mut EventWrapper<C::Ev>)
        requires
            old(self).wf(),
        ensures
            final(self).wf(),
            old(self).same_layout(final(self)),
            old(event).only_closed_to(final(event)),
            old(self).component_holder(node_id as int) ==> {
                let s = old(self).maps()[node_id as int].unwrap();
                &&& final(self).maps() == old(self).maps().update(
                    node_id as int,
                    Some(handled_all(s, *old(event))),
                )
                &&& *final(event) == wrapper_after(s, *old(event))
            },
            !old(self).component_holder(node_id as int) ==> {
                &&& *final(self) == *old(self)
                &&& *final(event) == *old(event)
            },
    {
        if node_id >= self.parents.len() {
            return;
        }
        if self.comps.comps[node_id].is_none() {
            return;
        }
        let ghost before = *self;
        let ghost w0 = *event;
        let m = self.comps.take(node_id);
        let mut v = m.unwrap();
        let ghost s = v@;
        assert(before.maps()[node_id as int] == Some(s));
        let mut i: usize = 0;
        while i < v.len()
            invariant
                i <= v@.len(),
                v@.len() == s.len(),
                same_kinds(s, v@),
                w0.only_closed_to(event),
                v@ == handled_all(s.subrange(0, i as int), w0) + s.subrange(i as int, s.len() as int),
                *event == wrapper_after(s.subrange(0, i as int), w0),
            decreases v@.len() - i,
        {
            let ghost prev = *event;
            let ghost vs = v@;
            proof {
                assert(vs[i as int] == s[i as int]);
                lemma_hooks_step(s, i as int, w0);
            }
            v[i].on_event(event);
            proof {
                assert(*event == prev.with_gates(s[i as int].gates_after(prev)));
                assert(v@ =~= handled_all(s.subrange(0, i + 1), w0) + s.subrange(i + 1, s.len() as int));
            }
            i += 1;
        }
        proof {
            assert(s.subrange(0, s.len() as int) =~= s);
            assert(v@ =~= handled_all(s, w0));
            assert(kinds_distinct(v@)) by {
                assert forall|a: int, b: int|
                    0 <= a < v@.len() && 0 <= b < v@.len() && a != b implies
                    #[trigger] v@[a].kind_of() != #[trigger] v@[b].kind_of() by {
                    assert(s[a].kind_of() == v@[a].kind_of());
                    assert(s[b].kind_of() == v@[b].kind_of());
                }
            }
        }
        self.comps.put(node_id, Some(v));
        proof {
            assert(self.maps() =~= before.maps().update(node_id as int, Some(handled_all(s, w0))));
            assert forall|n: int|
                0 <= n < self.maps().len() && (#[trigger] self.maps()[n]).is_some() implies
                kinds_distinct(self.maps()[n].unwrap()) by {
                if n != node_id {
                    assert(self.maps()[n] == before.maps()[n]);
                }
            }
            assert forall|n: int|
                0 <= n < before.maps().len() && (#[trigger] before.maps()[n]).is_some() implies
                same_kinds(before.maps()[n].unwrap(), self.maps()[n].unwrap()) by {
                if n != node_id {
                    assert(self.maps()[n] == before.maps()[n]);
                }
            }
        }
    }
}

/// A lookup from a node that holds no component, below ancestors that hold
/// none either, finds nothing, whatever the kind.
pub proof fn lemma_bare_lookup_finds_nothing<C: Component>(nodes: Nodes<C>, node: int, kind: u64)
    requires
        nodes.wf(),
        nodes.bare_line(node),
    ensures
        nodes.lookup(node, kind).is_none(),
    decreases node,
{
    match nodes.parents()[node] {
        Some(p) => {
            lemma_bare_lookup_finds_nothing(nodes, p as int, kind);
        },
        None => {},
    }
}

/// Attaching a component of the kind a node already holds (say, attaching
/// twice) runs exactly one detachment, of the value held, and then the
/// attachment of the new value.
pub proof fn lemma_attach_twice_detaches_once<C: Component>(
    s0: Nodes<C>,
    s1: Nodes<C>,
    s2: Nodes<C>,
    node: usize,
    v1: C,
    v2: C,
)
    requires
        s0.attach_step(node, v1, &s1),
        s1.attach_step(node, v2, &s2),
        v2.kind_of() == v1.kind_of(),
    ensures
        s2.hooks() == s1.hooks() + seq![
            Hook::Detached { node, kind: v1.kind_of(), value: v1.attached(node) },
            Hook::Attached { node, kind: v1.kind_of(), value: v2 },
        ],
        s2.component(node as int, v1.kind_of()) == Some(v2.attached(node)),
{
}

/// After a component is attached to a node, a lookup of its kind from that
/// node finds it, as its attachment hook left it.
pub proof fn lemma_attach_then_lookup<C: Component>(s0: Nodes<C>, s1: Nodes<C>, node: usize, v: C)
    requires
        s0.attach_step(node, v, &s1),
    ensures
        s1.lookup(node as int, v.kind_of()) == Some(v.attached(node)),
{
}

} // verus!
