//! The node forest: node ids are indices, and a node's parent always has a
//! smaller id, so every ancestor walk ends.
use crate::comp::{Component, Components, Hook};
use vstd::prelude::*;

verus! {

/// The nodes of the application and the components attached to them.
pub struct Nodes<C> {
    pub(crate) parents: Vec<Option<usize>>,
    pub(crate) comps: Components<C>,
    pub(crate) hooks: Ghost<Seq<Hook<C>>>,
}

impl<C: Component> Nodes<C> {
    /// The parent of each node, by node id.
    pub open(crate) spec fn parents(&self) -> Seq<Option<usize>> {
        self.parents@
    }

    /// The components of each node, by node id; `None` for a node that has
    /// never held a component.
    pub open(crate) spec fn maps(&self) -> Seq<Option<Seq<C>>> {
        self.comps@
    }

    /// Every lifecycle hook that the store has run, oldest first.
    pub open(crate) spec fn hooks(&self) -> Seq<Hook<C>> {
        self.hooks@
    }

    pub open spec fn len(&self) -> nat {
        self.parents().len()
    }

    pub open spec fn has_node(&self, node: int) -> bool {
        0 <= node < self.len()
    }

    /// A node's parent exists and has a smaller id; on each node the
    /// components have distinct kinds.
    pub open spec fn wf(&self) -> bool {
        &&& self.maps().len() == self.parents().len()
        &&& forall|n: int|
            0 <= n < self.parents().len() && (#[trigger] self.parents()[n]).is_some()
                ==> self.parents()[n].unwrap() < n
        &&& forall|n: int|
            0 <= n < self.maps().len() && (#[trigger] self.maps()[n]).is_some()
                ==> crate::comp::kinds_distinct(self.maps()[n].unwrap())
    }

    /// The parent of `node`, if `node` exists and has one.
    pub open spec fn parent(&self, node: int) -> Option<usize> {
        if self.has_node(node) {
            self.parents()[node]
        } else {
            None
        }
    }

    /// The component of kind `kind` held by `node` itself.
    pub open spec fn component(&self, node: int, kind: u64) -> Option<C> {
        if self.has_node(node) {
            match self.maps()[node] {
                Some(s) => crate::comp::component_in(s, kind),
                None => None,
            }
        } else {
            None
        }
    }

    /// What a lookup of `kind` from `node` finds: the answer of the nearest
    /// node, `node` itself or an ancestor, that holds any component at all.
    /// A node that holds components but none of this kind ends the walk.
    pub open spec fn lookup(&self, node: int, kind: u64) -> Option<C>
        decreases node,
    {
        if !self.has_node(node) {
            None
        } else {
            match self.maps()[node] {
                Some(s) => crate::comp::component_in(s, kind),
                None => match self.parents()[node] {
                    Some(p) => if 0 <= p < node {
                        self.lookup(p as int, kind)
                    } else {
                        None
                    },
                    None => None,
                },
            }
        }
    }

    /// An empty forest.
    pub fn new() -> (r: Nodes<C>)
        ensures
            r.wf(),
            r.len() == 0,
            r.hooks() == Seq::<Hook<C>>::empty(),
    {
        Nodes { parents: Vec::new(), comps: Components::new(), hooks: Ghost(Seq::empty()) }
    }

    /// The number of nodes.
    pub fn node_count(&self) -> (r: usize)
        requires
            self.wf(),
        ensures
            r == self.len(),
    {
        self.parents.len()
    }

    /// Adds a node under `parent`, or a root when `parent` is `None`, and
    /// returns its id. Returns `None`, and changes nothing, when the parent
    /// does not exist or no id is left.
    pub fn add_node(&mut self, parent: Option<usize>) -> (r: Option<usize>)
        requires
            old(self).wf(),
        ensures
            final(self).wf(),
            final(self).hooks() == old(self).hooks(),
            r.is_some() <==> (old(self).len() < usize::MAX && match parent {
                Some(p) => p < old(self).len(),
                None => true,
            }),
            r.is_some() ==> {
                &&& r.unwrap() == old(self).len()
                &&& final(self).parents() == old(self).parents().push(parent)
                &&& final(self).maps() == old(self).maps().push(None)
            },
            r.is_none() ==> *final(self) == *old(self),
    {
        let n = self.parents.len();
        if n == usize::MAX {
            return None;
        }
        match parent {
            Some(p) => if p >= n {
                return None;
            },
            None => {},
        }
        self.parents.push(parent);
        self.comps.push_empty();
        proof {
            assert forall|i: int|
                0 <= i < self.maps().len() && (#[trigger] self.maps()[i]).is_some() implies
                crate::comp::kinds_distinct(self.maps()[i].unwrap()) by {
                assert(i < n);
                assert(self.maps()[i] == old(self).maps()[i]);
            }
            assert forall|i: int|
                0 <= i < self.parents().len() && (#[trigger] self.parents()[i]).is_some() implies
                self.parents()[i].unwrap() < i by {
                if i < n {
                    assert(self.parents()[i] == old(self).parents()[i]);
                }
            }
        }
        Some(n)
    }

    /// The parent of `node_id`; `None` for a root or an unknown id.
    pub fn get_node_parent_id(&self, node_id: usize) -> (r: Option<usize>)
        requires
            self.wf(),
        ensures
            r == self.parent(node_id as int),
    {
        if node_id < self.parents.len() {
            self.parents[node_id]
        } else {
            None
        }
    }
}

} // verus!
