//! The tree that a search grows: every visited pose with the pose it was
//! reached from, the root standing as its own parent.

use vstd::prelude::*;
use crate::geometry::Pose;

verus! {

/// The poses that a search has visited, each with the position of the pose
/// it was reached from.
pub struct SearchTree {
    nodes: Vec<Pose>,
    parents: Vec<usize>,
}

/// The nodes from the one at `i` up to the root, where `parents` names the
/// position of the parent of each node.
pub open spec fn climb_in(nodes: Seq<Pose>, parents: Seq<int>, i: int) -> Seq<Pose>
    decreases i,
{
    if 0 < i < nodes.len() && i < parents.len() && 0 <= parents[i] < i {
        seq![nodes[i]] + climb_in(nodes, parents, parents[i])
    } else {
        seq![nodes[0]]
    }
}

/// The way from the root down to the node at `i`.
pub open spec fn route_in(nodes: Seq<Pose>, parents: Seq<int>, i: int) -> Seq<Pose> {
    climb_in(nodes, parents, i).reverse()
}

impl SearchTree {
    /// The visited poses in the order in which they were added; the root
    /// comes first.
    pub closed spec fn nodes(&self) -> Seq<Pose> {
        self.nodes@
    }

    /// Position in [`SearchTree::nodes`] of the parent of each node.
    pub closed spec fn parents(&self) -> Seq<int> {
        self.parents@.map_values(|p: usize| p as int)
    }

    /// Position in [`SearchTree::nodes`] of the parent of the node at `i`.
    pub open spec fn parent_index(&self, i: int) -> int {
        self.parents()[i]
    }

    /// The tree has a root that is its own parent, every other node was
    /// added after its parent, and no pose occurs twice.
    pub closed spec fn wf(&self) -> bool {
        &&& self.nodes@.len() == self.parents@.len()
        &&& self.nodes@.len() >= 1
        &&& self.parents@[0] == 0
        &&& forall|i: int| 0 < i < self.parents@.len() ==> (#[trigger] self.parents@[i]) < i
        &&& self.nodes@.no_duplicates()
    }

    /// The pose that the search started from.
    pub open spec fn root(&self) -> Pose {
        self.nodes()[0]
    }

    /// The pose is a node of the tree.
    pub open spec fn has(&self, p: Pose) -> bool {
        self.nodes().contains(p)
    }

    /// The parent of each visited pose.
    pub open spec fn parent_map(&self) -> Map<Pose, Pose> {
        Map::new(
            |p: Pose| self.nodes().contains(p),
            |p: Pose| self.nodes()[self.parent_index(self.nodes().index_of(p))],
        )
    }

    /// The nodes from the one at `i` up to the root.
    pub open spec fn climb(&self, i: int) -> Seq<Pose> {
        climb_in(self.nodes(), self.parents(), i)
    }

    /// The way from the root down to the node at `i`.
    pub open spec fn route(&self, i: int) -> Seq<Pose> {
        route_in(self.nodes(), self.parents(), i)
    }

    /// What [`SearchTree::wf`] says, for those who cannot see the fields.
    pub proof fn lemma_shape(&self)
        requires
            self.wf(),
        ensures
            self.nodes().len() >= 1,
            self.parents().len() == self.nodes().len(),
            self.nodes().no_duplicates(),
            self.parent_index(0) == 0,
            forall|i: int| 0 < i < self.nodes().len() ==> 0 <= #[trigger] self.parent_index(i) < i,
    {
    }

    /// The parent map sends the node at `i` to the node at its parent's index.
    pub proof fn lemma_parent_of_node(&self, i: int)
        requires
            self.wf(),
            0 <= i < self.nodes().len(),
        ensures
            self.parent_map().dom().contains(self.nodes()[i]),
            self.parent_map()[self.nodes()[i]] == self.nodes()[self.parent_index(i)],
    {
        let p = self.nodes()[i];
        self.nodes().index_of_first_ensures(p);
    }

    /// The root is its own parent, and every other visited pose has a parent
    /// that is a visited pose other than itself.
    pub proof fn lemma_no_self_parent(&self, p: Pose)
        requires
            self.wf(),
            self.parent_map().dom().contains(p),
        ensures
            self.parent_map().dom().contains(self.parent_map()[p]),
            (self.parent_map()[p] == p) == (p == self.root()),
    {
        let i = choose|i: int| 0 <= i < self.nodes().len() && self.nodes()[i] == p;
        self.lemma_parent_of_node(i);
    }

    /// The way up from a node starts at that node, ends at the root, holds
    /// no pose twice, and goes from each pose to its parent.
    pub proof fn lemma_climb(&self, i: int)
        requires
            self.wf(),
            0 <= i < self.nodes().len(),
        ensures
            self.climb(i).len() >= 1,
            self.climb(i).len() <= i + 1,
            self.climb(i)[0] == self.nodes()[i],
            self.climb(i).last() == self.root(),
            i > 0 ==> self.climb(i).len() >= 2,
            forall|k: int|
                0 <= k < self.climb(i).len() ==> exists|j: int|
                    0 <= j <= i && #[trigger] self.climb(i)[k] == self.nodes()[j],
            forall|k: int|
                #![trigger self.climb(i)[k]]
                0 <= k < self.climb(i).len() - 1 ==> self.parent_map()[self.climb(i)[k]]
                    == self.climb(i)[k + 1],
            self.climb(i).no_duplicates(),
        decreases i,
    {
        if i > 0 {
            let j = self.parent_index(i);
            self.lemma_climb(j);
        }
    }

    /// The way down to a node starts at the root, ends at that node, holds no
    /// pose twice, and goes from each pose to one that it is the parent of.
    pub proof fn lemma_route(&self, i: int)
        requires
            self.wf(),
            0 <= i < self.nodes().len(),
        ensures
            self.route(i).len() == self.climb(i).len(),
            self.route(i).len() >= 1,
            i > 0 ==> self.route(i).len() >= 2,
            self.route(i)[0] == self.root(),
            self.route(i).last() == self.nodes()[i],
            forall|k: int| 0 <= k < self.route(i).len() ==> self.has(#[trigger] self.route(i)[k]),
            forall|k: int|
                #![trigger self.route(i)[k]]
                0 <= k < self.route(i).len() - 1 ==> self.parent_map()[self.route(i)[k + 1]]
                    == self.route(i)[k],
            self.route(i).no_duplicates(),
    {
        self.lemma_climb(i);
    }

    /// A tree that holds its root alone.
    pub fn new(root: Pose) -> (tree: Self)
        ensures
            tree.wf(),
            tree.nodes() == seq![root],
            tree.parents() == seq![0int],
    {
        let mut nodes: Vec<Pose> = Vec::new();
        nodes.push(root);
        let mut parents: Vec<usize> = Vec::new();
        parents.push(0);
        let tree = SearchTree { nodes, parents };
        tree
    }

    /// Number of visited poses.
    pub fn len(&self) -> (n: usize)
        requires
            self.wf(),
        ensures
            n == self.nodes().len(),
            n >= 1,
    {
        self.nodes.len()
    }

    /// The visited pose at position `i`.
    pub fn node(&self, i: usize) -> (p: Pose)
        requires
            self.wf(),
            i < self.nodes().len(),
        ensures
            p == self.nodes()[i as int],
    {
        self.nodes[i]
    }

    /// Position of the parent of the node at `i`.
    pub fn parent(&self, i: usize) -> (j: usize)
        requires
            self.wf(),
            i < self.nodes().len(),
        ensures
            j == self.parent_index(i as int),
            j < self.nodes().len(),
            i > 0 ==> j < i,
    {
        self.parents[i]
    }

    /// Where the pose stands among the nodes, if it was visited.
    pub fn position(&self, p: &Pose) -> (at: Option<usize>)
        requires
            self.wf(),
        ensures
            match at {
                Some(i) => i < self.nodes().len() && self.nodes()[i as int] == *p,
                None => !self.has(*p),
            },
    {
        let mut i: usize = 0;
        while i < self.nodes.len()
            invariant
                i <= self.nodes@.len(),
                forall|k: int| 0 <= k < i ==> self.nodes@[k] != *p,
            decreases self.nodes@.len() - i,
        {
            if self.nodes[i] == *p {
                return Some(i);
            }
            i = i + 1;
        }
        None
    }

    /// Whether the pose was visited.
    pub fn contains(&self, p: &Pose) -> (found: bool)
        requires
            self.wf(),
        ensures
            found == self.has(*p),
    {
        self.position(p).is_some()
    }

    /// Adds a pose that was not visited yet, reached from the node at
    /// `parent`.
    pub fn insert(&mut self, child: Pose, parent: usize)
        requires
            old(self).wf(),
            parent < old(self).nodes().len(),
            !old(self).has(child),
        ensures
            final(self).wf(),
            final(self).nodes() == old(self).nodes().push(child),
            final(self).parents() == old(self).parents().push(parent as int),
            final(self).parent_map() == old(self).parent_map().insert(
                child,
                old(self).nodes()[parent as int],
            ),
    {
        self.nodes.push(child);
        self.parents.push(parent);
        proof {
            let before = old(self).nodes@;
            let after = self.nodes@;
            let grown = old(self).parent_map().insert(child, before[parent as int]);
            assert forall|p: Pose| self.parent_map().dom().contains(p) == grown.dom().contains(p) by {
                if after.contains(p) {
                    let k = choose|k: int| 0 <= k < after.len() && after[k] == p;
                }
                if before.contains(p) {
                    let k = choose|k: int| 0 <= k < before.len() && before[k] == p;
                    assert(after[k] == p);
                }
                if p == child {
                    assert(after[before.len() as int] == child);
                }
            }
        }
    }

    /// The way from the root down to the node at `i`.
    pub fn path_to(&self, i: usize) -> (path: Vec<Pose>)
        requires
            self.wf(),
            i < self.nodes().len(),
        ensures
            path@ == self.route(i as int),
    {
        let mut up: Vec<Pose> = Vec::new();
        let mut at: usize = i;
        up.push(self.nodes[at]);
        while at != 0
            invariant
                self.wf(),
                at < self.nodes@.len(),
                up@.len() >= 1,
                up@.last() == self.nodes@[at as int],
                up@.drop_last() + self.climb(at as int) == self.climb(i as int),
            decreases at,
        {
            at = self.parents[at];
            up.push(self.nodes[at]);
        }
        let mut path: Vec<Pose> = Vec::new();
        let mut k: usize = up.len();
        while k > 0
            invariant
                k <= up@.len(),
                path@.len() == up@.len() - k,
                forall|m: int| 0 <= m < path@.len() ==> path@[m] == up@[up@.len() - 1 - m],
            decreases k,
        {
            k = k - 1;
            path.push(up[k]);
        }
        path
    }
}

} // verus!
