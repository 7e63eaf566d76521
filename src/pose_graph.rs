use vstd::prelude::*;

verus! {

/// The claim "node `i` moved by `i_to_j` is node `j`".
pub struct PoseGraphEdge<E> {
    pub i: usize,
    pub j: usize,
    pub i_to_j: E,
}

/// Why a loop closure was refused.
#[derive(Debug, Clone, Copy, PartialEq, Eq, Structural)]
pub enum PoseGraphError {
    /// An end of the edge is not a node of the graph.
    NoSuchNode,
}

/// Which nodes a pose graph has and which constraints join them. Node 0 is
/// the anchor; each later node is joined to the one before it by the
/// odometry edge that created it; loop closures join any two nodes.
pub struct PoseGraphTopology<E> {
    node_count: usize,
    edges: Vec<PoseGraphEdge<E>>,
    dirty: bool,
}

/// Endpoints of the edges, in insertion order.
pub open spec fn edge_ends<E>(edges: Seq<PoseGraphEdge<E>>) -> Seq<(int, int)> {
    edges.map_values(|e: PoseGraphEdge<E>| (e.i as int, e.j as int))
}

/// Every edge joins two of the `n` nodes.
pub open spec fn edges_in_range(ends: Seq<(int, int)>, n: int) -> bool {
    forall|k: int| 0 <= k < ends.len() ==> 0 <= (#[trigger] ends[k]).0 < n && 0 <= ends[k].1 < n
}

/// Some edge joins node `j - 1` to node `j`.
pub open spec fn joined_to_previous(ends: Seq<(int, int)>, j: int) -> bool {
    exists|k: int| 0 <= k < ends.len() && #[trigger] ends[k] == (j - 1, j)
}

/// Each node after the anchor is joined to the node before it, so every
/// node is reached from node 0.
pub open spec fn chained_from_anchor(ends: Seq<(int, int)>, n: int) -> bool {
    forall|j: int| 1 <= j < n ==> #[trigger] joined_to_previous(ends, j)
}

impl<E> PoseGraphTopology<E> {
    pub closed spec fn nodes(&self) -> nat {
        self.node_count as nat
    }

    pub closed spec fn ends(&self) -> Seq<(int, int)> {
        edge_ends(self.edges@)
    }

    /// Whether edges were added since the last optimisation.
    pub closed spec fn has_pending_edges(&self) -> bool {
        self.dirty
    }

    pub closed spec fn wf(&self) -> bool {
        &&& self.node_count >= 1
        &&& edges_in_range(self.ends(), self.node_count as int)
        &&& chained_from_anchor(self.ends(), self.node_count as int)
    }

    /// A graph of the anchor alone.
    pub fn new() -> (r: Self)
        ensures
            r.wf(),
            r.nodes() == 1,
            r.ends() == Seq::<(int, int)>::empty(),
            !r.has_pending_edges(),
    {
        let r = PoseGraphTopology { node_count: 1, edges: Vec::new(), dirty: false };
        assert(r.ends() =~= Seq::<(int, int)>::empty());
        r
    }

    pub fn node_count(&self) -> (r: usize)
        ensures
            r == self.nodes(),
    {
        self.node_count
    }

    /// The edges, oldest first.
    pub fn edges(&self) -> (r: &Vec<PoseGraphEdge<E>>)
        ensures
            edge_ends(r@) == self.ends(),
    {
        &self.edges
    }

    /// Adds a node after the newest one, joined to it by `prev_to_new`.
    /// Returns the new node's index.
    pub fn add_node(&mut self, prev_to_new: E) -> (r: usize)
        requires
            old(self).wf(),
            old(self).nodes() < usize::MAX,
        ensures
            final(self).wf(),
            r == old(self).nodes(),
            final(self).nodes() == old(self).nodes() + 1,
            final(self).ends() == old(self).ends().push((r as int - 1, r as int)),
            final(self).has_pending_edges() == old(self).has_pending_edges(),
    {
        let n = self.node_count;
        let ghost before = self.ends();
        self.edges.push(PoseGraphEdge { i: n - 1, j: n, i_to_j: prev_to_new });
        self.node_count = n + 1;
        assert(self.ends() =~= before.push((n - 1, n as int)));
        assert forall|j: int| 1 <= j < n + 1 implies #[trigger] joined_to_previous(self.ends(), j) by {
            if j == n {
                assert(self.ends()[before.len() as int] == (j - 1, j));
            } else {
                assert(joined_to_previous(before, j));
                let k = choose|k: int| 0 <= k < before.len() && #[trigger] before[k] == (j - 1, j);
                assert(self.ends()[k] == before[k]);
            }
        }
        n
    }

    /// Adds the claim that node `i` moved by `i_to_j` is node `j`. Refused,
    /// changing nothing, when either node does not exist.
    pub fn add_loop_closure(&mut self, i: usize, j: usize, i_to_j: E) -> (r: Result<(), PoseGraphError>)
        requires
            old(self).wf(),
        ensures
            final(self).wf(),
            r is Ok <==> i < old(self).nodes() && j < old(self).nodes(),
            final(self).nodes() == old(self).nodes(),
            r is Ok ==> final(self).ends() == old(self).ends().push((i as int, j as int)),
            r is Ok ==> final(self).has_pending_edges(),
            r is Err ==> final(self).ends() == old(self).ends(),
            r is Err ==> final(self).has_pending_edges() == old(self).has_pending_edges(),
    {
        if i >= self.node_count || j >= self.node_count {
            return Err(PoseGraphError::NoSuchNode);
        }
        let ghost before = self.ends();
        self.edges.push(PoseGraphEdge { i, j, i_to_j });
        self.dirty = true;
        assert(self.ends() =~= before.push((i as int, j as int)));
        assert forall|m: int| 1 <= m < self.node_count implies #[trigger] joined_to_previous(
            self.ends(),
            m,
        ) by {
            assert(joined_to_previous(before, m));
            let k = choose|k: int| 0 <= k < before.len() && #[trigger] before[k] == (m - 1, m);
            assert(self.ends()[k] == before[k]);
        }
        Ok(())
    }

    /// Records that the node estimates now account for every edge.
    pub fn mark_optimized(&mut self)
        ensures
            !final(self).has_pending_edges(),
            final(self).nodes() == old(self).nodes(),
            final(self).ends() == old(self).ends(),
            old(self).wf() ==> final(self).wf(),
    {
        self.dirty = false;
    }

    pub fn is_dirty(&self) -> (r: bool)
        ensures
            r == self.has_pending_edges(),
    {
        self.dirty
    }
}

} // verus!
