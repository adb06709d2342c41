use std::collections::HashSet;

use vstd::prelude::*;

use cfg::GAllocVariable;

pub mod arena;
pub mod cfg;
pub mod liveness;
pub mod marking;

verus! {

/// A half-open range `[begin, end)` of instruction indices in a program.
pub struct ProgramRange {
    /// The first index of the range (inclusive).
    pub begin: usize,
    /// The index one past the range (exclusive).
    pub end: usize,
}

impl ProgramRange {
    /// The range holds the index `i`.
    pub open spec fn contains_index(&self, i: int) -> bool {
        self.begin <= i < self.end
    }

    /// The two ranges hold at least one common index.
    pub open spec fn shares_index_with(&self, other: &ProgramRange) -> bool {
        exists|i: int| self.contains_index(i) && other.contains_index(i)
    }

    /// Checks whether this range and `other` hold a common index.
    ///
    /// Two ranges overlap exactly when the start of one of them lies inside both;
    /// an empty range never overlaps anything.
    pub fn interferes_with(&self, other: &ProgramRange) -> (r: bool)
        ensures
            r == self.shares_index_with(other),
    {
        let begin_interferes = self.begin < self.end && self.begin >= other.begin
            && self.begin < other.end;
        let other_begin_interferes = other.begin < other.end && other.begin >= self.begin
            && other.begin < self.end;
        proof {
            if begin_interferes {
                assert(self.contains_index(self.begin as int) && other.contains_index(self.begin as int));
            }
            if other_begin_interferes {
                assert(self.contains_index(other.begin as int) && other.contains_index(other.begin as int));
            }
        }
        begin_interferes || other_begin_interferes
    }
}

/// A non-empty range interferes with itself, an empty one does not; the test gives
/// the same answer in both directions; and ranges that only touch at a boundary
/// do not interfere.
pub proof fn lemma_range_interference_symmetric(a: ProgramRange, b: ProgramRange)
    ensures
        a.shares_index_with(&b) == b.shares_index_with(&a),
        a.shares_index_with(&a) <==> a.begin < a.end,
        a.end == b.begin ==> !a.shares_index_with(&b),
{
    if a.begin < a.end {
        assert(a.contains_index(a.begin as int));
    }
}

/// The instruction indices at which one variable is live; not necessarily contiguous.
pub struct Liveness {
    /// All the instruction indices at which the variable is live.
    instructions: Vec<usize>,
}

impl View for Liveness {
    type V = Set<usize>;

    closed spec fn view(&self) -> Set<usize> {
        self.instructions@.to_set()
    }
}

impl Liveness {
    /// A liveness with no live index.
    pub fn new() -> (r: Liveness)
        ensures
            r@ == Set::<usize>::empty(),
    {
        let r = Liveness { instructions: Vec::new() };
        proof {
            assert(r@ =~= Set::<usize>::empty());
        }
        r
    }

    /// Marks the variable live at the instruction `index`.
    pub fn mark_live(&mut self, index: usize)
        ensures
            final(self)@ == old(self)@.insert(index),
    {
        self.instructions.push(index);
        proof {
            let s = self.instructions@;
            let o = old(self).instructions@;
            assert forall|x: usize| s.to_set().contains(x) <==> o.to_set().insert(index).contains(x) by {
                if x == index {
                    assert(s[s.len() - 1] == x);
                } else if s.contains(x) {
                    let k = choose|k: int| 0 <= k < s.len() && s[k] == x;
                    assert(o[k] == x);
                } else if o.contains(x) {
                    let k = choose|k: int| 0 <= k < o.len() && o[k] == x;
                    assert(s[k] == x);
                }
            }
            assert(s.to_set() =~= o.to_set().insert(index));
        }
    }

    /// Checks whether the variable is live at the instruction `index`.
    pub fn is_live_at(&self, index: usize) -> (r: bool)
        ensures
            r == self@.contains(index),
    {
        let mut k: usize = 0;
        while k < self.instructions.len()
            invariant
                k <= self.instructions@.len(),
                forall|j: int| 0 <= j < k ==> self.instructions@[j] != index,
            decreases self.instructions@.len() - k,
        {
            if self.instructions[k] == index {
                return true;
            }
            k = k + 1;
        }
        false
    }

    /// Checks whether both variables are live at some common instruction.
    pub fn interferes_with(&self, other: &Liveness) -> (r: bool)
        ensures
            r == !self@.disjoint(other@),
    {
        broadcast use vstd::std_specs::hash::group_hash_axioms;

        let mut set: HashSet<usize> = HashSet::new();
        let mut k: usize = 0;
        while k < self.instructions.len()
            invariant
                k <= self.instructions@.len(),
                set@ == self.instructions@.subrange(0, k as int).to_set(),
            decreases self.instructions@.len() - k,
        {
            let x = self.instructions[k];
            set.insert(x);
            proof {
                let s = self.instructions@;
                assert(s.subrange(0, k + 1) =~= s.subrange(0, k as int).push(x));
                s.subrange(0, k as int).lemma_push_to_set_commute(x);
            }
            k = k + 1;
        }
        proof {
            assert(self.instructions@.subrange(0, k as int) =~= self.instructions@);
        }
        let mut j: usize = 0;
        while j < other.instructions.len()
            invariant
                j <= other.instructions@.len(),
                set@ == self@,
                forall|i: int| 0 <= i < j ==> !self@.contains(#[trigger] other.instructions@[i]),
            decreases other.instructions@.len() - j,
        {
            if set.contains(&other.instructions[j]) {
                proof {
                    assert(other@.contains(other.instructions@[j as int]));
                }
                return true;
            }
            j = j + 1;
        }
        proof {
            assert forall|x: usize| !(self@.contains(x) && other@.contains(x)) by {
                if other@.contains(x) {
                    let i = choose|i: int| 0 <= i < other.instructions@.len() && other.instructions@[i] == x;
                }
            }
        }
        false
    }
}

/// Two livenesses interfere in both directions alike, and an empty liveness
/// interferes with nothing.
pub proof fn lemma_liveness_interference_symmetric(a: Liveness, b: Liveness)
    ensures
        !a@.disjoint(b@) == !b@.disjoint(a@),
        a@.is_empty() ==> a@.disjoint(b@),
{
}

/// Classification of a variable by its storage width.
#[derive(Eq, PartialEq, Structural, Debug, Copy, Clone)]
pub enum TypeClass {
    Int8,
    Int16,
    Int32,
    Int64,
    Huge,
}

} // verus!

verus! {

/// A stable handle to a node of an [`IFRGraph`].
#[derive(Debug, Clone, Copy)]
pub struct IFRNodeHandle {
    index: usize,
}

impl IFRNodeHandle {
    /// The position of the node in its graph.
    pub closed spec fn index_spec(&self) -> nat {
        self.index as nat
    }

    /// Returns the position of the node in its graph.
    pub fn index(&self) -> (r: usize)
        ensures
            r == self.index_spec(),
    {
        self.index
    }
}

/// An undirected edge between two nodes of an [`IFRGraph`].
#[derive(Debug)]
pub struct IFREdge {
    a: IFRNodeHandle,
    b: IFRNodeHandle,
}

impl IFREdge {
    /// The two ends of the edge, as node positions.
    pub closed spec fn ends(&self) -> (nat, nat) {
        (self.a.index_spec(), self.b.index_spec())
    }

    /// Returns the first end of the edge.
    pub fn a(&self) -> (r: IFRNodeHandle)
        ensures
            r.index_spec() == self.ends().0,
    {
        self.a
    }

    /// Returns the second end of the edge.
    pub fn b(&self) -> (r: IFRNodeHandle)
        ensures
            r.index_spec() == self.ends().1,
    {
        self.b
    }
}

/// Variable interference graph: an append-only undirected graph whose nodes are
/// variables and whose edges join variables that are live at the same time.
#[derive(Debug)]
pub struct IFRGraph<V: GAllocVariable> {
    /// All nodes of this graph
    nodes: Vec<V>,
    edges: Vec<IFREdge>,
}

impl<V: GAllocVariable> IFRGraph<V> {
    /// The nodes, in the order they were pushed.
    pub closed spec fn nodes_spec(&self) -> Seq<V> {
        self.nodes@
    }

    /// The edges, as pairs of node positions, in the order they were pushed.
    pub closed spec fn edges_spec(&self) -> Seq<(nat, nat)> {
        self.edges@.map_values(|e: IFREdge| e.ends())
    }

    /// Every edge joins two nodes of the graph.
    pub open spec fn wf(&self) -> bool {
        forall|i: int|
            0 <= i < self.edges_spec().len() ==> {
                &&& (#[trigger] self.edges_spec()[i]).0 < self.nodes_spec().len()
                &&& self.edges_spec()[i].1 < self.nodes_spec().len()
            }
    }

    /// Creates a new empty interference graph.
    pub fn new() -> (r: Self)
        ensures
            r.wf(),
            r.nodes_spec() == Seq::<V>::empty(),
            r.edges_spec() == Seq::<(nat, nat)>::empty(),
    {
        let r = IFRGraph { nodes: Vec::new(), edges: Vec::new() };
        proof {
            assert(r.edges_spec() =~= Seq::<(nat, nat)>::empty());
        }
        r
    }

    /// Pushes a node onto this graph and returns its handle, the next position.
    pub fn push_node(&mut self, node: V) -> (r: IFRNodeHandle)
        requires
            old(self).wf(),
        ensures
            final(self).wf(),
            final(self).nodes_spec() == old(self).nodes_spec().push(node),
            final(self).edges_spec() == old(self).edges_spec(),
            r.index_spec() == old(self).nodes_spec().len(),
    {
        self.nodes.push(node);
        proof {
            assert(self.edges_spec() == old(self).edges_spec());
            assert(self.nodes_spec().len() == old(self).nodes_spec().len() + 1);
        }
        IFRNodeHandle { index: self.nodes.len() - 1 }
    }

    /// Records an undirected edge between the nodes of two handles of this graph.
    pub fn push_edge(&mut self, a: IFRNodeHandle, b: IFRNodeHandle)
        requires
            old(self).wf(),
            a.index_spec() < old(self).nodes_spec().len(),
            b.index_spec() < old(self).nodes_spec().len(),
        ensures
            final(self).wf(),
            final(self).nodes_spec() == old(self).nodes_spec(),
            final(self).edges_spec() == old(self).edges_spec().push((a.index_spec(), b.index_spec())),
    {
        let e = IFREdge { a, b };
        self.edges.push(e);
        proof {
            assert(self.edges_spec() =~= old(self).edges_spec().push((a.index_spec(), b.index_spec())));
        }
    }

    /// Returns the number of nodes.
    pub fn node_count(&self) -> (r: usize)
        ensures
            r == self.nodes_spec().len(),
    {
        self.nodes.len()
    }

    /// Returns the number of edges.
    pub fn edge_count(&self) -> (r: usize)
        ensures
            r == self.edges_spec().len(),
    {
        self.edges.len()
    }

    /// Returns the node of a handle of this graph.
    pub fn node(&self, handle: IFRNodeHandle) -> (r: &V)
        requires
            handle.index_spec() < self.nodes_spec().len(),
        ensures
            *r == self.nodes_spec()[handle.index_spec() as int],
    {
        &self.nodes[handle.index]
    }

    /// Returns the edge at position `i`.
    pub fn edge(&self, i: usize) -> (r: &IFREdge)
        requires
            i < self.edges_spec().len(),
        ensures
            r.ends() == self.edges_spec()[i as int],
    {
        &self.edges[i]
    }
}

impl<V: GAllocVariable> Default for IFRGraph<V> {
    fn default() -> (r: Self)
        ensures
            r.wf(),
            r.nodes_spec() == Seq::<V>::empty(),
            r.edges_spec() == Seq::<(nat, nat)>::empty(),
    {
        Self::new()
    }
}

/// Pushing a node never disturbs the nodes already there: every handle handed out
/// before still names the same variable, and the new handle differs from all of them.
pub proof fn lemma_graph_handles_stable<V: GAllocVariable>(
    before: IFRGraph<V>,
    after: IFRGraph<V>,
    node: V,
    fresh: IFRNodeHandle,
    earlier: IFRNodeHandle,
)
    requires
        after.nodes_spec() == before.nodes_spec().push(node),
        fresh.index_spec() == before.nodes_spec().len(),
        earlier.index_spec() < before.nodes_spec().len(),
    ensures
        fresh.index_spec() != earlier.index_spec(),
        after.nodes_spec()[earlier.index_spec() as int] == before.nodes_spec()[earlier.index_spec() as int],
        after.nodes_spec()[fresh.index_spec() as int] == node,
        earlier.index_spec() < after.nodes_spec().len(),
{
}

} // verus!
