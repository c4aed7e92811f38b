use vstd::prelude::*;

verus! {

/// The buffers that a new buffer was made from, by the index of their nodes.
#[derive(Clone, Copy, Debug, PartialEq, Eq, Structural)]
pub enum Deps {
    /// An input: made from nothing.
    Leaf,
    /// The result of an operation on one buffer.
    Unary(usize),
    /// The result of an operation on two buffers.
    Binary(usize, usize),
}

impl Deps {
    /// Every buffer named here has an index under `bound`.
    pub open spec fn below(self, bound: int) -> bool {
        match self {
            Deps::Leaf => true,
            Deps::Unary(a) => a < bound,
            Deps::Binary(a, b) => a < bound && b < bound,
        }
    }

    /// The node at `idx` is one of the buffers named.
    pub open spec fn names(self, idx: int) -> bool {
        match self {
            Deps::Leaf => false,
            Deps::Unary(a) => a == idx,
            Deps::Binary(a, b) => a == idx || b == idx,
        }
    }

    pub fn is_named(&self, idx: usize) -> (b: bool)
        ensures
            b == self.names(idx as int),
    {
        match self {
            Deps::Leaf => false,
            Deps::Unary(a) => *a == idx,
            Deps::Binary(a, b) => *a == idx || *b == idx,
        }
    }

    pub fn is_below(&self, bound: usize) -> (b: bool)
        ensures
            b == self.below(bound as int),
    {
        match self {
            Deps::Leaf => true,
            Deps::Unary(a) => *a < bound,
            Deps::Binary(a, b) => *a < bound && *b < bound,
        }
    }

    /// The dependencies of a result whose operands sit at the given nodes; an
    /// operand without a node adds none.
    pub fn of(lhs: Option<usize>, rhs: Option<usize>) -> (deps: Deps)
        ensures
            deps == match (lhs, rhs) {
                (Some(a), Some(b)) => Deps::Binary(a, b),
                (Some(a), None) => Deps::Unary(a),
                (None, Some(b)) => Deps::Unary(b),
                (None, None) => Deps::Leaf,
            },
    {
        match (lhs, rhs) {
            (Some(a), Some(b)) => Deps::Binary(a, b),
            (Some(a), None) => Deps::Unary(a),
            (None, Some(b)) => Deps::Unary(b),
            (None, None) => Deps::Leaf,
        }
    }
}

/// What the graph records of one buffer.
#[derive(Clone, Copy, Debug, PartialEq, Eq, Structural)]
pub struct Node {
    /// Position of the node in its graph.
    pub idx: usize,
    /// The nodes it was made from.
    pub deps: Deps,
    /// Number of elements of the buffer.
    pub len: usize,
}

impl Node {
    pub fn is_leaf(&self) -> (b: bool)
        ensures
            b == (self.deps == Deps::Leaf),
    {
        match self.deps {
            Deps::Leaf => true,
            _ => false,
        }
    }
}

/// The buffers a device has produced, in the order of their making, each with
/// the buffers it was derived from.
#[derive(Debug)]
pub struct Graph {
    nodes: Vec<Node>,
}

impl View for Graph {
    type V = Seq<Node>;

    closed spec fn view(&self) -> Seq<Node> {
        self.nodes@
    }
}

/// Every node sits at the index it carries, and was made from earlier nodes
/// only.
pub open spec fn ordered(nodes: Seq<Node>) -> bool {
    forall|i: int|
        0 <= i < nodes.len() ==> (#[trigger] nodes[i]).idx == i && nodes[i].deps.below(i)
}

impl Graph {
    pub open spec fn wf(&self) -> bool {
        ordered(self@)
    }

    /// A graph without nodes.
    pub fn new() -> (graph: Graph)
        ensures
            graph@ == Seq::<Node>::empty(),
            graph.wf(),
    {
        Graph { nodes: Vec::new() }
    }

    /// Number of nodes.
    pub fn len(&self) -> (n: usize)
        ensures
            n == self@.len(),
    {
        self.nodes.len()
    }

    pub fn is_empty(&self) -> (b: bool)
        ensures
            b == (self@.len() == 0),
    {
        self.nodes.len() == 0
    }

    /// The node at `idx`, if there is one.
    pub fn node(&self, idx: usize) -> (node: Option<Node>)
        ensures
            node == (if idx < self@.len() {
                Some(self@[idx as int])
            } else {
                None
            }),
    {
        if idx < self.nodes.len() {
            Some(self.nodes[idx])
        } else {
            None
        }
    }

    /// Whether the node at `idx` exists and was made from nothing.
    pub fn is_leaf(&self, idx: usize) -> (b: bool)
        ensures
            b == (idx < self@.len() && self@[idx as int].deps == Deps::Leaf),
    {
        if idx < self.nodes.len() {
            self.nodes[idx].is_leaf()
        } else {
            false
        }
    }

    /// Whether some node was made from the node at `idx`. A node that none
    /// was made from is a result that no operation of the graph has read.
    pub fn is_used(&self, idx: usize) -> (used: bool)
        ensures
            used == exists|j: int| 0 <= j < self@.len() && (#[trigger] self@[j]).deps.names(
                idx as int,
            ),
    {
        let mut j: usize = 0;
        while j < self.nodes.len()
            invariant
                j <= self.nodes@.len(),
                forall|k: int| 0 <= k < j ==> !(#[trigger] self.nodes@[k]).deps.names(idx as int),
            decreases self.nodes@.len() - j,
        {
            if self.nodes[j].deps.is_named(idx) {
                return true;
            }
            j = j + 1;
        }
        false
    }

    /// Appends a node made from `deps` and returns it.
    pub fn add(&mut self, len: usize, deps: Deps) -> (node: Node)
        requires
            old(self).wf(),
            deps.below(old(self)@.len() as int),
        ensures
            node == (Node { idx: old(self)@.len() as usize, deps, len }),
            final(self)@ == old(self)@.push(node),
            final(self).wf(),
    {
        let node = Node { idx: self.nodes.len(), deps, len };
        self.nodes.push(node);
        node
    }

    /// Appends a node without dependencies and returns it.
    pub fn add_leaf(&mut self, len: usize) -> (node: Node)
        requires
            old(self).wf(),
        ensures
            node == (Node { idx: old(self)@.len() as usize, deps: Deps::Leaf, len }),
            final(self)@ == old(self)@.push(node),
            final(self).wf(),
    {
        self.add(len, Deps::Leaf)
    }

    /// Appends the node of a result whose operands sit at `lhs_idx` and
    /// `rhs_idx`, and returns it.
    pub fn add_node(&mut self, len: usize, lhs_idx: usize, rhs_idx: usize) -> (node: Node)
        requires
            old(self).wf(),
            lhs_idx < old(self)@.len(),
            rhs_idx < old(self)@.len(),
        ensures
            node == (Node {
                idx: old(self)@.len() as usize,
                deps: Deps::Binary(lhs_idx, rhs_idx),
                len,
            }),
            final(self)@ == old(self)@.push(node),
            final(self).wf(),
    {
        self.add(len, Deps::Binary(lhs_idx, rhs_idx))
    }
}

impl Default for Graph {
    fn default() -> (graph: Graph)
        ensures
            graph@ == Seq::<Node>::empty(),
            graph.wf(),
    {
        Graph::new()
    }
}

/// In a well-formed graph the indices grow with the order of insertion, and a
/// node depends only on nodes that were added before it.
pub proof fn lemma_deps_precede(graph: Graph, i: int)
    requires
        graph.wf(),
        0 <= i < graph@.len(),
    ensures
        graph@[i].idx == i,
        graph@[i].deps.below(i),
        forall|j: int| 0 <= j < i ==> graph@[j].idx < graph@[i].idx,
{
}

} // verus!
