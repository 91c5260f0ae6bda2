//! Everything related to graphs: edges, nodes and, of course, graphs.
//!
//! The most important part of this module is [`Graph`].
//! To build a graph by hand, use [`Edge`].

use crate::adjacency::{
    grown, lemma_empty, lemma_insert, lemma_remove, linked, sees, unlinked, Adjacency,
};
use crate::index_set::{
    labels, labels_clone, labels_contains, labels_insert, labels_len, labels_new, labels_remove,
    pairs, pairs_clone, pairs_contains, pairs_get_index, pairs_insert, pairs_len, pairs_new,
    pairs_remove, swap_remove,
};
use crate::sampler::Sampler;
use crate::sequences::lemma_index_of;
use indexmap::IndexSet;
use vstd::prelude::*;

verus! {

/// A (variable, constraint) pair.
///
/// Variables and constraints are different sets of nodes,
/// so an edge may have the same label for its variable and its constraint.
#[derive(Debug, PartialEq, Eq, Clone, Copy, Hash, Structural)]
pub struct Edge {
    pub variable: usize,
    pub constraint: usize,
}

impl Edge {
    /// Creates a new edge for the given variable and constraint.
    pub fn new(variable: usize, constraint: usize) -> (edge: Self)
        ensures
            edge.variable == variable,
            edge.constraint == constraint,
    {
        Self { variable, constraint }
    }
}

/// The edge that a pair of labels stands for.
pub open spec fn edge_of(pair: (usize, usize)) -> Edge {
    Edge { variable: pair.0, constraint: pair.1 }
}

/// The edges that a sequence of pairs stands for.
pub open spec fn edges_of(pairs: Seq<(usize, usize)>) -> Seq<Edge> {
    pairs.map_values(|pair: (usize, usize)| edge_of(pair))
}

/// For each set its labels, in its own order.
pub open spec fn neighbor_lists(sets: Seq<IndexSet<usize>>) -> Seq<Seq<usize>> {
    sets.map_values(|set: IndexSet<usize>| labels(set))
}

/// An edge is among the edges of some pairs where its labels are among the pairs.
proof fn lemma_edges_of_contains(pairs: Seq<(usize, usize)>, edge: Edge)
    ensures
        edges_of(pairs).contains(edge) <==> pairs.contains((edge.variable, edge.constraint)),
{
    let edges = edges_of(pairs);
    let pair = (edge.variable, edge.constraint);
    if edges.contains(edge) {
        let i = choose|i: int| 0 <= i < edges.len() && edges[i] == edge;
        assert(pairs[i] == pair);
    }
    if pairs.contains(pair) {
        let i = choose|i: int| 0 <= i < pairs.len() && pairs[i] == pair;
        assert(edges[i] == edge);
    }
}

/// A bipartite graph.
///
/// A graph is a set of variables and constraints together with
/// a set of edges, each a (variable, constraint) pair.
/// It is built by hand, edge by edge, or drawn from a
/// [`Sampler`](crate::sampler::Sampler).
///
/// The nodes are labelled from 0: a graph has one variable more than the
/// highest variable label it has seen, and likewise for constraints, so a
/// large label makes room for all the nodes below it.
#[derive(Debug, PartialEq, Eq)]
pub struct Graph {
    variable_neighbors: Vec<IndexSet<usize>>,
    constraint_neighbors: Vec<IndexSet<usize>>,
    edges: IndexSet<(usize, usize)>,
}

impl View for Graph {
    type V = Adjacency;

    closed spec fn view(&self) -> Adjacency {
        model(self.variable_neighbors@, self.constraint_neighbors@, self.edges)
    }
}

/// What the three structures of a graph stand for.
pub open spec fn model(
    variable_neighbors: Seq<IndexSet<usize>>,
    constraint_neighbors: Seq<IndexSet<usize>>,
    edges: IndexSet<(usize, usize)>,
) -> Adjacency {
    Adjacency {
        variable_neighbors: neighbor_lists(variable_neighbors),
        constraint_neighbors: neighbor_lists(constraint_neighbors),
        edges: edges_of(pairs(edges)),
    }
}

/// Makes `to` the last neighbor of `from`, after making room for `from`.
fn link(lists: &mut Vec<IndexSet<usize>>, from: usize, to: usize)
    requires
        from < usize::MAX,
        !sees(neighbor_lists(old(lists)@), from, to),
    ensures
        neighbor_lists(final(lists)@) == linked(neighbor_lists(old(lists)@), from, to),
{
    let ghost before = neighbor_lists(lists@);
    while lists.len() <= from
        invariant
            from < usize::MAX,
            before.len() <= lists.len(),
            lists.len() <= from + 1 || lists.len() == before.len(),
            neighbor_lists(lists@) == before + Seq::new(
                (lists.len() - before.len()) as nat,
                |i: int| Seq::<usize>::empty(),
            ),
        decreases from + 1 - lists.len(),
    {
        let ghost lists_before = lists@;
        lists.push(labels_new());
        assert(neighbor_lists(lists@) =~= neighbor_lists(lists_before).push(Seq::<usize>::empty()));
        assert(neighbor_lists(lists@) =~= before + Seq::new(
            (lists.len() - before.len()) as nat,
            |i: int| Seq::<usize>::empty(),
        ));
    }
    let ghost room = neighbor_lists(lists@);
    let ghost sets = lists@;
    assert(room =~= grown(before, from));
    assert(!room[from as int].contains(to)) by {
        if from >= before.len() {
            assert(room[from as int] =~= Seq::<usize>::empty());
        }
    }
    let added = labels_insert(&mut lists[from], to);
    assert(added);
    assert(neighbor_lists(lists@) =~= room.update(from as int, room[from as int].push(to)));
}

/// Swap-removes `to` from the neighbors of `from`.
fn unlink(lists: &mut Vec<IndexSet<usize>>, from: usize, to: usize)
    requires
        sees(neighbor_lists(old(lists)@), from, to),
        neighbor_lists(old(lists)@)[from as int].no_duplicates(),
    ensures
        neighbor_lists(final(lists)@) == unlinked(neighbor_lists(old(lists)@), from, to),
{
    let ghost before = neighbor_lists(lists@);
    let ghost list = before[from as int];
    let removed = labels_remove(&mut lists[from], to);
    assert(removed);
    proof {
        let index = choose|index: int|
            0 <= index < list.len() && list[index] == to && neighbor_lists(lists@)[from as int]
                == swap_remove(list, index);
        lemma_index_of(list, index);
        assert(neighbor_lists(lists@) =~= before.update(
            from as int,
            swap_remove(list, list.index_of(to)),
        ));
    }
}

/// As many empty sets as asked for.
fn empty_lists(count: usize) -> (lists: Vec<IndexSet<usize>>)
    ensures
        neighbor_lists(lists@) == Seq::new(count as nat, |i: int| Seq::<usize>::empty()),
{
    let mut lists: Vec<IndexSet<usize>> = Vec::new();
    while lists.len() < count
        invariant
            lists.len() <= count,
            neighbor_lists(lists@) == Seq::new(lists.len() as nat, |i: int| Seq::<usize>::empty()),
        decreases count - lists.len(),
    {
        let ghost made = lists@;
        lists.push(labels_new());
        assert(neighbor_lists(lists@) =~= neighbor_lists(made).push(Seq::<usize>::empty()));
        assert(neighbor_lists(lists@) =~= Seq::new(
            lists.len() as nat,
            |i: int| Seq::<usize>::empty(),
        ));
    }
    lists
}

/// Copies each set, with its order.
fn clone_lists(lists: &Vec<IndexSet<usize>>) -> (copy: Vec<IndexSet<usize>>)
    ensures
        neighbor_lists(copy@) == neighbor_lists(lists@),
{
    let mut copy: Vec<IndexSet<usize>> = Vec::new();
    let mut index: usize = 0;
    while index < lists.len()
        invariant
            index <= lists.len(),
            neighbor_lists(copy@) == neighbor_lists(lists@).subrange(0, index as int),
        decreases lists.len() - index,
    {
        let ghost copied = copy@;
        let set = labels_clone(&lists[index]);
        copy.push(set);
        index += 1;
        assert(neighbor_lists(copy@) =~= neighbor_lists(copied).push(
            labels(lists@[index - 1]),
        ));
        assert(neighbor_lists(copy@) =~= neighbor_lists(lists@).subrange(0, index as int));
    }
    assert(neighbor_lists(copy@) =~= neighbor_lists(lists@));
    copy
}

impl Clone for Graph {
    /// The copy holds the same nodes and edges, in the same order.
    fn clone(&self) -> (graph: Self)
        ensures
            graph@ == self@,
    {
        proof {
            use_type_invariant(self);
        }
        let variable_neighbors = clone_lists(&self.variable_neighbors);
        let constraint_neighbors = clone_lists(&self.constraint_neighbors);
        let edges = pairs_clone(&self.edges);
        assert(model(variable_neighbors@, constraint_neighbors@, edges) == self@);
        Self { variable_neighbors, constraint_neighbors, edges }
    }
}

impl Graph {
    /// The three structures of a graph agree, and none of them repeats an
    /// item, always.
    #[verifier::type_invariant]
    pub open spec fn wf(&self) -> bool {
        self@.wf()
    }

    /// Creates a new empty graph.
    pub fn new() -> (graph: Self)
        ensures
            graph@ == Adjacency::empty(0, 0),
            graph@.wf(),
    {
        let variable_neighbors: Vec<IndexSet<usize>> = Vec::new();
        let constraint_neighbors: Vec<IndexSet<usize>> = Vec::new();
        let edges = pairs_new();
        proof {
            let graph = model(variable_neighbors@, constraint_neighbors@, edges);
            lemma_empty(0, 0);
            assert(graph.variable_neighbors =~= Adjacency::empty(0, 0).variable_neighbors);
            assert(graph.constraint_neighbors =~= Adjacency::empty(0, 0).constraint_neighbors);
            assert(graph.edges =~= Adjacency::empty(0, 0).edges);
        }
        Self { variable_neighbors, constraint_neighbors, edges }
    }

    /// Creates the graph without edges on the nodes that the sampler asks for.
    pub fn from_sampler(sampler: &Sampler) -> (graph: Self)
        ensures
            graph@ == Adjacency::empty(
                sampler@.number_of_variables as nat,
                sampler@.number_of_constraints as nat,
            ),
            graph@.wf(),
    {
        let variable_neighbors = empty_lists(sampler.number_of_variables());
        let constraint_neighbors = empty_lists(sampler.number_of_constraints());
        let edges = pairs_new();
        proof {
            lemma_empty(
                sampler@.number_of_variables as nat,
                sampler@.number_of_constraints as nat,
            );
            assert(model(variable_neighbors@, constraint_neighbors@, edges).edges
                =~= Seq::<Edge>::empty());
        }
        Self { variable_neighbors, constraint_neighbors, edges }
    }

    /// Checks if the given edge is in the graph.
    pub fn contains_edge(&self, edge: Edge) -> (found: bool)
        ensures
            found == self@.contains(edge),
    {
        proof {
            lemma_edges_of_contains(pairs(self.edges), edge);
        }
        pairs_contains(&self.edges, (edge.variable, edge.constraint))
    }

    /// Inserts the given edge in the graph and returns true if the
    /// edge was not already in the graph.
    ///
    /// If the variable of the edge is greater or equal to the number of
    /// variables in the graph, the graph gets the variables up to it.
    /// The same holds for constraints.
    pub fn insert_edge(&mut self, edge: Edge) -> (added: bool)
        requires
            edge.variable < usize::MAX,
            edge.constraint < usize::MAX,
        ensures
            added == !old(self)@.contains(edge),
            final(self)@ == old(self)@.insert(edge),
            final(self)@.wf(),
            forall|other: Edge| #[trigger]
                final(self)@.contains(other) <==> (other == edge || old(self)@.contains(other)),
            final(self)@.number_of_edges() == old(self)@.number_of_edges() + if added {
                1nat
            } else {
                0nat
            },
            final(self)@.number_of_variables() == if edge.variable < old(
                self,
            )@.number_of_variables() {
                old(self)@.number_of_variables()
            } else {
                (edge.variable + 1) as nat
            },
            final(self)@.number_of_constraints() == if edge.constraint < old(
                self,
            )@.number_of_constraints() {
                old(self)@.number_of_constraints()
            } else {
                (edge.constraint + 1) as nat
            },
    {
        let ghost before = self@;
        proof {
            use_type_invariant(&*self);
            lemma_edges_of_contains(pairs(self.edges), edge);
            assert(edge == Edge { variable: edge.variable, constraint: edge.constraint });
            if before.contains(edge) {
                assert(before.joins(edge.variable, edge.constraint));
            } else {
                assert(!before.joins(edge.variable, edge.constraint));
                lemma_insert(before, edge);
            }
        }
        let mut graph = Self::new();
        std::mem::swap(self, &mut graph);
        let Self { variable_neighbors, constraint_neighbors, edges } = graph;
        let mut variable_neighbors = variable_neighbors;
        let mut constraint_neighbors = constraint_neighbors;
        let mut edges = edges;
        let added = pairs_insert(&mut edges, (edge.variable, edge.constraint));
        if added {
            Self::insert_variable(&mut variable_neighbors, edge);
            Self::insert_constraint(&mut constraint_neighbors, edge);
            assert(edges_of(pairs(edges)) =~= before.edges.push(edge));
        }
        assert(model(variable_neighbors@, constraint_neighbors@, edges) == before.insert(edge));
        *self = Self { variable_neighbors, constraint_neighbors, edges };
        added
    }

    /// Makes the constraint of the edge the last neighbor of its variable,
    /// after making room for the variable.
    fn insert_variable(variable_neighbors: &mut Vec<IndexSet<usize>>, edge: Edge)
        requires
            edge.variable < usize::MAX,
            !sees(neighbor_lists(old(variable_neighbors)@), edge.variable, edge.constraint),
        ensures
            neighbor_lists(final(variable_neighbors)@) == linked(
                neighbor_lists(old(variable_neighbors)@),
                edge.variable,
                edge.constraint,
            ),
    {
        link(variable_neighbors, edge.variable, edge.constraint);
    }

    /// Makes the variable of the edge the last neighbor of its constraint,
    /// after making room for the constraint.
    fn insert_constraint(constraint_neighbors: &mut Vec<IndexSet<usize>>, edge: Edge)
        requires
            edge.constraint < usize::MAX,
            !sees(neighbor_lists(old(constraint_neighbors)@), edge.constraint, edge.variable),
        ensures
            neighbor_lists(final(constraint_neighbors)@) == linked(
                neighbor_lists(old(constraint_neighbors)@),
                edge.constraint,
                edge.variable,
            ),
    {
        link(constraint_neighbors, edge.constraint, edge.variable);
    }

    /// Removes the given edge from the graph if it exists and returns true.
    /// Else, returns false.
    ///
    /// This never changes the number of variables and constraints in the graph.
    pub fn remove_edge(&mut self, edge: Edge) -> (removed: bool)
        ensures
            removed == old(self)@.contains(edge),
            final(self)@ == old(self)@.remove(edge),
            final(self)@.wf(),
            forall|other: Edge| #[trigger]
                final(self)@.contains(other) <==> (other != edge && old(self)@.contains(other)),
            final(self)@.number_of_edges() == old(self)@.number_of_edges() - if removed {
                1int
            } else {
                0int
            },
            final(self)@.number_of_variables() == old(self)@.number_of_variables(),
            final(self)@.number_of_constraints() == old(self)@.number_of_constraints(),
    {
        let ghost before = self@;
        let ghost pairs_before = pairs(self.edges);
        proof {
            use_type_invariant(&*self);
            lemma_edges_of_contains(pairs_before, edge);
            assert(edge == Edge { variable: edge.variable, constraint: edge.constraint });
            if before.contains(edge) {
                assert(before.joins(edge.variable, edge.constraint));
                assert(sees(before.variable_neighbors, edge.variable, edge.constraint));
                assert(sees(before.constraint_neighbors, edge.constraint, edge.variable));
                lemma_remove(before, edge);
            }
        }
        let mut graph = Self::new();
        std::mem::swap(self, &mut graph);
        let Self { variable_neighbors, constraint_neighbors, edges } = graph;
        let mut variable_neighbors = variable_neighbors;
        let mut constraint_neighbors = constraint_neighbors;
        let mut edges = edges;
        let removed = pairs_remove(&mut edges, (edge.variable, edge.constraint));
        if removed {
            proof {
                let index = choose|index: int|
                    0 <= index < pairs_before.len() && pairs_before[index] == (
                        edge.variable,
                        edge.constraint,
                    ) && pairs(edges) == swap_remove(pairs_before, index);
                assert(before.edges[index] == edge);
                lemma_index_of(before.edges, index);
                assert(edges_of(pairs(edges)) =~= swap_remove(
                    before.edges,
                    before.edges.index_of(edge),
                ));
            }
            unlink(&mut variable_neighbors, edge.variable, edge.constraint);
            unlink(&mut constraint_neighbors, edge.constraint, edge.variable);
        }
        assert(model(variable_neighbors@, constraint_neighbors@, edges) == before.remove(edge));
        *self = Self { variable_neighbors, constraint_neighbors, edges };
        removed
    }

    /// Returns all the edges of the graph, in the order of the graph's edge set:
    /// the order of insertion, but that a removed edge leaves its place to
    /// the edge that was last.
    pub fn edges(&self) -> (edges: Vec<Edge>)
        ensures
            edges@ == self@.edges,
    {
        let mut edges: Vec<Edge> = Vec::new();
        let mut index: usize = 0;
        let len = pairs_len(&self.edges);
        while index < len
            invariant
                len == pairs(self.edges).len(),
                index <= len,
                edges@ == self@.edges.subrange(0, index as int),
            decreases len - index,
        {
            if let Some(pair) = pairs_get_index(&self.edges, index) {
                edges.push(Edge::new(pair.0, pair.1));
            }
            index += 1;
            assert(edges@ =~= self@.edges.subrange(0, index as int));
        }
        assert(edges@ =~= self@.edges);
        edges
    }

    /// Returns the edge at a place of the order in which [`Graph::edges`]
    /// returns them, and nothing from the number of edges on.
    pub fn edge_at(&self, index: usize) -> (edge: Option<Edge>)
        ensures
            index < self@.number_of_edges() ==> edge == Some(self@.edges[index as int]),
            index >= self@.number_of_edges() ==> edge.is_none(),
    {
        match pairs_get_index(&self.edges, index) {
            Some(pair) => Some(Edge::new(pair.0, pair.1)),
            None => None,
        }
    }

    /// The nodes of a graph can be counted by the machine.
    pub proof fn lemma_node_counts_fit(&self)
        ensures
            self@.number_of_variables() <= usize::MAX,
            self@.number_of_constraints() <= usize::MAX,
    {
        assert(self.variable_neighbors.len() == self@.number_of_variables());
        assert(self.constraint_neighbors.len() == self@.number_of_constraints());
    }

    /// Returns the number of variables in the graph.
    ///
    /// That is, one more than the highest variable label the graph has seen.
    pub fn number_of_variables(&self) -> (count: usize)
        ensures
            count == self@.number_of_variables(),
    {
        self.variable_neighbors.len()
    }

    /// Returns the number of constraints in the graph.
    ///
    /// That is, one more than the highest constraint label the graph has seen.
    pub fn number_of_constraints(&self) -> (count: usize)
        ensures
            count == self@.number_of_constraints(),
    {
        self.constraint_neighbors.len()
    }

    /// Returns the number of edges in the graph.
    pub fn number_of_edges(&self) -> (count: usize)
        ensures
            count == self@.number_of_edges(),
    {
        pairs_len(&self.edges)
    }
}

impl Graph {
    /// Returns a cursor over all variables in the graph in increasing label order.
    pub fn variables(&self) -> (nodes: Nodes<'_>)
        ensures
            nodes@ == (NodesView {
                neighbors: self@.variable_neighbors,
                position: 0,
                is_variable: true,
            }),
    {
        Nodes { sets: &self.variable_neighbors, position: 0, kind: NodeKind::Variable }
    }

    /// Returns a cursor over all constraints in the graph in increasing label order.
    pub fn constraints(&self) -> (nodes: Nodes<'_>)
        ensures
            nodes@ == (NodesView {
                neighbors: self@.constraint_neighbors,
                position: 0,
                is_variable: false,
            }),
    {
        Nodes { sets: &self.constraint_neighbors, position: 0, kind: NodeKind::Constraint }
    }
}

/// What a cursor over nodes stands for: the neighbors of all the nodes of
/// one side, and the label of the node that comes next.
pub struct NodesView {
    pub neighbors: Seq<Seq<usize>>,
    pub position: nat,
    pub is_variable: bool,
}

/// A cursor over the nodes of one side of a graph, in increasing label order.
///
/// This is created via the [`Graph::variables`] or the
/// [`Graph::constraints`] methods.
pub struct Nodes<'g> {
    sets: &'g Vec<IndexSet<usize>>,
    position: usize,
    kind: NodeKind,
}

impl<'g> View for Nodes<'g> {
    type V = NodesView;

    closed spec fn view(&self) -> NodesView {
        NodesView {
            neighbors: neighbor_lists(self.sets@),
            position: self.position as nat,
            is_variable: self.kind == NodeKind::Variable,
        }
    }
}

impl<'g> Nodes<'g> {
    /// Returns the node that comes next and moves past it,
    /// or nothing once all the nodes were returned.
    pub fn next(&mut self) -> (node: Option<Node<'g>>)
        ensures
            match node {
                Some(node) => {
                    &&& old(self)@.position < old(self)@.neighbors.len()
                    &&& node@ == (NodeView {
                        label: old(self)@.position as usize,
                        neighbors: old(self)@.neighbors[old(self)@.position as int],
                        is_variable: old(self)@.is_variable,
                    })
                    &&& final(self)@ == (NodesView {
                        position: old(self)@.position + 1,
                        ..old(self)@
                    })
                },
                None => {
                    &&& old(self)@.position >= old(self)@.neighbors.len()
                    &&& final(self)@ == old(self)@
                },
            },
    {
        if self.position < self.sets.len() {
            let node = Node {
                neighbors: &self.sets[self.position],
                label: self.position,
                kind: self.kind,
            };
            self.position += 1;
            Some(node)
        } else {
            None
        }
    }
}

/// What a node stands for: its label, its neighbors in the order of its
/// neighbor set, and its side.
pub struct NodeView {
    pub label: usize,
    pub neighbors: Seq<usize>,
    pub is_variable: bool,
}

/// A node in the graph.
///
/// This is used to go through the nodes of a graph.
pub struct Node<'g> {
    neighbors: &'g IndexSet<usize>,
    label: usize,
    kind: NodeKind,
}

impl<'g> View for Node<'g> {
    type V = NodeView;

    closed spec fn view(&self) -> NodeView {
        NodeView {
            label: self.label,
            neighbors: labels(*self.neighbors),
            is_variable: self.kind == NodeKind::Variable,
        }
    }
}

impl<'g> Node<'g> {
    /// Returns the set of labels of the neighbors of the node.
    pub fn neighbors(&self) -> (neighbors: &IndexSet<usize>)
        ensures
            labels(*neighbors) == self@.neighbors,
    {
        self.neighbors
    }

    /// Returns the label of the node.
    pub fn label(&self) -> (label: usize)
        ensures
            label == self@.label,
    {
        self.label
    }

    /// Returns the degree of the node.
    /// That is, the number of neighbors.
    pub fn degree(&self) -> (degree: usize)
        ensures
            degree == self@.neighbors.len(),
    {
        labels_len(self.neighbors)
    }

    /// Checks if a node has a neighbor with the given label.
    pub fn has_neighbor(&self, label: usize) -> (found: bool)
        ensures
            found == self@.neighbors.contains(label),
    {
        labels_contains(self.neighbors, label)
    }

    /// Checks if a node is a variable.
    pub fn is_variable(&self) -> (variable: bool)
        ensures
            variable == self@.is_variable,
    {
        self.kind == NodeKind::Variable
    }

    /// Checks if a node is a constraint.
    pub fn is_constraint(&self) -> (constraint: bool)
        ensures
            constraint == !self@.is_variable,
    {
        self.kind == NodeKind::Constraint
    }
}

#[derive(Clone, Copy, PartialEq, Eq, Structural)]
enum NodeKind {
    Variable,
    Constraint,
}

} // verus!
