//! The mathematical model of a graph: who is next to whom, and in what order.

use crate::graph::Edge;
use crate::index_set::swap_remove;
use crate::sequences::{lemma_push_contains, lemma_push_no_duplicates, lemma_swap_remove};
use vstd::prelude::*;

verus! {

/// What a graph holds: for each variable the constraints next to it,
/// for each constraint the variables next to it, and the edges,
/// each in the order in which the graph enumerates them.
pub struct Adjacency {
    pub variable_neighbors: Seq<Seq<usize>>,
    pub constraint_neighbors: Seq<Seq<usize>>,
    pub edges: Seq<Edge>,
}

/// The neighbor lists, extended by empty ones up to and including `label`.
pub open spec fn grown(neighbors: Seq<Seq<usize>>, label: usize) -> Seq<Seq<usize>> {
    if label < neighbors.len() {
        neighbors
    } else {
        neighbors + Seq::new(
            (label + 1 - neighbors.len()) as nat,
            |i: int| Seq::<usize>::empty(),
        )
    }
}

/// The neighbor lists after `to` became the last neighbor of `from`.
pub open spec fn linked(neighbors: Seq<Seq<usize>>, from: usize, to: usize) -> Seq<Seq<usize>> {
    let lists = grown(neighbors, from);
    lists.update(from as int, lists[from as int].push(to))
}

/// The neighbor lists after `to` was swap-removed from the neighbors of `from`.
pub open spec fn unlinked(neighbors: Seq<Seq<usize>>, from: usize, to: usize) -> Seq<Seq<usize>> {
    let list = neighbors[from as int];
    neighbors.update(from as int, swap_remove(list, list.index_of(to)))
}

/// The number of neighbors of a node, none for a label that the lists do not reach.
pub open spec fn degree(neighbors: Seq<Seq<usize>>, label: int) -> nat {
    if 0 <= label < neighbors.len() {
        neighbors[label].len()
    } else {
        0
    }
}

/// Whether `to` is among the neighbors of `from`.
pub open spec fn sees(neighbors: Seq<Seq<usize>>, from: usize, to: usize) -> bool {
    from < neighbors.len() && neighbors[from as int].contains(to)
}

impl Adjacency {
    /// The graph without edges on the given numbers of nodes.
    pub open spec fn empty(variables: nat, constraints: nat) -> Adjacency {
        Adjacency {
            variable_neighbors: Seq::new(variables, |i: int| Seq::<usize>::empty()),
            constraint_neighbors: Seq::new(constraints, |i: int| Seq::<usize>::empty()),
            edges: Seq::empty(),
        }
    }

    pub open spec fn number_of_variables(self) -> nat {
        self.variable_neighbors.len()
    }

    pub open spec fn number_of_constraints(self) -> nat {
        self.constraint_neighbors.len()
    }

    pub open spec fn number_of_edges(self) -> nat {
        self.edges.len()
    }

    pub open spec fn contains(self, edge: Edge) -> bool {
        self.edges.contains(edge)
    }

    /// Whether the variable and the constraint are joined by an edge.
    pub open spec fn joins(self, variable: usize, constraint: usize) -> bool {
        self.edges.contains(Edge { variable, constraint })
    }

    pub open spec fn variable_degree(self, variable: int) -> nat {
        degree(self.variable_neighbors, variable)
    }

    pub open spec fn constraint_degree(self, constraint: int) -> nat {
        degree(self.constraint_neighbors, constraint)
    }

    /// The three structures agree, and none of them repeats an item.
    pub open spec fn wf(self) -> bool {
        &&& self.edges.no_duplicates()
        &&& forall|v: int|
            0 <= v < self.variable_neighbors.len() ==> (#[trigger] self.variable_neighbors[v]).no_duplicates()
        &&& forall|c: int|
            0 <= c < self.constraint_neighbors.len() ==> (#[trigger] self.constraint_neighbors[c]).no_duplicates()
        &&& forall|v: usize, c: usize|
            #![trigger self.joins(v, c)]
            #![trigger sees(self.variable_neighbors, v, c)]
            self.joins(v, c) <==> sees(self.variable_neighbors, v, c)
        &&& forall|v: usize, c: usize|
            #![trigger self.joins(v, c)]
            #![trigger sees(self.constraint_neighbors, c, v)]
            self.joins(v, c) <==> sees(self.constraint_neighbors, c, v)
    }

    /// The graph with the edge: unchanged where it has the edge already;
    /// else the edge comes last in all three structures, and the nodes
    /// up to its labels exist.
    pub open spec fn insert(self, edge: Edge) -> Adjacency {
        if self.contains(edge) {
            self
        } else {
            Adjacency {
                variable_neighbors: linked(self.variable_neighbors, edge.variable, edge.constraint),
                constraint_neighbors: linked(
                    self.constraint_neighbors,
                    edge.constraint,
                    edge.variable,
                ),
                edges: self.edges.push(edge),
            }
        }
    }

    /// The graph without the edge: unchanged where it has no such edge;
    /// else the edge is swap-removed from all three structures, and no node is lost.
    pub open spec fn remove(self, edge: Edge) -> Adjacency {
        if !self.contains(edge) {
            self
        } else {
            Adjacency {
                variable_neighbors: unlinked(
                    self.variable_neighbors,
                    edge.variable,
                    edge.constraint,
                ),
                constraint_neighbors: unlinked(
                    self.constraint_neighbors,
                    edge.constraint,
                    edge.variable,
                ),
                edges: swap_remove(self.edges, self.edges.index_of(edge)),
            }
        }
    }
}

/// What linking does to the neighbor lists.
pub proof fn lemma_linked(neighbors: Seq<Seq<usize>>, from: usize, to: usize)
    requires
        forall|n: int| 0 <= n < neighbors.len() ==> (#[trigger] neighbors[n]).no_duplicates(),
        !sees(neighbors, from, to),
    ensures
        linked(neighbors, from, to).len() == if from < neighbors.len() {
            neighbors.len()
        } else {
            (from + 1) as nat
        },
        forall|n: int|
            0 <= n < linked(neighbors, from, to).len() ==> (#[trigger] linked(
                neighbors,
                from,
                to,
            )[n]).no_duplicates(),
        forall|a: usize, b: usize| #[trigger]
            sees(linked(neighbors, from, to), a, b) <==> ((a == from && b == to) || sees(
                neighbors,
                a,
                b,
            )),
        forall|n: int| #[trigger]
            degree(linked(neighbors, from, to), n) == degree(neighbors, n) + if n == from {
                1nat
            } else {
                0nat
            },
{
    let lists = grown(neighbors, from);
    let after = linked(neighbors, from, to);
    assert(lists.len() == after.len());
    assert forall|n: int| 0 <= n < lists.len() implies lists[n] == (if n < neighbors.len() {
        neighbors[n]
    } else {
        Seq::<usize>::empty()
    }) by {}
    let list = lists[from as int];
    assert(!list.contains(to)) by {
        if from < neighbors.len() {
        } else {
            assert(list =~= Seq::<usize>::empty());
        }
    }
    assert(list.no_duplicates());
    lemma_push_no_duplicates(list, to);
    lemma_push_contains(list, to);
    assert forall|n: int| 0 <= n < after.len() implies (#[trigger] after[n]).no_duplicates() by {
        if n == from {
        } else {
            assert(after[n] == lists[n]);
        }
    }
    assert forall|a: usize, b: usize| #[trigger]
        sees(after, a, b) <==> ((a == from && b == to) || sees(neighbors, a, b)) by {
        if a == from {
            assert(after[a as int] == list.push(to));
        } else if a < after.len() {
            assert(after[a as int] == lists[a as int]);
            if a >= neighbors.len() {
                assert(!lists[a as int].contains(b));
            }
        }
    }
    assert forall|n: int| #[trigger]
        degree(after, n) == degree(neighbors, n) + if n == from {
            1nat
        } else {
            0nat
        } by {
        if 0 <= n < after.len() {
            if n == from {
                assert(after[n] == list.push(to));
            } else {
                assert(after[n] == lists[n]);
            }
        }
    }
}

/// What unlinking does to the neighbor lists.
pub proof fn lemma_unlinked(neighbors: Seq<Seq<usize>>, from: usize, to: usize)
    requires
        forall|n: int| 0 <= n < neighbors.len() ==> (#[trigger] neighbors[n]).no_duplicates(),
        sees(neighbors, from, to),
    ensures
        unlinked(neighbors, from, to).len() == neighbors.len(),
        forall|n: int|
            0 <= n < neighbors.len() ==> (#[trigger] unlinked(neighbors, from, to)[n]).no_duplicates(),
        forall|a: usize, b: usize| #[trigger]
            sees(unlinked(neighbors, from, to), a, b) <==> (!(a == from && b == to) && sees(
                neighbors,
                a,
                b,
            )),
        forall|n: int| #[trigger]
            degree(unlinked(neighbors, from, to), n) == degree(neighbors, n) - if n == from {
                1int
            } else {
                0int
            },
{
    let after = unlinked(neighbors, from, to);
    let list = neighbors[from as int];
    let index = list.index_of(to);
    assert(list.no_duplicates());
    assert(0 <= index < list.len() && list[index] == to);
    lemma_swap_remove(list, index);
    assert forall|n: int| 0 <= n < neighbors.len() implies (#[trigger] after[n]).no_duplicates() by {
        if n == from {
        } else {
            assert(after[n] == neighbors[n]);
        }
    }
    assert forall|a: usize, b: usize| #[trigger]
        sees(after, a, b) <==> (!(a == from && b == to) && sees(neighbors, a, b)) by {
        if a == from {
            assert(after[a as int] == swap_remove(list, index));
        } else if a < after.len() {
            assert(after[a as int] == neighbors[a as int]);
        }
    }
    assert forall|n: int| #[trigger]
        degree(after, n) == degree(neighbors, n) - if n == from {
            1int
        } else {
            0int
        } by {
        if 0 <= n < after.len() {
            if n == from {
                assert(after[n] == swap_remove(list, index));
            } else {
                assert(after[n] == neighbors[n]);
            }
        }
    }
}

/// What inserting a new edge does to a well-formed graph.
pub proof fn lemma_insert(graph: Adjacency, edge: Edge)
    requires
        graph.wf(),
        !graph.contains(edge),
    ensures
        graph.insert(edge).wf(),
        graph.insert(edge).edges == graph.edges.push(edge),
        forall|other: Edge| #[trigger]
            graph.insert(edge).contains(other) <==> (other == edge || graph.contains(other)),
        graph.insert(edge).number_of_variables() == if edge.variable
            < graph.number_of_variables() {
            graph.number_of_variables()
        } else {
            (edge.variable + 1) as nat
        },
        graph.insert(edge).number_of_constraints() == if edge.constraint
            < graph.number_of_constraints() {
            graph.number_of_constraints()
        } else {
            (edge.constraint + 1) as nat
        },
        forall|v: int| #[trigger]
            graph.insert(edge).variable_degree(v) == graph.variable_degree(v) + if v
                == edge.variable {
                1nat
            } else {
                0nat
            },
        forall|c: int| #[trigger]
            graph.insert(edge).constraint_degree(c) == graph.constraint_degree(c) + if c
                == edge.constraint {
                1nat
            } else {
                0nat
            },
{
    let after = graph.insert(edge);
    assert(edge == Edge { variable: edge.variable, constraint: edge.constraint });
    assert(!graph.joins(edge.variable, edge.constraint));
    lemma_linked(graph.variable_neighbors, edge.variable, edge.constraint);
    lemma_linked(graph.constraint_neighbors, edge.constraint, edge.variable);
    lemma_push_contains(graph.edges, edge);
    lemma_push_no_duplicates(graph.edges, edge);
    assert forall|v: usize, c: usize|
        #![trigger after.joins(v, c)]
        #![trigger sees(after.variable_neighbors, v, c)]
        after.joins(v, c) <==> sees(after.variable_neighbors, v, c) by {
        assert(graph.joins(v, c) <==> sees(graph.variable_neighbors, v, c));
        assert(after.edges.contains(Edge { variable: v, constraint: c }) <==> (Edge {
            variable: v,
            constraint: c,
        } == edge || graph.edges.contains(Edge { variable: v, constraint: c })));
    }
    assert forall|v: usize, c: usize|
        #![trigger after.joins(v, c)]
        #![trigger sees(after.constraint_neighbors, c, v)]
        after.joins(v, c) <==> sees(after.constraint_neighbors, c, v) by {
        assert(graph.joins(v, c) <==> sees(graph.constraint_neighbors, c, v));
        assert(after.edges.contains(Edge { variable: v, constraint: c }) <==> (Edge {
            variable: v,
            constraint: c,
        } == edge || graph.edges.contains(Edge { variable: v, constraint: c })));
    }
    assert forall|v: int| #[trigger]
        after.variable_degree(v) == graph.variable_degree(v) + if v == edge.variable {
            1nat
        } else {
            0nat
        } by {
        assert(degree(after.variable_neighbors, v) == degree(graph.variable_neighbors, v) + if v
            == edge.variable {
            1nat
        } else {
            0nat
        });
    }
    assert forall|c: int| #[trigger]
        after.constraint_degree(c) == graph.constraint_degree(c) + if c == edge.constraint {
            1nat
        } else {
            0nat
        } by {
        assert(degree(after.constraint_neighbors, c) == degree(graph.constraint_neighbors, c)
            + if c == edge.constraint {
            1nat
        } else {
            0nat
        });
    }
}

/// What removing one of its edges does to a well-formed graph.
pub proof fn lemma_remove(graph: Adjacency, edge: Edge)
    requires
        graph.wf(),
        graph.contains(edge),
    ensures
        graph.remove(edge).wf(),
        graph.remove(edge).number_of_edges() == graph.number_of_edges() - 1,
        forall|other: Edge| #[trigger]
            graph.remove(edge).contains(other) <==> (other != edge && graph.contains(other)),
        graph.remove(edge).number_of_variables() == graph.number_of_variables(),
        graph.remove(edge).number_of_constraints() == graph.number_of_constraints(),
        forall|v: int| #[trigger]
            graph.remove(edge).variable_degree(v) == graph.variable_degree(v) - if v
                == edge.variable {
                1int
            } else {
                0int
            },
        forall|c: int| #[trigger]
            graph.remove(edge).constraint_degree(c) == graph.constraint_degree(c) - if c
                == edge.constraint {
                1int
            } else {
                0int
            },
{
    let after = graph.remove(edge);
    let index = graph.edges.index_of(edge);
    assert(edge == Edge { variable: edge.variable, constraint: edge.constraint });
    assert(graph.joins(edge.variable, edge.constraint));
    assert(sees(graph.variable_neighbors, edge.variable, edge.constraint));
    assert(sees(graph.constraint_neighbors, edge.constraint, edge.variable));
    lemma_unlinked(graph.variable_neighbors, edge.variable, edge.constraint);
    lemma_unlinked(graph.constraint_neighbors, edge.constraint, edge.variable);
    assert(0 <= index < graph.edges.len() && graph.edges[index] == edge);
    lemma_swap_remove(graph.edges, index);
    assert forall|v: usize, c: usize|
        #![trigger after.joins(v, c)]
        #![trigger sees(after.variable_neighbors, v, c)]
        after.joins(v, c) <==> sees(after.variable_neighbors, v, c) by {
        assert(graph.joins(v, c) <==> sees(graph.variable_neighbors, v, c));
        assert(after.edges.contains(Edge { variable: v, constraint: c }) <==> (Edge {
            variable: v,
            constraint: c,
        } != edge && graph.edges.contains(Edge { variable: v, constraint: c })));
    }
    assert forall|v: usize, c: usize|
        #![trigger after.joins(v, c)]
        #![trigger sees(after.constraint_neighbors, c, v)]
        after.joins(v, c) <==> sees(after.constraint_neighbors, c, v) by {
        assert(graph.joins(v, c) <==> sees(graph.constraint_neighbors, c, v));
        assert(after.edges.contains(Edge { variable: v, constraint: c }) <==> (Edge {
            variable: v,
            constraint: c,
        } != edge && graph.edges.contains(Edge { variable: v, constraint: c })));
    }
    assert forall|v: int| #[trigger]
        after.variable_degree(v) == graph.variable_degree(v) - if v == edge.variable {
            1int
        } else {
            0int
        } by {
        assert(degree(after.variable_neighbors, v) == degree(graph.variable_neighbors, v) - if v
            == edge.variable {
            1int
        } else {
            0int
        });
    }
    assert forall|c: int| #[trigger]
        after.constraint_degree(c) == graph.constraint_degree(c) - if c == edge.constraint {
            1int
        } else {
            0int
        } by {
        assert(degree(after.constraint_neighbors, c) == degree(graph.constraint_neighbors, c)
            - if c == edge.constraint {
            1int
        } else {
            0int
        });
    }
}

/// The graph without edges is well formed.
pub proof fn lemma_empty(variables: nat, constraints: nat)
    ensures
        Adjacency::empty(variables, constraints).wf(),
        Adjacency::empty(variables, constraints).number_of_variables() == variables,
        Adjacency::empty(variables, constraints).number_of_constraints() == constraints,
        Adjacency::empty(variables, constraints).number_of_edges() == 0,
        forall|v: int| #[trigger] Adjacency::empty(variables, constraints).variable_degree(v) == 0,
        forall|c: int| #[trigger]
            Adjacency::empty(variables, constraints).constraint_degree(c) == 0,
{
    let graph = Adjacency::empty(variables, constraints);
    assert forall|v: usize, c: usize|
        #![trigger graph.joins(v, c)]
        #![trigger sees(graph.variable_neighbors, v, c)]
        graph.joins(v, c) <==> sees(graph.variable_neighbors, v, c) by {
        if v < variables {
            assert(graph.variable_neighbors[v as int] =~= Seq::<usize>::empty());
        }
    }
    assert forall|v: usize, c: usize|
        #![trigger graph.joins(v, c)]
        #![trigger sees(graph.constraint_neighbors, c, v)]
        graph.joins(v, c) <==> sees(graph.constraint_neighbors, c, v) by {
        if c < constraints {
            assert(graph.constraint_neighbors[c as int] =~= Seq::<usize>::empty());
        }
    }
}

} // verus!
