//! The drawing of one graph: a random pairing of stubs, and its repair.

use crate::adjacency::{lemma_empty, Adjacency};
use crate::graph::{Edge, Graph};
use crate::placement::{
    constraints_of, lemma_partner, lemma_placed, lemma_repaired, partner, partner_from, placed,
    repaired, swappable, swapped, variables_of, within,
};
use crate::sampler::{Parameters, Sampler};
use crate::shuffle::shuffle;
use crate::stubs::{lemma_shuffled_stubs, make_stubs, occurrences, stubs};
use rand_chacha::ChaCha20Rng;
use std::collections::VecDeque;
use vstd::prelude::*;

verus! {

/// The edges that pair two sequences of stubs place by place,
/// as far as the shorter one goes.
pub open spec fn paired(variables: Seq<usize>, constraints: Seq<usize>) -> Seq<Edge> {
    Seq::new(
        if variables.len() <= constraints.len() {
            variables.len()
        } else {
            constraints.len()
        },
        |i: int| Edge { variable: variables[i], constraint: constraints[i] },
    )
}

/// Whether the candidates pair all the stubs of the variables with all the
/// stubs of the constraints: their variables are the variable stubs in some
/// order, and their constraints are the constraint stubs in some order.
pub open spec fn pairing(candidates: Seq<Edge>, parameters: Parameters) -> bool {
    &&& variables_of(candidates).to_multiset() == stubs(
        parameters.number_of_variables as nat,
        parameters.variable_degree as nat,
    ).to_multiset()
    &&& constraints_of(candidates).to_multiset() == stubs(
        parameters.number_of_constraints as nat,
        parameters.constraint_degree as nat,
    ).to_multiset()
}

/// What the drawing of one graph works on: the parameters of the sampler,
/// and the candidate edges that are not placed yet, first come first served.
pub struct SampleView {
    pub parameters: Parameters,
    pub candidates: Seq<Edge>,
}

/// The drawing of one graph from a sampler.
pub struct Sample<'s> {
    sampler: &'s Sampler,
    candidate_edges: VecDeque<Edge>,
}

impl<'s> View for Sample<'s> {
    type V = SampleView;

    closed spec fn view(&self) -> SampleView {
        SampleView { parameters: self.sampler@, candidates: self.candidate_edges@ }
    }
}

impl<'s> Sample<'s> {
    /// The candidates join nodes that the sampler asks for, always.
    #[verifier::type_invariant]
    pub open spec fn wf(&self) -> bool {
        within(
            self@.candidates,
            self@.parameters.number_of_variables as nat,
            self@.parameters.number_of_constraints as nat,
        )
    }

    /// Pairs the stubs of the variables with the stubs of the constraints,
    /// both in an order that the generator picks.
    pub fn from_sampler_and_rng(sampler: &'s Sampler, rng: &mut ChaCha20Rng) -> (sample: Self)
        requires
            sampler@.number_of_edges() <= usize::MAX,
        ensures
            sample@.parameters == sampler@,
            pairing(sample@.candidates, sampler@),
            sample@.candidates.len() == sampler@.number_of_edges(),
    {
        let candidate_edges = Self::candidate_edges(sampler, rng);
        Self { sampler, candidate_edges }
    }

    fn candidate_edges(sampler: &Sampler, rng: &mut ChaCha20Rng) -> (candidates: VecDeque<Edge>)
        requires
            sampler@.number_of_edges() <= usize::MAX,
        ensures
            within(
                candidates@,
                sampler@.number_of_variables as nat,
                sampler@.number_of_constraints as nat,
            ),
            pairing(candidates@, sampler@),
            candidates@.len() == sampler@.number_of_edges(),
    {
        proof {
            use_type_invariant(sampler);
        }
        let variables = Self::candidate_variables(sampler, rng);
        let constraints = Self::candidate_constraints(sampler, rng);
        let candidates = Self::pair(variables, constraints);
        proof {
            lemma_shuffled_stubs(
                variables@,
                sampler@.number_of_variables as nat,
                sampler@.variable_degree as nat,
            );
            lemma_shuffled_stubs(
                constraints@,
                sampler@.number_of_constraints as nat,
                sampler@.constraint_degree as nat,
            );
            assert(variables_of(candidates@) =~= variables@);
            assert(constraints_of(candidates@) =~= constraints@);
        }
        candidates
    }

    fn candidate_variables(sampler: &Sampler, rng: &mut ChaCha20Rng) -> (variables: Vec<usize>)
        requires
            sampler@.number_of_edges() <= usize::MAX,
        ensures
            variables@.to_multiset() == stubs(
                sampler@.number_of_variables as nat,
                sampler@.variable_degree as nat,
            ).to_multiset(),
    {
        let mut variables = make_stubs(sampler.number_of_variables(), sampler.variable_degree());
        shuffle(&mut variables, rng);
        variables
    }

    fn candidate_constraints(sampler: &Sampler, rng: &mut ChaCha20Rng) -> (constraints: Vec<usize>)
        requires
            sampler@.number_of_edges() <= usize::MAX,
        ensures
            constraints@.to_multiset() == stubs(
                sampler@.number_of_constraints as nat,
                sampler@.constraint_degree as nat,
            ).to_multiset(),
    {
        proof {
            use_type_invariant(sampler);
        }
        let mut constraints = make_stubs(
            sampler.number_of_constraints(),
            sampler.constraint_degree(),
        );
        shuffle(&mut constraints, rng);
        constraints
    }

    /// Pairs the given stubs place by place, as far as the shorter sequence goes.
    pub fn from_stubs(sampler: &'s Sampler, variables: Vec<usize>, constraints: Vec<usize>) -> (sample:
        Self)
        requires
            forall|i: int|
                0 <= i < variables.len() ==> #[trigger] variables[i]
                    < sampler@.number_of_variables,
            forall|i: int|
                0 <= i < constraints.len() ==> #[trigger] constraints[i]
                    < sampler@.number_of_constraints,
        ensures
            sample@ == (SampleView {
                parameters: sampler@,
                candidates: paired(variables@, constraints@),
            }),
    {
        let candidate_edges = Self::pair(variables, constraints);
        Self { sampler, candidate_edges }
    }

    fn pair(variables: Vec<usize>, constraints: Vec<usize>) -> (candidates: VecDeque<Edge>)
        ensures
            candidates@ == paired(variables@, constraints@),
    {
        let mut candidates: VecDeque<Edge> = VecDeque::new();
        let mut index: usize = 0;
        while index < variables.len() && index < constraints.len()
            invariant
                index <= variables.len(),
                index <= constraints.len(),
                candidates@ == paired(variables@, constraints@).subrange(0, index as int),
            decreases variables.len() - index,
        {
            candidates.push_back(Edge::new(variables[index], constraints[index]));
            index += 1;
            assert(candidates@ =~= paired(variables@, constraints@).subrange(0, index as int));
        }
        assert(candidates@ =~= paired(variables@, constraints@));
        candidates
    }

    /// Exchanges the constraints of two edges.
    pub fn swap(first_edge: Edge, second_edge: Edge) -> (edges: (Edge, Edge))
        ensures
            edges == swapped(first_edge, second_edge),
    {
        (
            Edge { variable: first_edge.variable, constraint: second_edge.constraint },
            Edge { variable: second_edge.variable, constraint: first_edge.constraint },
        )
    }

    /// Finds the first edge of the graph, in the order of its edges, whose
    /// swap with the target gives two edges that the graph does not hold.
    pub fn find_edge_to_swap(target_edge: Edge, graph: &Graph) -> (edge: Option<Edge>)
        ensures
            edge == partner(graph@, target_edge),
    {
        let count = graph.number_of_edges();
        let mut index: usize = 0;
        while index < count
            invariant
                count == graph@.number_of_edges(),
                index <= count,
                partner_from(graph@, target_edge, index as int) == partner_from(
                    graph@,
                    target_edge,
                    0,
                ),
            decreases count - index,
        {
            if let Some(edge) = graph.edge_at(index) {
                let (first_swapped_edge, second_swapped_edge) = Self::swap(edge, target_edge);
                if !graph.contains_edge(first_swapped_edge) && !graph.contains_edge(
                    second_swapped_edge,
                ) {
                    assert(swappable(graph@, edge, target_edge));
                    return Some(edge);
                }
                assert(!swappable(graph@, edge, target_edge));
            }
            index += 1;
        }
        None
    }

    /// Places a candidate that the graph holds already: by a double edge swap
    /// with the first edge that allows one, or else at the back of the queue.
    /// Returns whether the graph has changed.
    fn try_to_swap_edge_and_insert(
        candidate_edges: &mut VecDeque<Edge>,
        graph: &mut Graph,
        edge: Edge,
    ) -> (changed: bool)
        requires
            old(graph)@.contains(edge),
        ensures
            match placed(old(graph)@, edge) {
                Some(next) => {
                    &&& changed
                    &&& final(graph)@ == next
                    &&& final(candidate_edges)@ == old(candidate_edges)@
                },
                None => {
                    &&& !changed
                    &&& final(graph)@ == old(graph)@
                    &&& final(candidate_edges)@ == old(candidate_edges)@.push(edge)
                },
            },
    {
        proof {
            use_type_invariant(&*graph);
            lemma_partner(graph@, edge);
            graph.lemma_node_counts_fit();
            assert(edge == Edge { variable: edge.variable, constraint: edge.constraint });
            assert(graph@.joins(edge.variable, edge.constraint));
        }
        if let Some(edge_to_swap) = Self::find_edge_to_swap(edge, graph) {
            proof {
                assert(edge_to_swap == Edge {
                    variable: edge_to_swap.variable,
                    constraint: edge_to_swap.constraint,
                });
                assert(graph@.joins(edge_to_swap.variable, edge_to_swap.constraint));
            }
            graph.remove_edge(edge_to_swap);
            let (first_swapped_edge, second_swapped_edge) = Self::swap(edge, edge_to_swap);
            graph.insert_edge(first_swapped_edge);
            graph.insert_edge(second_swapped_edge);
            true
        } else {
            candidate_edges.push_back(edge);
            false
        }
    }

    /// Places the candidates one after the other, and returns the graph
    /// once none is left; returns nothing if the repair gets stuck, which is
    /// when every candidate that is left collides and finds no edge to swap with.
    pub fn generate(self) -> (graph: Option<Graph>)
        ensures
            outcome(graph) == repaired(self@.parameters.empty_graph(), self@.candidates, 0),
            graph matches Some(graph) ==> {
                &&& graph@.wf()
                &&& graph@.number_of_variables() == self@.parameters.number_of_variables
                &&& graph@.number_of_constraints() == self@.parameters.number_of_constraints
                &&& graph@.number_of_edges() == self@.candidates.len()
                &&& forall|v: usize| #[trigger]
                    graph@.variable_degree(v as int) == occurrences(
                        variables_of(self@.candidates),
                        v,
                    )
                &&& forall|c: usize| #[trigger]
                    graph@.constraint_degree(c as int) == occurrences(
                        constraints_of(self@.candidates),
                        c,
                    )
            },
    {
        let ghost parameters = self@.parameters;
        let ghost candidates = self@.candidates;
        let ghost start = parameters.empty_graph();
        proof {
            use_type_invariant(&self);
            lemma_empty(
                parameters.number_of_variables as nat,
                parameters.number_of_constraints as nat,
            );
            lemma_repaired(start, candidates, 0);
        }
        let Self { sampler, candidate_edges } = self;
        let mut candidate_edges = candidate_edges;
        let mut graph = Graph::from_sampler(sampler);
        let mut stalled: usize = 0;
        while stalled < candidate_edges.len()
            invariant
                graph@.number_of_variables() == parameters.number_of_variables,
                graph@.number_of_constraints() == parameters.number_of_constraints,
                within(
                    candidate_edges@,
                    parameters.number_of_variables as nat,
                    parameters.number_of_constraints as nat,
                ),
                repaired(graph@, candidate_edges@, stalled as nat) == repaired(start, candidates, 0),
            decreases candidate_edges.len(), candidate_edges.len() - stalled,
        {
            let ghost queue = candidate_edges@;
            let ghost before = graph@;
            let edge = candidate_edges.pop_front().unwrap();
            proof {
                use_type_invariant(&graph);
                assert(candidate_edges@ =~= queue.drop_first());
                assert(edge == queue[0]);
                lemma_placed(before, edge);
            }
            if graph.contains_edge(edge) {
                if Self::try_to_swap_edge_and_insert(&mut candidate_edges, &mut graph, edge) {
                    stalled = 0;
                } else {
                    stalled += 1;
                }
            } else {
                graph.insert_edge(edge);
                stalled = 0;
            }
            proof {
                let rest = queue.drop_first();
                if placed(before, edge) is Some {
                    assert forall|i: int| 0 <= i < rest.len() implies (#[trigger] rest[i]).variable
                        < parameters.number_of_variables && rest[i].constraint
                        < parameters.number_of_constraints by {
                        assert(rest[i] == queue[i + 1]);
                    }
                } else {
                    let requeued = rest.push(edge);
                    assert forall|i: int| 0 <= i < requeued.len() implies (
                    #[trigger] requeued[i]).variable < parameters.number_of_variables
                        && requeued[i].constraint < parameters.number_of_constraints by {
                        if i < rest.len() {
                            assert(requeued[i] == queue[i + 1]);
                        } else {
                            assert(requeued[i] == queue[0]);
                        }
                    }
                }
            }
        }
        if candidate_edges.len() == 0 {
            Some(graph)
        } else {
            None
        }
    }
}

/// What a drawing gave, as mathematics: the model of the graph, if there is one.
pub open spec fn outcome(graph: Option<Graph>) -> Option<Adjacency> {
    match graph {
        Some(graph) => Some(graph@),
        None => None,
    }
}

} // verus!
