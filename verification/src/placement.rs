//! The repair of a pairing of stubs into a simple graph, as mathematics.
//!
//! A candidate edge that the graph does not hold is inserted.
//! One that it holds is a collision: it is placed by a double edge swap
//! with the first edge of the graph that allows one, and waits at the back
//! of the queue where no edge allows one.
//! The repair is stuck once every waiting candidate was tried in vain on the
//! same graph.

use crate::adjacency::{lemma_insert, lemma_remove, Adjacency};
use crate::graph::Edge;
use crate::stubs::{lemma_occurrences_first, lemma_occurrences_push, occurrences};
use vstd::prelude::*;

verus! {

/// The two edges that take the place of two others in a double edge swap:
/// each keeps its variable and gets the constraint of the other.
pub open spec fn swapped(first: Edge, second: Edge) -> (Edge, Edge) {
    (
        Edge { variable: first.variable, constraint: second.constraint },
        Edge { variable: second.variable, constraint: first.constraint },
    )
}

/// Whether a double edge swap of `edge` and `target` gives two edges that
/// the graph does not hold.
pub open spec fn swappable(graph: Adjacency, edge: Edge, target: Edge) -> bool {
    !graph.contains(swapped(edge, target).0) && !graph.contains(swapped(edge, target).1)
}

/// The place, from `from` on, of the first edge of the graph that can be
/// swapped with the target; the number of edges where there is none.
pub open spec fn partner_from(graph: Adjacency, target: Edge, from: int) -> int
    decreases graph.edges.len() - from,
{
    if from < 0 || from >= graph.edges.len() {
        graph.edges.len() as int
    } else if swappable(graph, graph.edges[from], target) {
        from
    } else {
        partner_from(graph, target, from + 1)
    }
}

/// The first edge of the graph, in the order of its edges, that can be
/// swapped with the target.
pub open spec fn partner(graph: Adjacency, target: Edge) -> Option<Edge> {
    let place = partner_from(graph, target, 0);
    if place < graph.edges.len() {
        Some(graph.edges[place])
    } else {
        None
    }
}

/// The graph after a candidate was placed, or nothing where the candidate
/// has to wait.
pub open spec fn placed(graph: Adjacency, candidate: Edge) -> Option<Adjacency> {
    if !graph.contains(candidate) {
        Some(graph.insert(candidate))
    } else {
        match partner(graph, candidate) {
            Some(edge) => Some(
                graph.remove(edge).insert(swapped(candidate, edge).0).insert(
                    swapped(candidate, edge).1,
                ),
            ),
            None => None,
        }
    }
}

/// The graph after all the candidates were placed, first come first served,
/// or nothing where the repair gets stuck. `stalled` counts the candidates
/// that had to wait since the graph last changed.
pub open spec fn repaired(graph: Adjacency, candidates: Seq<Edge>, stalled: nat) -> Option<
    Adjacency,
>
    decreases candidates.len(), candidates.len() - stalled,
{
    if candidates.len() == 0 {
        Some(graph)
    } else if stalled >= candidates.len() {
        None
    } else {
        match placed(graph, candidates[0]) {
            Some(next) => repaired(next, candidates.drop_first(), 0),
            None => repaired(graph, candidates.drop_first().push(candidates[0]), stalled + 1),
        }
    }
}

/// The variables of some edges, in their order.
pub open spec fn variables_of(edges: Seq<Edge>) -> Seq<usize> {
    edges.map_values(|edge: Edge| edge.variable)
}

/// The constraints of some edges, in their order.
pub open spec fn constraints_of(edges: Seq<Edge>) -> Seq<usize> {
    edges.map_values(|edge: Edge| edge.constraint)
}

/// No edge before the partner's place can be swapped, and the edge at it can.
pub proof fn lemma_partner_from(graph: Adjacency, target: Edge, from: int)
    requires
        0 <= from <= graph.edges.len(),
    ensures
        from <= partner_from(graph, target, from) <= graph.edges.len(),
        forall|i: int|
            from <= i < partner_from(graph, target, from) ==> !swappable(
                graph,
                #[trigger] graph.edges[i],
                target,
            ),
        partner_from(graph, target, from) < graph.edges.len() ==> swappable(
            graph,
            graph.edges[partner_from(graph, target, from)],
            target,
        ),
    decreases graph.edges.len() - from,
{
    if from < graph.edges.len() && !swappable(graph, graph.edges[from], target) {
        lemma_partner_from(graph, target, from + 1);
    }
}

/// A partner is an edge of the graph that differs from the target in both
/// labels, and the swap gives two different edges that the graph lacks.
pub proof fn lemma_partner(graph: Adjacency, target: Edge)
    requires
        graph.contains(target),
    ensures
        match partner(graph, target) {
            Some(edge) => {
                &&& graph.contains(edge)
                &&& swappable(graph, edge, target)
                &&& edge.variable != target.variable
                &&& edge.constraint != target.constraint
            },
            None => forall|i: int|
                0 <= i < graph.edges.len() ==> !swappable(graph, #[trigger] graph.edges[i], target),
        },
{
    lemma_partner_from(graph, target, 0);
    if let Some(edge) = partner(graph, target) {
        let place = partner_from(graph, target, 0);
        assert(graph.edges[place] == edge);
        assert(edge == Edge { variable: edge.variable, constraint: edge.constraint });
        assert(target == Edge { variable: target.variable, constraint: target.constraint });
    }
}

/// Placing a candidate keeps the graph well formed, adds one edge, and
/// raises by one the degree of the candidate's variable and of its
/// constraint, and no other degree.
pub proof fn lemma_placed(graph: Adjacency, candidate: Edge)
    requires
        graph.wf(),
    ensures
        placed(graph, candidate) matches Some(next) ==> {
            &&& next.wf()
            &&& next.number_of_edges() == graph.number_of_edges() + 1
            &&& next.number_of_variables() == if candidate.variable
                < graph.number_of_variables() {
                graph.number_of_variables()
            } else {
                (candidate.variable + 1) as nat
            }
            &&& next.number_of_constraints() == if candidate.constraint
                < graph.number_of_constraints() {
                graph.number_of_constraints()
            } else {
                (candidate.constraint + 1) as nat
            }
            &&& forall|v: int| #[trigger]
                next.variable_degree(v) == graph.variable_degree(v) + if v
                    == candidate.variable {
                    1nat
                } else {
                    0nat
                }
            &&& forall|c: int| #[trigger]
                next.constraint_degree(c) == graph.constraint_degree(c) + if c
                    == candidate.constraint {
                    1nat
                } else {
                    0nat
                }
        },
{
    if !graph.contains(candidate) {
        lemma_insert(graph, candidate);
    } else {
        lemma_partner(graph, candidate);
        if let Some(edge) = partner(graph, candidate) {
            let first = swapped(candidate, edge).0;
            let second = swapped(candidate, edge).1;
            let without = graph.remove(edge);
            let with_first = without.insert(first);
            let next = with_first.insert(second);
            assert(swapped(edge, candidate).0 == second);
            assert(swapped(edge, candidate).1 == first);
            assert(candidate == Edge {
                variable: candidate.variable,
                constraint: candidate.constraint,
            });
            assert(edge == Edge { variable: edge.variable, constraint: edge.constraint });
            assert(graph.joins(candidate.variable, candidate.constraint));
            assert(graph.joins(edge.variable, edge.constraint));
            lemma_remove(graph, edge);
            assert(!without.contains(first));
            lemma_insert(without, first);
            assert(first != second);
            assert(!with_first.contains(second));
            lemma_insert(with_first, second);
            assert forall|v: int| #[trigger]
                next.variable_degree(v) == graph.variable_degree(v) + if v
                    == candidate.variable {
                    1nat
                } else {
                    0nat
                } by {
                assert(without.variable_degree(v) == graph.variable_degree(v) - if v
                    == edge.variable {
                    1int
                } else {
                    0int
                });
                assert(with_first.variable_degree(v) == without.variable_degree(v) + if v
                    == first.variable {
                    1nat
                } else {
                    0nat
                });
                assert(next.variable_degree(v) == with_first.variable_degree(v) + if v
                    == second.variable {
                    1nat
                } else {
                    0nat
                });
            }
            assert forall|c: int| #[trigger]
                next.constraint_degree(c) == graph.constraint_degree(c) + if c
                    == candidate.constraint {
                    1nat
                } else {
                    0nat
                } by {
                assert(without.constraint_degree(c) == graph.constraint_degree(c) - if c
                    == edge.constraint {
                    1int
                } else {
                    0int
                });
                assert(with_first.constraint_degree(c) == without.constraint_degree(c) + if c
                    == first.constraint {
                    1nat
                } else {
                    0nat
                });
                assert(next.constraint_degree(c) == with_first.constraint_degree(c) + if c
                    == second.constraint {
                    1nat
                } else {
                    0nat
                });
            }
        }
    }
}

/// Whether every edge joins a variable below `variables` and a constraint
/// below `constraints`.
pub open spec fn within(edges: Seq<Edge>, variables: nat, constraints: nat) -> bool {
    forall|i: int|
        0 <= i < edges.len() ==> (#[trigger] edges[i]).variable < variables
            && edges[i].constraint < constraints
}

/// How the labels of a queue relate to those of the queue after its first edge.
pub proof fn lemma_first_candidate(candidates: Seq<Edge>)
    requires
        candidates.len() > 0,
    ensures
        forall|v: usize| #[trigger]
            occurrences(variables_of(candidates), v) == occurrences(
                variables_of(candidates.drop_first()),
                v,
            ) + if v == candidates[0].variable {
                1nat
            } else {
                0nat
            },
        forall|c: usize| #[trigger]
            occurrences(constraints_of(candidates), c) == occurrences(
                constraints_of(candidates.drop_first()),
                c,
            ) + if c == candidates[0].constraint {
                1nat
            } else {
                0nat
            },
{
    lemma_occurrences_first(variables_of(candidates));
    lemma_occurrences_first(constraints_of(candidates));
    assert(variables_of(candidates).drop_first() =~= variables_of(candidates.drop_first()));
    assert(constraints_of(candidates).drop_first() =~= constraints_of(candidates.drop_first()));
}

/// A queue whose first edge went to the back holds the same labels as before.
pub proof fn lemma_requeued(candidates: Seq<Edge>)
    requires
        candidates.len() > 0,
    ensures
        forall|v: usize| #[trigger]
            occurrences(variables_of(candidates.drop_first().push(candidates[0])), v)
                == occurrences(variables_of(candidates), v),
        forall|c: usize| #[trigger]
            occurrences(constraints_of(candidates.drop_first().push(candidates[0])), c)
                == occurrences(constraints_of(candidates), c),
{
    let rest = candidates.drop_first();
    let first = candidates[0];
    lemma_first_candidate(candidates);
    lemma_occurrences_push(variables_of(rest), first.variable);
    lemma_occurrences_push(constraints_of(rest), first.constraint);
    assert(variables_of(rest.push(first)) =~= variables_of(rest).push(first.variable));
    assert(constraints_of(rest.push(first)) =~= constraints_of(rest).push(first.constraint));
    assert forall|v: usize| #[trigger]
        occurrences(variables_of(rest.push(first)), v) == occurrences(
            variables_of(candidates),
            v,
        ) by {
        assert(occurrences(variables_of(rest).push(first.variable), v) == occurrences(
            variables_of(rest),
            v,
        ) + if v == first.variable {
            1nat
        } else {
            0nat
        });
    }
    assert forall|c: usize| #[trigger]
        occurrences(constraints_of(rest.push(first)), c) == occurrences(
            constraints_of(candidates),
            c,
        ) by {
        assert(occurrences(constraints_of(rest).push(first.constraint), c) == occurrences(
            constraints_of(rest),
            c,
        ) + if c == first.constraint {
            1nat
        } else {
            0nat
        });
    }
}

/// A repair that is not stuck gives a well-formed graph in which each node
/// has gained one neighbor for each candidate that names it, and which has
/// one edge more for each candidate. Candidates between the nodes that the
/// graph has add no node.
pub proof fn lemma_repaired(graph: Adjacency, candidates: Seq<Edge>, stalled: nat)
    requires
        graph.wf(),
    ensures
        repaired(graph, candidates, stalled) matches Some(result) ==> {
            &&& result.wf()
            &&& result.number_of_edges() == graph.number_of_edges() + candidates.len()
            &&& forall|v: usize| #[trigger]
                result.variable_degree(v as int) == graph.variable_degree(v as int)
                    + occurrences(variables_of(candidates), v)
            &&& forall|c: usize| #[trigger]
                result.constraint_degree(c as int) == graph.constraint_degree(c as int)
                    + occurrences(constraints_of(candidates), c)
            &&& within(candidates, graph.number_of_variables(), graph.number_of_constraints())
                ==> {
                &&& result.number_of_variables() == graph.number_of_variables()
                &&& result.number_of_constraints() == graph.number_of_constraints()
            }
        },
    decreases candidates.len(), candidates.len() - stalled,
{
    if candidates.len() == 0 {
        broadcast use vstd::multiset::group_multiset_axioms;
        broadcast use vstd::seq_lib::group_to_multiset_ensures;

        assert(variables_of(candidates) =~= Seq::<usize>::empty());
        assert(constraints_of(candidates) =~= Seq::<usize>::empty());
    } else if stalled >= candidates.len() {
    } else {
        let first = candidates[0];
        let rest = candidates.drop_first();
        lemma_placed(graph, first);
        match placed(graph, first) {
            Some(next) => {
                lemma_repaired(next, rest, 0);
                lemma_first_candidate(candidates);
                if let Some(result) = repaired(next, rest, 0) {
                    assert forall|v: usize| #[trigger]
                        result.variable_degree(v as int) == graph.variable_degree(v as int)
                            + occurrences(variables_of(candidates), v) by {
                        assert(next.variable_degree(v as int) == graph.variable_degree(v as int)
                            + if v as int == first.variable {
                            1nat
                        } else {
                            0nat
                        });
                    }
                    assert forall|c: usize| #[trigger]
                        result.constraint_degree(c as int) == graph.constraint_degree(c as int)
                            + occurrences(constraints_of(candidates), c) by {
                        assert(next.constraint_degree(c as int) == graph.constraint_degree(
                            c as int,
                        ) + if c as int == first.constraint {
                            1nat
                        } else {
                            0nat
                        });
                    }
                    if within(
                        candidates,
                        graph.number_of_variables(),
                        graph.number_of_constraints(),
                    ) {
                        assert(candidates[0].variable < graph.number_of_variables());
                        assert forall|i: int| 0 <= i < rest.len() implies (#[trigger] rest[i]).variable
                            < next.number_of_variables() && rest[i].constraint
                            < next.number_of_constraints() by {
                            assert(rest[i] == candidates[i + 1]);
                        }
                    }
                }
            },
            None => {
                let requeued = rest.push(first);
                lemma_repaired(graph, requeued, stalled + 1);
                lemma_requeued(candidates);
                if within(
                    candidates,
                    graph.number_of_variables(),
                    graph.number_of_constraints(),
                ) {
                    assert forall|i: int| 0 <= i < requeued.len() implies (
                    #[trigger] requeued[i]).variable < graph.number_of_variables()
                        && requeued[i].constraint < graph.number_of_constraints() by {
                        if i < rest.len() {
                            assert(requeued[i] == candidates[i + 1]);
                        } else {
                            assert(requeued[i] == candidates[0]);
                        }
                    }
                }
            },
        }
    }
}

/// Candidates among which no edge is repeated, and none of which the graph
/// holds, are placed one after the other, and the repair is not stuck.
pub proof fn lemma_repaired_without_collision(graph: Adjacency, candidates: Seq<Edge>)
    requires
        graph.wf(),
        candidates.no_duplicates(),
        forall|i: int| 0 <= i < candidates.len() ==> !graph.contains(#[trigger] candidates[i]),
    ensures
        repaired(graph, candidates, 0) is Some,
        repaired(graph, candidates, 0).unwrap().edges == graph.edges + candidates,
    decreases candidates.len(),
{
    if candidates.len() == 0 {
        assert(graph.edges + candidates =~= graph.edges);
    } else {
        let first = candidates[0];
        let rest = candidates.drop_first();
        let next = graph.insert(first);
        lemma_insert(graph, first);
        assert forall|i: int| 0 <= i < rest.len() implies !next.contains(#[trigger] rest[i]) by {
            assert(rest[i] == candidates[i + 1]);
        }
        lemma_repaired_without_collision(next, rest);
        assert(next.edges + rest =~= graph.edges + candidates);
    }
}

} // verus!
