//! Why the repair of a pairing is not stuck where a regular graph can exist.
//!
//! As long as no constraint asks for more neighbors than there are
//! variables, one of the waiting candidates can always be placed: among the
//! candidates that cannot, the one whose variable has the fewest neighbors
//! would point to a variable with fewer still.

use crate::adjacency::{sees, Adjacency};
use crate::graph::Edge;
use crate::placement::{
    constraints_of, lemma_first_candidate, lemma_partner, lemma_placed, lemma_requeued, partner,
    placed, repaired, swappable, swapped, variables_of, within,
};
use crate::sampler::Parameters;
use crate::sequences::{lemma_fewer, lemma_missing_label};
use crate::stubs::occurrences;
use vstd::prelude::*;

verus! {

/// Whether the graph and the waiting candidates together give every node
/// the degree that the parameters ask for: each node has as many neighbors
/// as its degree, less one for each waiting candidate that names it.
pub open spec fn accounted(parameters: Parameters, graph: Adjacency, candidates: Seq<Edge>) -> bool {
    &&& graph.wf()
    &&& graph.number_of_variables() == parameters.number_of_variables
    &&& graph.number_of_constraints() == parameters.number_of_constraints
    &&& within(
        candidates,
        parameters.number_of_variables as nat,
        parameters.number_of_constraints as nat,
    )
    &&& forall|v: usize|
        v < parameters.number_of_variables ==> graph.variable_degree(v as int) + #[trigger] occurrences(
            variables_of(candidates),
            v,
        ) == parameters.variable_degree
    &&& forall|c: usize|
        c < parameters.number_of_constraints ==> graph.constraint_degree(c as int) + #[trigger] occurrences(
            constraints_of(candidates),
            c,
        ) == parameters.constraint_degree
}

/// Placing the first candidate keeps the account of the degrees.
pub proof fn lemma_accounted_placed(
    parameters: Parameters,
    graph: Adjacency,
    candidates: Seq<Edge>,
)
    requires
        accounted(parameters, graph, candidates),
        candidates.len() > 0,
        placed(graph, candidates[0]) is Some,
    ensures
        accounted(parameters, placed(graph, candidates[0]).unwrap(), candidates.drop_first()),
{
    let first = candidates[0];
    let rest = candidates.drop_first();
    let next = placed(graph, first).unwrap();
    lemma_placed(graph, first);
    lemma_first_candidate(candidates);
    assert forall|i: int| 0 <= i < rest.len() implies (#[trigger] rest[i]).variable
        < parameters.number_of_variables && rest[i].constraint
        < parameters.number_of_constraints by {
        assert(rest[i] == candidates[i + 1]);
    }
    assert forall|v: usize| v < parameters.number_of_variables implies next.variable_degree(
        v as int,
    ) + #[trigger] occurrences(variables_of(rest), v) == parameters.variable_degree by {
        assert(graph.variable_degree(v as int) + occurrences(variables_of(candidates), v)
            == parameters.variable_degree);
        assert(next.variable_degree(v as int) == graph.variable_degree(v as int) + if v as int
            == first.variable {
            1nat
        } else {
            0nat
        });
    }
    assert forall|c: usize| c < parameters.number_of_constraints implies next.constraint_degree(
        c as int,
    ) + #[trigger] occurrences(constraints_of(rest), c) == parameters.constraint_degree by {
        assert(graph.constraint_degree(c as int) + occurrences(constraints_of(candidates), c)
            == parameters.constraint_degree);
        assert(next.constraint_degree(c as int) == graph.constraint_degree(c as int) + if c as int
            == first.constraint {
            1nat
        } else {
            0nat
        });
    }
}

/// Sending the first candidate to the back keeps the account of the degrees.
pub proof fn lemma_accounted_requeued(
    parameters: Parameters,
    graph: Adjacency,
    candidates: Seq<Edge>,
)
    requires
        accounted(parameters, graph, candidates),
        candidates.len() > 0,
    ensures
        accounted(parameters, graph, candidates.drop_first().push(candidates[0])),
{
    let rest = candidates.drop_first();
    let requeued = rest.push(candidates[0]);
    lemma_requeued(candidates);
    assert forall|i: int| 0 <= i < requeued.len() implies (#[trigger] requeued[i]).variable
        < parameters.number_of_variables && requeued[i].constraint
        < parameters.number_of_constraints by {
        if i < rest.len() {
            assert(requeued[i] == candidates[i + 1]);
        } else {
            assert(requeued[i] == candidates[0]);
        }
    }
    assert forall|v: usize| v < parameters.number_of_variables implies graph.variable_degree(
        v as int,
    ) + #[trigger] occurrences(variables_of(requeued), v) == parameters.variable_degree by {
        assert(graph.variable_degree(v as int) + occurrences(variables_of(candidates), v)
            == parameters.variable_degree);
    }
    assert forall|c: usize| c < parameters.number_of_constraints implies graph.constraint_degree(
        c as int,
    ) + #[trigger] occurrences(constraints_of(requeued), c) == parameters.constraint_degree by {
        assert(graph.constraint_degree(c as int) + occurrences(constraints_of(candidates), c)
            == parameters.constraint_degree);
    }
}

/// A waiting candidate that cannot be placed points to another one whose
/// variable has fewer neighbors.
pub proof fn lemma_descent(
    parameters: Parameters,
    graph: Adjacency,
    candidates: Seq<Edge>,
    index: int,
)
    requires
        accounted(parameters, graph, candidates),
        parameters.constraint_degree <= parameters.number_of_variables,
        0 <= index < candidates.len(),
        placed(graph, candidates[index]) is None,
    ensures
        exists|other: int|
            0 <= other < candidates.len() && graph.variable_degree(
                (#[trigger] candidates[other]).variable as int,
            ) < graph.variable_degree(candidates[index].variable as int),
{
    broadcast use vstd::seq_lib::group_to_multiset_ensures;

    let target = candidates[index];
    let v = target.variable;
    let c = target.constraint;
    assert(target == Edge { variable: v, constraint: c });
    assert(graph.joins(v, c));
    lemma_partner(graph, target);
    assert(sees(graph.variable_neighbors, v, c));
    assert(sees(graph.constraint_neighbors, c, v));

    // The constraint still waits for a neighbor, so it misses a variable.
    assert(constraints_of(candidates)[index] == c);
    assert(constraints_of(candidates).contains(c));
    assert(occurrences(constraints_of(candidates), c) > 0);
    assert(graph.constraint_degree(c as int) + occurrences(constraints_of(candidates), c)
        == parameters.constraint_degree);
    let beside_c = graph.constraint_neighbors[c as int];
    lemma_missing_label(beside_c, parameters.number_of_variables as nat);
    let w = choose|w: usize| w < parameters.number_of_variables && !beside_c.contains(w);
    assert(!sees(graph.constraint_neighbors, c, w));
    assert(!graph.joins(w, c));

    // No edge of that variable can be swapped, so its neighbors are
    // neighbors of the candidate's variable, and the constraint is not one.
    let beside_v = graph.variable_neighbors[v as int];
    let beside_w = graph.variable_neighbors[w as int];
    assert forall|k: int| 0 <= k < beside_w.len() implies beside_v.contains(
        #[trigger] beside_w[k],
    ) && beside_w[k] != c by {
        let d = beside_w[k];
        assert(sees(graph.variable_neighbors, w, d));
        assert(graph.joins(w, d));
        let edge = Edge { variable: w, constraint: d };
        let place = graph.edges.index_of(edge);
        assert(graph.edges[place] == edge);
        assert(!swappable(graph, graph.edges[place], target));
        assert(swapped(edge, target).0 == Edge { variable: w, constraint: c });
        assert(swapped(edge, target).1 == Edge { variable: v, constraint: d });
        assert(graph.joins(v, d));
        assert(sees(graph.variable_neighbors, v, d));
    }
    lemma_fewer(beside_w, beside_v, c);
    assert(graph.variable_degree(w as int) < graph.variable_degree(v as int));

    // So that variable waits for a neighbor too.
    assert(graph.variable_degree(v as int) + occurrences(variables_of(candidates), v)
        == parameters.variable_degree);
    assert(graph.variable_degree(w as int) + occurrences(variables_of(candidates), w)
        == parameters.variable_degree);
    assert(occurrences(variables_of(candidates), w) > 0);
    assert(variables_of(candidates).contains(w));
    let other = variables_of(candidates).index_of(w);
    assert(variables_of(candidates)[other] == w);
    assert(candidates[other].variable == w);
}

/// Where a candidate waits, one of the waiting candidates can be placed.
pub proof fn lemma_some_candidate_fits(
    parameters: Parameters,
    graph: Adjacency,
    candidates: Seq<Edge>,
    index: int,
)
    requires
        accounted(parameters, graph, candidates),
        parameters.constraint_degree <= parameters.number_of_variables,
        0 <= index < candidates.len(),
    ensures
        exists|other: int|
            0 <= other < candidates.len() && placed(graph, #[trigger] candidates[other]) is Some,
    decreases graph.variable_degree(candidates[index].variable as int),
{
    if placed(graph, candidates[index]) is None {
        lemma_descent(parameters, graph, candidates, index);
        let other = choose|other: int|
            0 <= other < candidates.len() && graph.variable_degree(
                (#[trigger] candidates[other]).variable as int,
            ) < graph.variable_degree(candidates[index].variable as int);
        lemma_some_candidate_fits(parameters, graph, candidates, other);
    }
}

/// The repair is not stuck where the degrees are accounted for, no
/// constraint asks for more neighbors than there are variables, and the
/// graph has changed since all but the last `stalled` candidates were tried.
pub proof fn lemma_never_stuck(
    parameters: Parameters,
    graph: Adjacency,
    candidates: Seq<Edge>,
    stalled: nat,
)
    requires
        accounted(parameters, graph, candidates),
        parameters.constraint_degree <= parameters.number_of_variables,
        stalled <= candidates.len(),
        forall|i: int|
            candidates.len() - stalled <= i < candidates.len() ==> placed(
                graph,
                #[trigger] candidates[i],
            ) is None,
    ensures
        repaired(graph, candidates, stalled) is Some,
    decreases candidates.len(), candidates.len() - stalled,
{
    if candidates.len() > 0 {
        lemma_some_candidate_fits(parameters, graph, candidates, 0);
        let fits = choose|other: int|
            0 <= other < candidates.len() && placed(graph, #[trigger] candidates[other]) is Some;
        assert(fits < candidates.len() - stalled);
        let first = candidates[0];
        let rest = candidates.drop_first();
        match placed(graph, first) {
            Some(next) => {
                lemma_accounted_placed(parameters, graph, candidates);
                lemma_never_stuck(parameters, next, rest, 0);
            },
            None => {
                let requeued = rest.push(first);
                lemma_accounted_requeued(parameters, graph, candidates);
                assert forall|i: int|
                    requeued.len() - (stalled + 1) <= i < requeued.len() implies placed(
                    graph,
                    #[trigger] requeued[i],
                ) is None by {
                    if i < rest.len() {
                        assert(requeued[i] == candidates[i + 1]);
                    } else {
                        assert(requeued[i] == candidates[0]);
                    }
                }
                lemma_never_stuck(parameters, graph, requeued, stalled + 1);
            },
        }
    }
}

} // verus!
