//! What holds of every graph that is drawn from a sampler.

use crate::adjacency::{lemma_empty, sees, Adjacency};
use crate::graph::Edge;
use crate::placement::{constraints_of, lemma_repaired, repaired, variables_of, within};
use crate::progress::{accounted, lemma_never_stuck};
use crate::sample::pairing;
use crate::sampler::Parameters;
use crate::sequences::lemma_bounded_labels;
use crate::stubs::{lemma_shuffled_stubs, occurrences};
use vstd::prelude::*;

verus! {

/// Where the repair of a pairing of all the stubs is not stuck, the graph
/// is as the parameters ask: it has their numbers of nodes, one edge for
/// each stub of the variables, no edge twice, and at each variable and each
/// constraint the degree that they name.
pub proof fn lemma_pairing_is_regular(parameters: Parameters, candidates: Seq<Edge>)
    requires
        parameters.balanced(),
        pairing(candidates, parameters),
    ensures
        candidates.len() == parameters.number_of_edges(),
        within(
            candidates,
            parameters.number_of_variables as nat,
            parameters.number_of_constraints as nat,
        ),
        repaired(parameters.empty_graph(), candidates, 0) matches Some(graph)
            ==> parameters.regular(graph),
{
    let variables = parameters.number_of_variables as nat;
    let constraints = parameters.number_of_constraints as nat;
    lemma_shuffled_stubs(variables_of(candidates), variables, parameters.variable_degree as nat);
    lemma_shuffled_stubs(
        constraints_of(candidates),
        constraints,
        parameters.constraint_degree as nat,
    );
    assert forall|i: int| 0 <= i < candidates.len() implies (#[trigger] candidates[i]).variable
        < variables && candidates[i].constraint < constraints by {
        assert(variables_of(candidates)[i] == candidates[i].variable);
        assert(constraints_of(candidates)[i] == candidates[i].constraint);
    }
    lemma_empty(variables, constraints);
    lemma_repaired(parameters.empty_graph(), candidates, 0);
    if let Some(graph) = repaired(parameters.empty_graph(), candidates, 0) {
        assert forall|v: int| 0 <= v < variables implies #[trigger] graph.variable_degree(v)
            == parameters.variable_degree by {
            assert(graph.variable_degree((v as usize) as int) == parameters.empty_graph().variable_degree(
                (v as usize) as int,
            ) + occurrences(variables_of(candidates), v as usize));
        }
        assert forall|c: int| 0 <= c < constraints implies #[trigger] graph.constraint_degree(c)
            == parameters.constraint_degree by {
            assert(graph.constraint_degree((c as usize) as int)
                == parameters.empty_graph().constraint_degree((c as usize) as int) + occurrences(
                constraints_of(candidates),
                c as usize,
            ));
        }
    }
}

/// Where the variable degree times the number of constraints is also the
/// number of stubs of the variables, and the constraint degree times the
/// number of variables is too, a graph that is as the parameters ask has
/// that many edges.
pub proof fn lemma_edges_by_the_other_side(parameters: Parameters, graph: Adjacency)
    requires
        parameters.balanced(),
        parameters.regular(graph),
        parameters.variable_degree * parameters.number_of_constraints
            == parameters.number_of_edges(),
        parameters.constraint_degree * parameters.number_of_variables
            == parameters.number_of_edges(),
    ensures
        graph.number_of_edges() == parameters.variable_degree * parameters.number_of_constraints,
        graph.number_of_edges() == parameters.constraint_degree * parameters.number_of_variables,
{
}

/// A graph that is as the parameters ask has one edge for each stub of the
/// variables, which is one for each stub of the constraints.
pub proof fn lemma_edges_of_regular(parameters: Parameters, graph: Adjacency)
    requires
        parameters.balanced(),
        parameters.regular(graph),
    ensures
        graph.number_of_edges() == parameters.number_of_variables * parameters.variable_degree,
        graph.number_of_edges() == parameters.number_of_constraints
            * parameters.constraint_degree,
{
}

/// A well-formed graph enumerates no edge twice: it has as many different
/// edges as it enumerates.
pub proof fn lemma_edges_are_distinct(graph: Adjacency)
    requires
        graph.wf(),
    ensures
        graph.edges.no_duplicates(),
        graph.edges.to_set().len() == graph.edges.len(),
{
    graph.edges.unique_seq_to_set();
}

/// Drawing is a function of the pairing: two drawings from the same
/// parameters whose shuffles gave the same candidates give the same graph,
/// edge for edge and in the same order, or are both stuck.
pub proof fn lemma_same_pairing_same_graph(
    parameters: Parameters,
    first_candidates: Seq<Edge>,
    first: Option<Adjacency>,
    second_candidates: Seq<Edge>,
    second: Option<Adjacency>,
)
    requires
        parameters.draws(first_candidates, first),
        parameters.draws(second_candidates, second),
        first_candidates == second_candidates,
    ensures
        first == second,
        first is Some ==> first.unwrap().edges == second.unwrap().edges,
{
}

/// The repair of a pairing of all the stubs is never stuck where a graph as
/// the parameters ask can exist.
pub proof fn lemma_feasible_pairing_is_repaired(parameters: Parameters, candidates: Seq<Edge>)
    requires
        parameters.balanced(),
        parameters.feasible(),
        pairing(candidates, parameters),
    ensures
        repaired(parameters.empty_graph(), candidates, 0) is Some,
{
    let variables = parameters.number_of_variables as nat;
    let constraints = parameters.number_of_constraints as nat;
    lemma_pairing_is_regular(parameters, candidates);
    if candidates.len() > 0 {
        lemma_empty(variables, constraints);
        lemma_shuffled_stubs(
            variables_of(candidates),
            variables,
            parameters.variable_degree as nat,
        );
        lemma_shuffled_stubs(
            constraints_of(candidates),
            constraints,
            parameters.constraint_degree as nat,
        );
        assert(accounted(parameters, parameters.empty_graph(), candidates));
        lemma_never_stuck(parameters, parameters.empty_graph(), candidates, 0);
    }
}

/// A graph as the parameters ask exists only where no node asks for more
/// neighbors than the other side has nodes.
pub proof fn lemma_regular_is_feasible(parameters: Parameters, graph: Adjacency)
    requires
        parameters.balanced(),
        parameters.regular(graph),
    ensures
        parameters.feasible(),
{
    if parameters.number_of_edges() != 0 {
        assert(parameters.number_of_variables > 0 && parameters.variable_degree > 0
            && parameters.number_of_constraints > 0 && parameters.constraint_degree > 0)
            by (nonlinear_arith)
            requires
                parameters.number_of_variables * parameters.variable_degree != 0,
                parameters.number_of_variables * parameters.variable_degree
                    == parameters.number_of_constraints * parameters.constraint_degree,
        ;
        let beside_variable = graph.variable_neighbors[0];
        assert(graph.variable_degree(0) == parameters.variable_degree);
        assert forall|i: int| 0 <= i < beside_variable.len() implies #[trigger] beside_variable[i]
            < parameters.number_of_constraints by {
            assert(sees(graph.variable_neighbors, 0, beside_variable[i]));
            assert(graph.joins(0, beside_variable[i]));
            assert(sees(graph.constraint_neighbors, beside_variable[i], 0));
        }
        lemma_bounded_labels(beside_variable, parameters.number_of_constraints as nat);
        let beside_constraint = graph.constraint_neighbors[0];
        assert(graph.constraint_degree(0) == parameters.constraint_degree);
        assert forall|i: int|
            0 <= i < beside_constraint.len() implies #[trigger] beside_constraint[i]
            < parameters.number_of_variables by {
            assert(sees(graph.constraint_neighbors, 0, beside_constraint[i]));
            assert(graph.joins(beside_constraint[i], 0));
            assert(sees(graph.variable_neighbors, beside_constraint[i], 0));
        }
        lemma_bounded_labels(beside_constraint, parameters.number_of_variables as nat);
    }
}

/// The repair of a pairing of all the stubs gives a graph exactly where a
/// graph as the parameters ask can exist.
pub proof fn lemma_repaired_iff_feasible(parameters: Parameters, candidates: Seq<Edge>)
    requires
        parameters.balanced(),
        pairing(candidates, parameters),
    ensures
        repaired(parameters.empty_graph(), candidates, 0) is Some <==> parameters.feasible(),
{
    lemma_pairing_is_regular(parameters, candidates);
    if parameters.feasible() {
        lemma_feasible_pairing_is_repaired(parameters, candidates);
    }
    if let Some(graph) = repaired(parameters.empty_graph(), candidates, 0) {
        lemma_regular_is_feasible(parameters, graph);
    }
}

} // verus!
