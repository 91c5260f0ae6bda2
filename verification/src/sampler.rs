//! Samplers of regular bipartite graphs.

use crate::adjacency::Adjacency;
use crate::builder::Builder;
use crate::graph::{Edge, Graph};
use crate::placement::repaired;
use crate::regularity::{lemma_feasible_pairing_is_repaired, lemma_pairing_is_regular};
use crate::sample::{pairing, Sample};
use rand_chacha::ChaCha20Rng;
use vstd::prelude::*;

verus! {

/// The four numbers that describe a regular bipartite graph.
pub struct Parameters {
    pub variable_degree: usize,
    pub constraint_degree: usize,
    pub number_of_variables: usize,
    pub number_of_constraints: usize,
}

impl Parameters {
    /// The variables offer as many edge ends as the constraints do.
    pub open spec fn balanced(self) -> bool {
        self.number_of_variables * self.variable_degree == self.number_of_constraints
            * self.constraint_degree
    }

    /// The number of edges of a graph with these parameters:
    /// one for each edge end that the variables offer.
    pub open spec fn number_of_edges(self) -> int {
        self.number_of_variables * self.variable_degree
    }

    /// The graph without edges on the nodes that the parameters ask for.
    pub open spec fn empty_graph(self) -> Adjacency {
        Adjacency::empty(self.number_of_variables as nat, self.number_of_constraints as nat)
    }

    /// Whether a graph is as the parameters ask: well formed, so that no
    /// edge is repeated, on the right numbers of nodes and edges, and with
    /// the right degree at every node.
    pub open spec fn regular(self, graph: Adjacency) -> bool {
        &&& graph.wf()
        &&& graph.number_of_variables() == self.number_of_variables
        &&& graph.number_of_constraints() == self.number_of_constraints
        &&& graph.number_of_edges() == self.number_of_edges()
        &&& forall|v: int|
            0 <= v < self.number_of_variables ==> #[trigger] graph.variable_degree(v)
                == self.variable_degree
        &&& forall|c: int|
            0 <= c < self.number_of_constraints ==> #[trigger] graph.constraint_degree(c)
                == self.constraint_degree
    }

    /// Whether a graph as the parameters ask can exist: there are no edges
    /// to place, or no node asks for more neighbors than the other side has
    /// nodes.
    pub open spec fn feasible(self) -> bool {
        self.number_of_edges() == 0 || (self.variable_degree <= self.number_of_constraints
            && self.constraint_degree <= self.number_of_variables)
    }

    /// Whether `graph` is what the repair of the candidates gives, and the
    /// candidates pair all the stubs that the parameters ask for.
    pub open spec fn draws(self, candidates: Seq<Edge>, graph: Option<Adjacency>) -> bool {
        &&& pairing(candidates, self)
        &&& repaired(self.empty_graph(), candidates, 0) == graph
    }

    /// Whether the numbers of nodes are the degrees of the other side,
    /// `factor` times each.
    pub open spec fn scaled_by(self, factor: int) -> bool {
        &&& self.number_of_variables == self.constraint_degree * factor
        &&& self.number_of_constraints == self.variable_degree * factor
    }
}

/// A sampler for regular bipartite graphs.
///
/// A sampler holds the degree of the variables, the degree of the
/// constraints and the number of both, and these are balanced: the
/// variables offer as many edge ends as the constraints do.
/// It is never changed, and any number of graphs can be drawn from it.
#[derive(Debug)]
pub struct Sampler {
    variable_degree: usize,
    constraint_degree: usize,
    number_of_variables: usize,
    number_of_constraints: usize,
}

impl View for Sampler {
    type V = Parameters;

    closed spec fn view(&self) -> Parameters {
        Parameters {
            variable_degree: self.variable_degree,
            constraint_degree: self.constraint_degree,
            number_of_variables: self.number_of_variables,
            number_of_constraints: self.number_of_constraints,
        }
    }
}

impl Sampler {
    /// The parameters of a sampler are balanced, always.
    #[verifier::type_invariant]
    pub open spec fn wf(&self) -> bool {
        self@.balanced()
    }

    /// The sampler with the given parameters, which are balanced.
    pub(crate) fn with_parameters(
        variable_degree: usize,
        constraint_degree: usize,
        number_of_variables: usize,
        number_of_constraints: usize,
    ) -> (sampler: Self)
        requires
            number_of_variables * variable_degree == number_of_constraints * constraint_degree,
        ensures
            sampler.wf(),
            sampler@ == (Parameters {
                variable_degree,
                constraint_degree,
                number_of_variables,
                number_of_constraints,
            }),
    {
        Self { variable_degree, constraint_degree, number_of_variables, number_of_constraints }
    }

    /// Starts the construction of a sampler, with all four parameters at 0.
    pub fn builder() -> (builder: Builder)
        ensures
            builder@ == (Parameters {
                variable_degree: 0,
                constraint_degree: 0,
                number_of_variables: 0,
                number_of_constraints: 0,
            }),
    {
        Builder::default()
    }

    /// Draws a graph: pairs the stubs of the variables with those of the
    /// constraints, both in an order that the generator picks, and repairs
    /// the pairing into a graph without repeated edges.
    ///
    /// The parameters have to allow such a graph: no node can have more
    /// neighbors than the other side has nodes, or else no graph is as they
    /// ask and the repair would never end. The stubs are held in memory, so
    /// the machine has to be able to count them.
    /// [`Sampler::try_sample_with`] tests both.
    pub fn sample_with(&self, rng: &mut ChaCha20Rng) -> (graph: Graph)
        requires
            self@.number_of_edges() <= usize::MAX,
            self@.feasible(),
        ensures
            self@.regular(graph@),
            exists|candidates: Seq<Edge>| #[trigger] self@.draws(candidates, Some(graph@)),
    {
        proof {
            use_type_invariant(self);
        }
        let sample = Sample::from_sampler_and_rng(self, rng);
        proof {
            lemma_pairing_is_regular(self@, sample@.candidates);
            lemma_feasible_pairing_is_repaired(self@, sample@.candidates);
        }
        let graph = sample.generate().unwrap();
        assert(self@.draws(sample@.candidates, Some(graph@)));
        graph
    }

    /// Draws a graph as [`Sampler::sample_with`] does, if the parameters
    /// allow one and the machine can count the stubs, and returns nothing
    /// otherwise.
    pub fn try_sample_with(&self, rng: &mut ChaCha20Rng) -> (graph: Option<Graph>)
        ensures
            graph is Some <==> self@.number_of_edges() <= usize::MAX && self@.feasible(),
            graph matches Some(graph) ==> {
                &&& self@.regular(graph@)
                &&& exists|candidates: Seq<Edge>| #[trigger]
                    self@.draws(candidates, Some(graph@))
            },
    {
        proof {
            lemma_product_fits(self.number_of_variables as int, self.variable_degree as int);
        }
        let stubs = (self.number_of_variables as u128) * (self.variable_degree as u128);
        if stubs > usize::MAX as u128 {
            None
        } else if stubs == 0 || (self.variable_degree <= self.number_of_constraints
            && self.constraint_degree <= self.number_of_variables) {
            Some(self.sample_with(rng))
        } else {
            None
        }
    }

    /// Returns the number of variables of each graph that the sampler draws.
    pub fn number_of_variables(&self) -> (count: usize)
        ensures
            count == self@.number_of_variables,
    {
        self.number_of_variables
    }

    /// Returns the number of constraints of each graph that the sampler draws.
    pub fn number_of_constraints(&self) -> (count: usize)
        ensures
            count == self@.number_of_constraints,
    {
        self.number_of_constraints
    }

    /// Returns the number of edges of each graph that the sampler draws:
    /// the number of variables times their degree, which is the number of
    /// constraints times theirs.
    pub fn number_of_edges(&self) -> (count: usize)
        requires
            self@.number_of_edges() <= usize::MAX,
        ensures
            count == self@.number_of_edges(),
            count == self@.number_of_variables * self@.variable_degree,
            count == self@.number_of_constraints * self@.constraint_degree,
    {
        proof {
            use_type_invariant(self);
        }
        self.number_of_variables * self.variable_degree
    }

    /// Returns the scaling factor of the sampler, if it has one: the least
    /// number that gives the number of variables when the degree of the
    /// constraints is taken that many times, and the number of constraints
    /// when the degree of the variables is.
    pub fn scaling_factor(&self) -> (factor: Option<usize>)
        ensures
            match factor {
                Some(factor) => {
                    &&& self@.scaled_by(factor as int)
                    &&& forall|less: int| 0 <= less < factor ==> !#[trigger] self@.scaled_by(less)
                },
                None => forall|any: int| 0 <= any ==> !#[trigger] self@.scaled_by(any),
            },
    {
        let variables = self.number_of_variables;
        let constraints = self.number_of_constraints;
        if self.constraint_degree != 0 {
            let factor = variables / self.constraint_degree;
            proof {
                lemma_quotient(variables as int, self.constraint_degree as int);
                lemma_product_fits(self.variable_degree as int, factor as int);
                assert forall|any: int| #[trigger] self@.scaled_by(any) implies any == factor
                    && variables % self.constraint_degree == 0 by {
                    lemma_factor(variables as int, self.constraint_degree as int, any);
                }
            }
            if variables % self.constraint_degree == 0 && (self.variable_degree as u128) * (
            factor as u128) == constraints as u128 {
                Some(factor)
            } else {
                None
            }
        } else if self.variable_degree != 0 {
            let factor = constraints / self.variable_degree;
            proof {
                lemma_quotient(constraints as int, self.variable_degree as int);
                assert forall|any: int| #[trigger] self@.scaled_by(any) implies any == factor
                    && variables == 0 && constraints % self.variable_degree == 0 by {
                    lemma_factor(constraints as int, self.variable_degree as int, any);
                }
            }
            if variables == 0 && constraints % self.variable_degree == 0 {
                Some(factor)
            } else {
                None
            }
        } else if variables == 0 && constraints == 0 {
            Some(0)
        } else {
            None
        }
    }

    /// Returns the degree of each variable in the graphs that the sampler draws.
    pub fn variable_degree(&self) -> (degree: usize)
        ensures
            degree == self@.variable_degree,
    {
        self.variable_degree
    }

    /// Returns the degree of each constraint in the graphs that the sampler draws.
    pub fn constraint_degree(&self) -> (degree: usize)
        ensures
            degree == self@.constraint_degree,
    {
        self.constraint_degree
    }
}

/// Dividing a number by a positive divisor gives a quotient that is not
/// above the number, and the number itself where nothing remains.
proof fn lemma_quotient(number: int, divisor: int)
    requires
        0 <= number,
        0 < divisor,
    ensures
        0 <= number / divisor <= number,
        number % divisor == 0 ==> number == divisor * (number / divisor),
{
    assert(0 <= number / divisor <= number && number == divisor * (number / divisor) + number
        % divisor && 0 <= number % divisor < divisor) by (nonlinear_arith)
        requires
            0 <= number,
            0 < divisor,
    ;
}

/// Only the quotient gives a number when a positive divisor is taken that
/// many times, and then the division leaves no remainder.
proof fn lemma_factor(number: int, divisor: int, factor: int)
    requires
        0 <= number,
        0 < divisor,
        number == divisor * factor,
    ensures
        factor == number / divisor,
        number % divisor == 0,
{
    let quotient = number / divisor;
    let rest = number % divisor;
    assert(number == divisor * quotient + rest && 0 <= rest < divisor) by (nonlinear_arith)
        requires
            0 <= number,
            0 < divisor,
            quotient == number / divisor,
            rest == number % divisor,
    ;
    assert(factor == quotient && rest == 0) by (nonlinear_arith)
        requires
            number == divisor * factor,
            number == divisor * quotient + rest,
            0 <= rest < divisor,
            0 < divisor,
    ;
}

/// The product of two machine integers fits in 128 bits.
proof fn lemma_product_fits(left: int, right: int)
    requires
        0 <= left <= usize::MAX,
        0 <= right <= usize::MAX,
    ensures
        left * right <= u128::MAX,
{
    assert(left * right <= 0xffff_ffff_ffff_ffff * 0xffff_ffff_ffff_ffff) by (nonlinear_arith)
        requires
            0 <= left <= 0xffff_ffff_ffff_ffff,
            0 <= right <= 0xffff_ffff_ffff_ffff,
    ;
}

} // verus!
