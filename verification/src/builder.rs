//! A helper to build samplers.

use crate::error::InvalidParameters;
use crate::sampler::{Parameters, Sampler};
use vstd::prelude::*;

verus! {

/// A builder for samplers.
///
/// See [`Sampler::builder`] for more details.
#[derive(Debug)]
pub struct Builder {
    variable_degree: usize,
    constraint_degree: usize,
    number_of_variables: usize,
    number_of_constraints: usize,
}

impl View for Builder {
    type V = Parameters;

    closed spec fn view(&self) -> Parameters {
        Parameters {
            variable_degree: self.variable_degree,
            constraint_degree: self.constraint_degree,
            number_of_variables: self.number_of_variables,
            number_of_constraints: self.number_of_constraints,
        }
    }
}

/// The product of two machine integers fits in 128 bits.
proof fn lemma_product_fits(left: usize, right: usize)
    ensures
        left * right <= u128::MAX,
{
    assert(left * right <= 0xffff_ffff_ffff_ffff * 0xffff_ffff_ffff_ffff) by (nonlinear_arith)
        requires
            0 <= left <= 0xffff_ffff_ffff_ffff,
            0 <= right <= 0xffff_ffff_ffff_ffff,
    ;
}

impl Default for Builder {
    /// A builder with all four parameters at 0.
    fn default() -> (builder: Self)
        ensures
            builder@ == (Parameters {
                variable_degree: 0,
                constraint_degree: 0,
                number_of_variables: 0,
                number_of_constraints: 0,
            }),
    {
        Self {
            variable_degree: 0,
            constraint_degree: 0,
            number_of_variables: 0,
            number_of_constraints: 0,
        }
    }
}

impl Builder {
    /// Fixes the variable's degree. Default is 0.
    pub fn variable_degree(&mut self, degree: usize) -> (builder: &mut Self)
        ensures
            builder@ == (Parameters { variable_degree: degree, ..old(self)@ }),
            *final(self) == *final(builder),
    {
        self.variable_degree = degree;
        self
    }

    /// Fixes the constraint's degree. Default is 0.
    pub fn constraint_degree(&mut self, degree: usize) -> (builder: &mut Self)
        ensures
            builder@ == (Parameters { constraint_degree: degree, ..old(self)@ }),
            *final(self) == *final(builder),
    {
        self.constraint_degree = degree;
        self
    }

    /// Fixes the number of variables. Default is 0.
    pub fn number_of_variables(&mut self, n: usize) -> (builder: &mut Self)
        ensures
            builder@ == (Parameters { number_of_variables: n, ..old(self)@ }),
            *final(self) == *final(builder),
    {
        self.number_of_variables = n;
        self
    }

    /// Fixes the number of constraints. Default is 0.
    pub fn number_of_constraints(&mut self, n: usize) -> (builder: &mut Self)
        ensures
            builder@ == (Parameters { number_of_constraints: n, ..old(self)@ }),
            *final(self) == *final(builder),
    {
        self.number_of_constraints = n;
        self
    }

    /// Builds a sampler, or returns an error if the number of variables times
    /// their degree is not the number of constraints times their degree.
    pub fn build(&self) -> (result: Result<Sampler, InvalidParameters>)
        ensures
            match result {
                Ok(sampler) => self@.balanced() && sampler.wf() && sampler@ == self@,
                Err(error) => !self@.balanced() && error == (InvalidParameters {
                    number_of_variables: self@.number_of_variables,
                    number_of_constraints: self@.number_of_constraints,
                    variable_degree: self@.variable_degree,
                    constraint_degree: self@.constraint_degree,
                }),
            },
    {
        proof {
            lemma_product_fits(self.number_of_variables, self.variable_degree);
            lemma_product_fits(self.number_of_constraints, self.constraint_degree);
        }
        let variable_ends = (self.number_of_variables as u128) * (self.variable_degree as u128);
        let constraint_ends = (self.number_of_constraints as u128) * (self.constraint_degree
            as u128);
        if variable_ends != constraint_ends {
            Err(
                InvalidParameters {
                    variable_degree: self.variable_degree,
                    constraint_degree: self.constraint_degree,
                    number_of_variables: self.number_of_variables,
                    number_of_constraints: self.number_of_constraints,
                },
            )
        } else {
            Ok(
                Sampler::with_parameters(
                    self.variable_degree,
                    self.constraint_degree,
                    self.number_of_variables,
                    self.number_of_constraints,
                ),
            )
        }
    }
}

} // verus!
