//! BIpartite Graph Sampler.
//!
//! A tool to generate regular bipartite graphs.
//! A bipartite graph is a set of variables and constraints (named like this
//! because of SAT problems) together with a set of edges.
//! Only regular graphs can be sampled: graphs with the same degree for all
//! variables and the same degree for all constraints.
//!
//! Graphs are sampled using a [`Sampler`], which is made via the
//! [`Sampler::builder`] method. A ChaCha random number generator then draws
//! a [`Graph`] from it with [`Sampler::sample_with`]: the stubs of both sides
//! are shuffled and paired, and edges that come twice are repaired by double
//! edge swaps.
//!
//! Every function of this library is verified against its contract.
//! The contracts speak of the mathematical model of a graph in [`adjacency`],
//! and of the repair as a function of the pairing in [`placement`];
//! [`regularity`] holds what follows for every graph that is drawn, and
//! [`progress`] why the repair always ends.
//! What `indexmap` and `rand` do is stated in [`index_set`] and [`shuffle`],
//! and taken from their documentation.

pub mod adjacency;
pub mod builder;
pub mod error;
pub mod graph;
pub mod index_set;
pub mod placement;
pub mod progress;
pub mod regularity;
pub mod sample;
pub mod sampler;
pub mod sequences;
pub mod shuffle;
pub mod stubs;

pub use graph::Graph;
pub use sampler::Sampler;
