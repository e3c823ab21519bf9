//! Evolution of small feed-forward networks whose topology is grown and
//! recombined by a genetic algorithm.
//!
//! A genome ([`genome::Minet`]) is a sequence of neuron slots: inputs, then
//! hidden neurons, then outputs. Each slot's gene holds a bias and the
//! synapses leaving it, and every synapse leads to a higher, non-input slot,
//! so slot order is already a topological order. Growth, structural
//! mutation and crossover keep that invariant; the wire codec writes a
//! genome as bytes and base64 text and reads it back.
//!
//! Biases, weights and fitness values are single-precision numbers kept as
//! their IEEE-754 bit patterns: the library moves, compares and encodes
//! them without arithmetic, and leaves evaluation and perturbation, which
//! compute on them, to its caller. Randomness comes from a generator that
//! the caller hands in.

pub mod codec;
pub mod dot;
pub mod genome;
pub mod growth;
pub mod mutation;
pub mod random;
pub mod reproduction;
