//! A data-parallel execution engine: a sequential data source is turned into
//! a tree of recursively divisible work units and driven to completion under
//! a pluggable scheduling policy.
//!
//! The core is the splitting contract ([`producer`]), the
//! producer/consumer/reducer protocol that ties sequential folding to
//! combination of partial results ([`consumer`], [`signal`]), and the family
//! of interchangeable scheduling policies ([`scheduler`]). On top of the core
//! sit composable front-end adaptors ([`par_iter`], [`filter`],
//! [`by_blocks`]) and ready-made sources and sinks ([`range`],
//! [`consumers`]).
//!
//! Every policy returns a result whose model equals the consumer's semantics
//! of the producer's items, so division never changes what is computed — only
//! how much work is retired before a short-circuit, and in what tree shape.

pub mod by_blocks;
pub mod consumer;
pub mod consumers;
pub mod filter;
pub mod par_iter;
pub mod producer;
pub mod range;
pub mod scheduler;
pub mod signal;
