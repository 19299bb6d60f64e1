//! A reverse-mode automatic differentiation engine for scalar expression
//! graphs. Arithmetic on nodes records a directed acyclic graph; a single
//! backward pass walks that graph in dependency order and accumulates the
//! partial derivative of the root with respect to every reachable node.

pub mod engine;
pub mod graph;
pub mod laws;
pub mod rat;
pub mod topo;
