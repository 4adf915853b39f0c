//! Control-flow graphs of instruction sequences: blocks, edges, reachability
//! and construction from decoded instructions.
pub mod block;
pub mod builder;
pub mod dot;
pub mod fidelity;
pub mod graph;
