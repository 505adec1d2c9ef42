//! Inference of inter-AS relationships and topological roles from observed
//! AS paths.
pub mod relation;
pub mod path;
pub mod peak;
pub mod graph;
pub mod role;
pub mod infer;
pub mod metrics;
pub mod snapshot;
pub mod naming;
