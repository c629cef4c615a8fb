//! A heuristic optimizer that searches for an assignment of crop-type labels
//! to the cells of a fixed rectangular grid. Candidate layouts are scored by
//! local adjacency rules and improved by a generational genetic search.

pub mod backing;
pub mod crop;
pub mod rng;
pub mod trainer;
