//! Transitive closure of kernel module dependencies, and the decisions made
//! while copying that closure into an initrd staging tree.
//!
//! - `closure`: a breadth-first traversal under a neighbour function that is
//!   asked once per node.
//! - `deps`: the dependency tokens of a module and the names they resolve to.
//! - `modinfo`: the questions put to the module metadata oracle and how its
//!   answers are read.
//! - `materialize`: what is copied for each module of the closure.
//! - `fields`: splitting the oracle's output into lines and tokens.
pub mod closure;
pub mod deps;
pub mod fields;
pub mod materialize;
pub mod modinfo;
