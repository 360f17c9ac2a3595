//! Checks the reverse dependencies of a crate published on crates.io against a
//! local copy of that crate: the data model, the parsing of the crates.io API
//! answer, the paging and version filtering, and the decisions taken for each
//! reverse dependency, with their contracts.

pub mod cli;
pub mod json;
pub mod local_crate;
pub mod pipeline;
pub mod reverse_dependencies;
pub mod reverse_dependency;
pub mod statistics;
