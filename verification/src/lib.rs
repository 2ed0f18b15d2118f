//! Inclusion graphs and SARIF reports for the diagnostics of a dependency lint.

pub mod text;
pub mod json;
pub mod krate_graph;
pub mod krate_laws;
pub mod cargo_graph;
pub mod small;
pub mod diag;
pub mod sarif;
pub mod view_laws;
