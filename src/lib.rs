//! Flattening of a Maven dependency tree into a sorted, deduplicated list of
//! artifact coordinates, the filters applied to that list, the decisions of
//! the registry lookup that adds the latest published version, and the
//! rendering of the final report.

pub mod text;
pub mod artifact;
pub mod flatten;
pub mod report;
pub mod enrich;
pub mod maven;
