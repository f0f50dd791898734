//! Pipeline around a pluggable election solver: snapshot validation, solving,
//! trimming to a byte budget, scoring and threshold validation.

pub mod error;
pub mod model;
pub mod package;
pub mod pipeline;
pub mod score;
pub mod snapshot;
pub mod solver;
pub mod trim;
