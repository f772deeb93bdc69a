//! Native parallel reasoning: fork and merge decisions, plan parsing, the tag
//! vocabulary and the shape of a join.

pub mod branch;
pub mod join;
pub mod laws;
pub mod oracle;
pub mod plans;
pub mod report;
pub mod schedule;
pub mod vocab;
