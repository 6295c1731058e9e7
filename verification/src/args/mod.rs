//! Argument declarations, groups and match results.

pub mod arg;
pub mod builders;
pub mod group;
pub mod matches;
