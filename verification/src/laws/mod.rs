//! What holds of every command and of every parse.
//!
//! * [`schema`]: what registration keeps, and what it refuses.
//! * [`tracking`], [`states`], [`walks`]: what holds of every state of a
//!   parse, and why.
//! * [`results`]: what holds of the matches of every successful parse.
//! * [`entries`], [`sets`]: what holds of the entries and of the running
//!   sets.
//! * [`tokens`], [`values`]: what single tokens and runs of tokens lead to.

pub mod schema;
pub mod tracking;
pub mod states;
pub mod walks;
pub mod results;
pub mod entries;
pub mod sets;
pub mod tokens;
pub mod values;
