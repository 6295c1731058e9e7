//! A declarative command-line argument parser.
//!
//! A program describes its flags, options, positional arguments, groups and
//! subcommands as an [`App`]. The parser walks an argument vector against
//! that description and returns the matches, or the reason it stopped: the
//! user asked for the help or the version message, or the arguments are
//! not valid.
//!
//! The library neither reads the arguments of the process nor prints nor
//! exits; it takes the argument vector and gives back values.
//!
//! * [`args`] holds the declaration of an argument, the registered
//!   arguments, the groups and the matches.
//! * [`app`] holds the command and the rules of registration.
//! * [`usageparser`] reads declarations from usage lines.
//! * [`preflight`] says what is done to a command before a parse.
//! * [`parser`] states the rules of the parse as a state machine, and
//!   [`engine`] is the parser that follows them.
//! * [`usage`] and [`help`] render the texts shown to the user.
//! * [`laws`] proves what holds of every command and of every parse.

pub mod text;
pub mod names;
pub mod search;
pub mod errors;
pub mod usageparser;
pub mod args;
pub mod app;
pub mod usage;
pub mod help;
pub mod preflight;
pub mod parser;
pub mod engine;
pub mod laws;

pub use app::App;
pub use args::arg::Arg;
pub use args::group::ArgGroup;
pub use args::matches::ArgMatches;
pub use args::matches::MatchedArg;
pub use args::matches::SubCommand;
pub use errors::Halt;
pub use errors::Reason;
pub use errors::SchemaError;
