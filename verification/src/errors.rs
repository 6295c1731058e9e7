//! Why a declaration is refused, and why a parse stops.

use vstd::prelude::*;
use vstd::string::StringExecFns;
use crate::text::Text;
use crate::names::owned_texts;
use crate::help::values_text;

verus! {

/// A mistake in the description of a command. These are mistakes of the
/// program's author, found before any argument of a user is looked at.
#[derive(Clone, Copy, Debug, PartialEq, Eq, Structural)]
pub enum SchemaError {
    /// The name of the argument is already in use.
    DuplicateName,
    /// The short form of the argument is already in use.
    DuplicateShort,
    /// The long form of the argument is already in use.
    DuplicateLong,
    /// A positional argument was given a short or a long form.
    PositionalWithSwitch,
    /// No position is left for a further positional argument.
    NoFreeIndex,
    /// The position of the positional argument is already taken.
    DuplicateIndex,
    /// A positional argument was declared to take a value, which it always does.
    PositionalTakesValue,
    /// A flag was declared required.
    RequiredFlag,
    /// A flag was given a set of possible values.
    FlagWithValues,
    /// The positions of the positional arguments do not run from 1 without a gap.
    PositionalGap,
    /// A positional argument that collects values is not the last one.
    MultipleNotLast,
    /// A usage string has no text at all.
    EmptyUsage,
    /// A usage string gives the argument no name.
    UnnamedUsage,
}

/// The model of a [`Reason`].
pub enum ReasonView {
    /// A value is not among the possible values of its argument.
    InvalidValue { value: Text, arg: Text, valid: Seq<Text>, positional: bool },
    /// A token is neither a subcommand nor the value of a positional.
    UnknownArgument { token: Text, bin: Text, no_positionals: bool },
    /// An argument was used together with one that excludes it.
    Conflict { arg: Text },
    /// The arguments ended where an option still waited for its value.
    MissingValue { name: Text },
    /// An option was written with `=` and nothing after it.
    EmptyValue { long: Text },
    /// An argument that may occur once was supplied again.
    Repeated { arg: Text },
    /// No flag or option has this long form.
    UnknownLong { long: Text },
    /// No flag or option has this short form.
    UnknownShort { short: Text },
    /// An argument or group that is required was not supplied.
    MissingRequired,
}

/// The model of a [`Halt`].
pub enum HaltView {
    /// The help message was asked for.
    Help(Text),
    /// The version message was asked for.
    Version(Text),
    /// The arguments are not valid: the reason, and the usage text.
    Failure { reason: ReasonView, usage: Text },
}

/// The sentence that states `reason` to the user.
pub open spec fn message(reason: ReasonView) -> Text {
    match reason {
        ReasonView::InvalidValue { value, arg, valid, positional } => "\""@ + value
            + "\" isn't a valid value for "@ + arg + (if positional {
            "\n\t[valid values:"@
        } else {
            "\n    [valid values:"@
        }) + values_text(valid, valid.len()) + "]"@,
        ReasonView::UnknownArgument { token, bin, no_positionals } => "Argument \""@ + token + (
        if no_positionals {
            "\" isn't a valid option for "@
        } else {
            "\" isn't a valid argument for "@
        }) + bin,
        ReasonView::Conflict { arg } => "The argument "@ + arg
            + " cannot be used with one or more of the other specified arguments"@,
        ReasonView::MissingValue { name } => "Argument \""@ + name
            + "\" requires a value but none was supplied"@,
        ReasonView::EmptyValue { long } => "Argument --"@ + long
            + " requires a value, but none was supplied"@,
        ReasonView::Repeated { arg } => "Argument "@ + arg
            + " was supplied more than once, but does not support multiple values"@,
        ReasonView::UnknownLong { long } => "Argument --"@ + long + " isn't valid"@,
        ReasonView::UnknownShort { short } => "Argument -"@ + short + " isn't valid"@,
        ReasonView::MissingRequired => "One or more required arguments were not supplied"@,
    }
}

impl HaltView {
    /// What is shown to the user: the help or version message, or the
    /// reason of the failure, the usage text and a hint at `--help`.
    pub open spec fn output(self) -> Text {
        match self {
            HaltView::Help(text) => text,
            HaltView::Version(text) => text,
            HaltView::Failure { reason, usage } => message(reason) + "\n"@ + usage
                + "\nFor more information try --help\n"@,
        }
    }

    /// The exit code of the program: 0 after help or version, 1 after a failure.
    pub open spec fn exit_code(self) -> int {
        match self {
            HaltView::Failure { .. } => 1,
            _ => 0,
        }
    }
}

/// Why the arguments of a user are not valid.
pub enum Reason {
    /// A value is not among the possible values of its argument.
    InvalidValue { value: String, arg: String, valid: Vec<String>, positional: bool },
    /// A token is neither a subcommand nor the value of a positional.
    UnknownArgument { token: String, bin: String, no_positionals: bool },
    /// An argument was used together with one that excludes it.
    Conflict { arg: String },
    /// The arguments ended where an option still waited for its value.
    MissingValue { name: String },
    /// An option was written with `=` and nothing after it.
    EmptyValue { long: String },
    /// An argument that may occur once was supplied again.
    Repeated { arg: String },
    /// No flag or option has this long form.
    UnknownLong { long: String },
    /// No flag or option has this short form.
    UnknownShort { short: String },
    /// An argument or group that is required was not supplied.
    MissingRequired,
}

/// Why a parse stopped without matches: the user asked for the help or the
/// version message, or the arguments are not valid.
pub enum Halt {
    /// The help message was asked for; the text is the message.
    Help(String),
    /// The version message was asked for; the text is the message.
    Version(String),
    /// The arguments are not valid: the reason, and the usage text of the
    /// command that found them so.
    Failure { reason: Reason, usage: String },
}

impl View for Reason {
    type V = ReasonView;

    open spec fn view(&self) -> ReasonView {
        match self {
            Reason::InvalidValue { value, arg, valid, positional } => ReasonView::InvalidValue {
                value: value@,
                arg: arg@,
                valid: owned_texts(valid@),
                positional: *positional,
            },
            Reason::UnknownArgument { token, bin, no_positionals } => ReasonView::UnknownArgument {
                token: token@,
                bin: bin@,
                no_positionals: *no_positionals,
            },
            Reason::Conflict { arg } => ReasonView::Conflict { arg: arg@ },
            Reason::MissingValue { name } => ReasonView::MissingValue { name: name@ },
            Reason::EmptyValue { long } => ReasonView::EmptyValue { long: long@ },
            Reason::Repeated { arg } => ReasonView::Repeated { arg: arg@ },
            Reason::UnknownLong { long } => ReasonView::UnknownLong { long: long@ },
            Reason::UnknownShort { short } => ReasonView::UnknownShort { short: short@ },
            Reason::MissingRequired => ReasonView::MissingRequired,
        }
    }
}

impl View for Halt {
    type V = HaltView;

    open spec fn view(&self) -> HaltView {
        match self {
            Halt::Help(text) => HaltView::Help(text@),
            Halt::Version(text) => HaltView::Version(text@),
            Halt::Failure { reason, usage } => HaltView::Failure { reason: reason@, usage: usage@ },
        }
    }
}

impl Reason {
    /// The sentence that states the reason to the user.
    pub fn message(&self) -> (r: String)
        ensures
            r@ == message(self@),
    {
        match self {
            Reason::InvalidValue { value, arg, valid, positional } => {
                let mut r = String::from_str("\"");
                r.append(value.as_str());
                r.append("\" isn't a valid value for ");
                r.append(arg.as_str());
                if *positional {
                    r.append("\n\t[valid values:");
                } else {
                    r.append("\n    [valid values:");
                }
                let ghost base = r@;
                assert(r@ + Seq::<char>::empty() =~= r@);
                let mut i: usize = 0;
                while i < valid.len()
                    invariant
                        i <= valid.len(),
                        r@ == base + values_text(owned_texts(valid@), i as nat),
                    decreases valid.len() - i,
                {
                    r.append(" ");
                    r.append(valid[i].as_str());
                    assert(r@ =~= base + values_text(owned_texts(valid@), (i + 1) as nat));
                    i = i + 1;
                }
                r.append("]");
                assert(r@ =~= message(self@));
                r
            },
            Reason::UnknownArgument { token, bin, no_positionals } => {
                let mut r = String::from_str("Argument \"");
                r.append(token.as_str());
                if *no_positionals {
                    r.append("\" isn't a valid option for ");
                } else {
                    r.append("\" isn't a valid argument for ");
                }
                r.append(bin.as_str());
                r
            },
            Reason::Conflict { arg } => {
                let mut r = String::from_str("The argument ");
                r.append(arg.as_str());
                r.append(" cannot be used with one or more of the other specified arguments");
                r
            },
            Reason::MissingValue { name } => {
                let mut r = String::from_str("Argument \"");
                r.append(name.as_str());
                r.append("\" requires a value but none was supplied");
                r
            },
            Reason::EmptyValue { long } => {
                let mut r = String::from_str("Argument --");
                r.append(long.as_str());
                r.append(" requires a value, but none was supplied");
                r
            },
            Reason::Repeated { arg } => {
                let mut r = String::from_str("Argument ");
                r.append(arg.as_str());
                r.append(" was supplied more than once, but does not support multiple values");
                r
            },
            Reason::UnknownLong { long } => {
                let mut r = String::from_str("Argument --");
                r.append(long.as_str());
                r.append(" isn't valid");
                r
            },
            Reason::UnknownShort { short } => {
                let mut r = String::from_str("Argument -");
                r.append(short.as_str());
                r.append(" isn't valid");
                r
            },
            Reason::MissingRequired => String::from_str(
                "One or more required arguments were not supplied",
            ),
        }
    }
}

impl Halt {
    /// What is to be shown to the user.
    pub fn output(&self) -> (r: String)
        ensures
            r@ == self@.output(),
    {
        match self {
            Halt::Help(text) => text.clone(),
            Halt::Version(text) => text.clone(),
            Halt::Failure { reason, usage } => {
                let mut r = reason.message();
                r.append("\n");
                r.append(usage.as_str());
                r.append("\nFor more information try --help\n");
                r
            },
        }
    }

    /// The exit code the program is to end with: 0 after help or version,
    /// 1 after a failure.
    pub fn exit_code(&self) -> (r: i32)
        ensures
            r == self@.exit_code(),
    {
        match self {
            Halt::Failure { .. } => 1,
            _ => 0,
        }
    }
}

} // verus!
