//! The declaration of one argument, as the program's author writes it.

use vstd::prelude::*;
use crate::text::Text;
use crate::text::trim_dashes;
use crate::text::without_dashes;
use crate::names::texts;
use crate::names::lemma_texts_push;
use crate::text::str_eq;
use crate::errors::SchemaError;
use crate::usageparser::TokenView;
use crate::usageparser::UsageToken;
use crate::usageparser::token_views;
use crate::usageparser::tokens_of;
use crate::usageparser::tokenize;

verus! {

/// The model of an optional string slice.
pub open spec fn opt_text(o: Option<&str>) -> Option<Text> {
    match o {
        Some(s) => Some(s@),
        None => None,
    }
}

/// The model of an optional list of string slices.
pub open spec fn opt_texts(o: Option<Vec<&str>>) -> Option<Seq<Text>> {
    match o {
        Some(v) => Some(texts(v@)),
        None => None,
    }
}

/// `list` with `x` at its end, where no list stands for the empty one.
pub open spec fn pushed(list: Option<Seq<Text>>, x: Text) -> Option<Seq<Text>> {
    match list {
        Some(v) => Some(v.push(x)),
        None => Some(seq![x]),
    }
}

/// `list` followed by `xs`, where no list stands for the empty one.
pub open spec fn extended(list: Option<Seq<Text>>, xs: Seq<Text>) -> Option<Seq<Text>> {
    match list {
        Some(v) => Some(v + xs),
        None => Some(xs),
    }
}

/// The first character of `t`, if it has one.
pub open spec fn first_char(t: Text) -> Option<char> {
    if t.len() > 0 {
        Some(t[0])
    } else {
        None
    }
}

/// The model of an [`Arg`]: what was declared, as plain values.
pub struct ArgView {
    /// The unique name of the argument.
    pub name: Text,
    /// The single-character form, without the dash.
    pub short: Option<char>,
    /// The word form, without the dashes.
    pub long: Option<Text>,
    /// The text shown in the help message.
    pub help: Option<Text>,
    /// Whether the argument must be supplied.
    pub required: bool,
    /// Whether the argument carries a value.
    pub takes_value: bool,
    /// The 1-based position of a positional argument.
    pub index: Option<u8>,
    /// Whether the argument may occur more than once.
    pub multiple: bool,
    /// Names that may not be used together with this argument.
    pub blacklist: Option<Seq<Text>>,
    /// The values the argument accepts, where they are restricted.
    pub possible_vals: Option<Seq<Text>>,
    /// Names that must be used together with this argument.
    pub requires: Option<Seq<Text>>,
    /// The group the argument belongs to.
    pub group: Option<Text>,
}

/// The model of a freshly named argument: nothing set but the name.
pub open spec fn named(n: Text) -> ArgView {
    ArgView {
        name: n,
        short: None,
        long: None,
        help: None,
        required: false,
        takes_value: false,
        index: None,
        multiple: false,
        blacklist: None,
        possible_vals: None,
        requires: None,
        group: None,
    }
}

/// What the tokens of a usage line have said of an argument so far.
pub struct Draft {
    /// The name, once a token has given one.
    pub name: Option<Text>,
    /// The short form.
    pub short: Option<char>,
    /// The long form.
    pub long: Option<Text>,
    /// The help text.
    pub help: Option<Text>,
    /// Whether the argument is required.
    pub required: bool,
    /// Whether the argument takes a value.
    pub takes_value: bool,
    /// Whether the argument may repeat.
    pub multiple: bool,
}

/// The draft before any token.
pub open spec fn blank_draft() -> Draft {
    Draft {
        name: None,
        short: None,
        long: None,
        help: None,
        required: false,
        takes_value: false,
        multiple: false,
    }
}

/// The draft `d` after the token `t`.
///
/// The first name names the argument and says whether it is required. A
/// later name takes the place of a name that was taken from the long form,
/// and is passed over otherwise. A name that comes after a short or a long
/// form stands for a value. A long form names an argument that has no
/// name yet.
pub open spec fn drafted(d: Draft, t: TokenView) -> Draft {
    match t {
        TokenView::Name(n, req) => {
            let named = if d.name is None {
                Draft { name: Some(n), required: req, ..d }
            } else if d.long is Some && d.long == d.name {
                Draft { name: Some(n), required: d.required || req, ..d }
            } else {
                d
            };
            Draft { takes_value: d.takes_value || d.short is Some || d.long is Some, ..named }
        },
        TokenView::Short(c) => Draft { short: Some(c), ..d },
        TokenView::Long(l) => Draft {
            long: Some(l),
            name: if d.name is None {
                Some(l)
            } else {
                d.name
            },
            ..d
        },
        TokenView::Help(h) => Draft { help: Some(h), ..d },
        TokenView::Multiple => Draft { multiple: true, ..d },
    }
}

/// The draft after the first `n` of `tokens`.
pub open spec fn assembled(tokens: Seq<TokenView>, n: nat) -> Draft
    decreases n,
{
    if n == 0 {
        blank_draft()
    } else {
        drafted(assembled(tokens, (n - 1) as nat), tokens[n - 1])
    }
}

/// The declaration that the usage line `u` describes, or why it describes
/// none: the line is empty, or nothing in it names the argument.
pub open spec fn usage_arg(u: Text) -> Result<ArgView, SchemaError> {
    let d = assembled(tokens_of(u), tokens_of(u).len());
    if u.len() == 0 {
        Err(SchemaError::EmptyUsage)
    } else if d.name is None {
        Err(SchemaError::UnnamedUsage)
    } else {
        Ok(
            ArgView {
                short: d.short,
                long: d.long,
                help: d.help,
                required: d.required,
                takes_value: d.takes_value,
                multiple: d.multiple,
                ..named(d.name->0)
            },
        )
    }
}

/// The model of the result of reading a usage line.
pub open spec fn read_view(r: Result<Arg, SchemaError>) -> Result<ArgView, SchemaError> {
    match r {
        Ok(a) => Ok(a@),
        Err(e) => Err(e),
    }
}

/// The declaration of a command line argument.
///
/// An `Arg` is built step by step, starting from [`Arg::with_name`] or from a
/// usage string with [`Arg::from_usage`], and handed to `App::arg`, which
/// decides whether it is a flag, an option or a positional argument.
pub struct Arg<'n, 'l, 'h, 'g, 'p, 'r> {
    /// The unique name of the argument.
    pub name: &'n str,
    /// The single-character form, without the dash.
    pub short: Option<char>,
    /// The word form, without the dashes.
    pub long: Option<&'l str>,
    /// The text shown in the help message.
    pub help: Option<&'h str>,
    /// Whether the argument must be supplied, as long as no argument that
    /// excludes it is used.
    pub required: bool,
    /// Whether the argument carries a value.
    pub takes_value: bool,
    /// The 1-based position of a positional argument.
    pub index: Option<u8>,
    /// Whether the argument may occur more than once.
    pub multiple: bool,
    /// Names that may not be used together with this argument.
    pub blacklist: Option<Vec<&'r str>>,
    /// The values the argument accepts, where they are restricted.
    pub possible_vals: Option<Vec<&'p str>>,
    /// Names that must be used together with this argument.
    pub requires: Option<Vec<&'r str>>,
    /// The group the argument belongs to.
    pub group: Option<&'g str>,
}

impl<'n, 'l, 'h, 'g, 'p, 'r> View for Arg<'n, 'l, 'h, 'g, 'p, 'r> {
    type V = ArgView;

    open spec fn view(&self) -> ArgView {
        ArgView {
            name: self.name@,
            short: self.short,
            long: opt_text(self.long),
            help: opt_text(self.help),
            required: self.required,
            takes_value: self.takes_value,
            index: self.index,
            multiple: self.multiple,
            blacklist: opt_texts(self.blacklist),
            possible_vals: opt_texts(self.possible_vals),
            requires: opt_texts(self.requires),
            group: opt_text(self.group),
        }
    }
}

/// Appends `x` to an optional list, creating the list where there is none.
fn push_name<'a>(list: Option<Vec<&'a str>>, x: &'a str) -> (r: Option<Vec<&'a str>>)
    ensures
        opt_texts(r) == pushed(opt_texts(list), x@),
{
    match list {
        Some(v) => {
            let mut v = v;
            proof {
                lemma_texts_push(v@, x);
            }
            v.push(x);
            Some(v)
        },
        None => {
            let mut v: Vec<&'a str> = Vec::new();
            v.push(x);
            assert(texts(v@) =~= seq![x@]);
            Some(v)
        },
    }
}

/// Appends `xs` to an optional list, taking `xs` as the list where there is none.
fn extend_names<'a>(list: Option<Vec<&'a str>>, xs: Vec<&'a str>) -> (r: Option<Vec<&'a str>>)
    ensures
        opt_texts(r) == extended(opt_texts(list), texts(xs@)),
{
    match list {
        Some(v) => {
            let mut v = v;
            let ghost before = v@;
            let mut i: usize = 0;
            while i < xs.len()
                invariant
                    i <= xs.len(),
                    texts(v@) == texts(before) + texts(xs@).take(i as int),
                decreases xs.len() - i,
            {
                proof {
                    lemma_texts_push(v@, xs@[i as int]);
                    assert(texts(before) + texts(xs@).take(i + 1) =~= (texts(before) + texts(
                        xs@,
                    ).take(i as int)).push(xs@[i as int]@));
                }
                v.push(xs[i]);
                i = i + 1;
            }
            proof {
                assert(texts(xs@).take(xs.len() as int) =~= texts(xs@));
            }
            Some(v)
        },
        None => Some(xs),
    }
}

impl<'n, 'l, 'h, 'g, 'p, 'r> Arg<'n, 'l, 'h, 'g, 'p, 'r> {
    /// Creates an argument with the unique name `n` and nothing else set.
    ///
    /// Kept for callers of the older name; [`Arg::with_name`] does the same.
    pub fn new(n: &'n str) -> (a: Arg<'n, 'l, 'h, 'g, 'p, 'r>)
        ensures
            a@ == named(n@),
    {
        Arg {
            name: n,
            short: None,
            long: None,
            help: None,
            required: false,
            takes_value: false,
            multiple: false,
            index: None,
            possible_vals: None,
            blacklist: None,
            requires: None,
            group: None,
        }
    }

    /// Creates an argument with the unique name `n` and nothing else set.
    ///
    /// The name is how the program asks the matches for this argument; for
    /// options and positional arguments it is also shown in usage and help.
    pub fn with_name(n: &'n str) -> (a: Arg<'n, 'l, 'h, 'g, 'p, 'r>)
        ensures
            a@ == named(n@),
    {
        Arg {
            name: n,
            short: None,
            long: None,
            help: None,
            required: false,
            takes_value: false,
            multiple: false,
            index: None,
            possible_vals: None,
            blacklist: None,
            requires: None,
            group: None,
        }
    }

    /// Reads a declaration from the usage line `u`, or tells why the line
    /// describes none.
    ///
    /// The line gives, in any order: a name in `<>` for a required or in
    /// `[]` for an optional argument; a short form after `-`; a long form
    /// after `--`, which also names an argument that has no name; `...`
    /// for an argument that may repeat; and a help text after `'`. A name
    /// that follows a short or a long form stands for the value of an
    /// option.
    pub fn try_from_usage(u: &'n str) -> (r: Result<Arg<'n, 'n, 'n, 'g, 'p, 'r>, SchemaError>)
        ensures
            read_view(r) == usage_arg(u@),
    {
        let tokens = tokenize(u);
        let mut name: Option<&'n str> = None;
        let mut short: Option<char> = None;
        let mut long: Option<&'n str> = None;
        let mut help: Option<&'n str> = None;
        let mut required = false;
        let mut takes_value = false;
        let mut multiple = false;
        let mut i: usize = 0;
        while i < tokens.len()
            invariant
                i <= tokens.len(),
                token_views(tokens@) == tokens_of(u@),
                assembled(tokens_of(u@), i as nat) == (Draft {
                    name: opt_text(name),
                    short: short,
                    long: opt_text(long),
                    help: opt_text(help),
                    required: required,
                    takes_value: takes_value,
                    multiple: multiple,
                }),
            decreases tokens.len() - i,
        {
            assert(tokens_of(u@)[i as int] == tokens@[i as int]@);
            match &tokens[i] {
                UsageToken::Name(n, req) => {
                    let from_long = match (name, long) {
                        (Some(nm), Some(l)) => str_eq(l, nm),
                        _ => false,
                    };
                    if name.is_none() {
                        name = Some(*n);
                        required = *req;
                    } else if from_long {
                        name = Some(*n);
                        required = required || *req;
                    }
                    takes_value = takes_value || short.is_some() || long.is_some();
                },
                UsageToken::Short(c) => {
                    short = Some(*c);
                },
                UsageToken::Long(l) => {
                    long = Some(*l);
                    if name.is_none() {
                        name = Some(*l);
                    }
                },
                UsageToken::Help(h) => {
                    help = Some(*h);
                },
                UsageToken::Multiple => {
                    multiple = true;
                },
            }
            i = i + 1;
        }
        if u.unicode_len() == 0 {
            return Err(SchemaError::EmptyUsage);
        }
        match name {
            None => Err(SchemaError::UnnamedUsage),
            Some(n) => Ok(
                Arg {
                    name: n,
                    short: short,
                    long: long,
                    help: help,
                    required: required,
                    takes_value: takes_value,
                    multiple: multiple,
                    index: None,
                    possible_vals: None,
                    blacklist: None,
                    requires: None,
                    group: None,
                },
            ),
        }
    }

    /// Reads a declaration from the usage line `u`, which has to describe
    /// one: [`Arg::try_from_usage`] tells whether it does.
    pub fn from_usage(u: &'n str) -> (a: Arg<'n, 'n, 'n, 'g, 'p, 'r>)
        requires
            usage_arg(u@) is Ok,
        ensures
            Ok::<ArgView, SchemaError>(a@) == usage_arg(u@),
    {
        Arg::try_from_usage(u).unwrap()
    }

    /// Sets the single-character form: the first character of `s` that
    /// follows its leading dashes, or none when nothing follows them.
    pub fn short(self, s: &str) -> (a: Arg<'n, 'l, 'h, 'g, 'p, 'r>)
        ensures
            a@ == (ArgView { short: first_char(without_dashes(s@)), ..self@ }),
    {
        let mut a = self;
        let t = trim_dashes(s);
        a.short = if t.unicode_len() > 0 {
            Some(t.get_char(0))
        } else {
            None
        };
        a
    }

    /// Sets the word form: `l` without its leading dashes.
    pub fn long(self, l: &'l str) -> (a: Arg<'n, 'l, 'h, 'g, 'p, 'r>)
        ensures
            a@ == (ArgView { long: Some(without_dashes(l@)), ..self@ }),
    {
        let mut a = self;
        a.long = Some(trim_dashes(l));
        a
    }

    /// Sets the text shown for the argument in the help message.
    pub fn help(self, h: &'h str) -> (a: Arg<'n, 'l, 'h, 'g, 'p, 'r>)
        ensures
            a@ == (ArgView { help: Some(h@), ..self@ }),
    {
        let mut a = self;
        a.help = Some(h);
        a
    }

    /// Sets whether the argument must be supplied. An argument that excludes
    /// it, once matched, lifts the requirement.
    pub fn required(self, r: bool) -> (a: Arg<'n, 'l, 'h, 'g, 'p, 'r>)
        ensures
            a@ == (ArgView { required: r, ..self@ }),
    {
        let mut a = self;
        a.required = r;
        a
    }

    /// Names one argument that may not be used together with this one.
    ///
    /// The older name of [`Arg::conflicts_with`].
    pub fn mutually_excludes(self, name: &'r str) -> (a: Arg<'n, 'l, 'h, 'g, 'p, 'r>)
        ensures
            a@ == (ArgView { blacklist: pushed(self@.blacklist, name@), ..self@ }),
    {
        self.conflicts_with(name)
    }

    /// Names arguments that may not be used together with this one.
    ///
    /// The older name of [`Arg::conflicts_with_all`].
    pub fn mutually_excludes_all(self, names: Vec<&'r str>) -> (a: Arg<'n, 'l, 'h, 'g, 'p, 'r>)
        ensures
            a@ == (ArgView { blacklist: extended(self@.blacklist, texts(names@)), ..self@ }),
    {
        self.conflicts_with_all(names)
    }

    /// Names one argument that may not be used together with this one. The
    /// rule holds in both directions and has to be stated on one side only.
    pub fn conflicts_with(self, name: &'r str) -> (a: Arg<'n, 'l, 'h, 'g, 'p, 'r>)
        ensures
            a@ == (ArgView { blacklist: pushed(self@.blacklist, name@), ..self@ }),
    {
        let Arg {
            name: n,
            short,
            long,
            help,
            required,
            takes_value,
            index,
            multiple,
            blacklist,
            possible_vals,
            requires: reqs,
            group,
        } = self;
        Arg {
            name: n,
            short,
            long,
            help,
            required,
            takes_value,
            index,
            multiple,
            blacklist: push_name(blacklist, name),
            possible_vals,
            requires: reqs,
            group,
        }
    }

    /// Names arguments that may not be used together with this one.
    pub fn conflicts_with_all(self, names: Vec<&'r str>) -> (a: Arg<'n, 'l, 'h, 'g, 'p, 'r>)
        ensures
            a@ == (ArgView { blacklist: extended(self@.blacklist, texts(names@)), ..self@ }),
    {
        let Arg {
            name: n,
            short,
            long,
            help,
            required,
            takes_value,
            index,
            multiple,
            blacklist,
            possible_vals,
            requires: reqs,
            group,
        } = self;
        Arg {
            name: n,
            short,
            long,
            help,
            required,
            takes_value,
            index,
            multiple,
            blacklist: extend_names(blacklist, names),
            possible_vals,
            requires: reqs,
            group,
        }
    }

    /// Names one argument that must be supplied whenever this one is.
    pub fn requires_arg(self, name: &'r str) -> (a: Arg<'n, 'l, 'h, 'g, 'p, 'r>)
        ensures
            a@ == (ArgView { requires: pushed(self@.requires, name@), ..self@ }),
    {
        let Arg {
            name: n,
            short,
            long,
            help,
            required,
            takes_value,
            index,
            multiple,
            blacklist,
            possible_vals,
            requires: reqs,
            group,
        } = self;
        Arg {
            name: n,
            short,
            long,
            help,
            required,
            takes_value,
            index,
            multiple,
            blacklist,
            possible_vals,
            requires: push_name(reqs, name),
            group,
        }
    }

    /// Names arguments that must be supplied whenever this one is.
    pub fn requires_all(self, names: Vec<&'r str>) -> (a: Arg<'n, 'l, 'h, 'g, 'p, 'r>)
        ensures
            a@ == (ArgView { requires: extended(self@.requires, texts(names@)), ..self@ }),
    {
        let Arg {
            name: n,
            short,
            long,
            help,
            required,
            takes_value,
            index,
            multiple,
            blacklist,
            possible_vals,
            requires: reqs,
            group,
        } = self;
        Arg {
            name: n,
            short,
            long,
            help,
            required,
            takes_value,
            index,
            multiple,
            blacklist,
            possible_vals,
            requires: extend_names(reqs, names),
            group,
        }
    }

    /// Sets whether the argument carries a value, which makes it an option.
    pub fn takes_value(self, tv: bool) -> (a: Arg<'n, 'l, 'h, 'g, 'p, 'r>)
        ensures
            a@ == (ArgView { takes_value: tv, ..self@ }),
    {
        let mut a = self;
        a.takes_value = tv;
        a
    }

    /// Sets the position of a positional argument, counted from 1.
    pub fn index(self, idx: u8) -> (a: Arg<'n, 'l, 'h, 'g, 'p, 'r>)
        ensures
            a@ == (ArgView { index: Some(idx), ..self@ }),
    {
        let mut a = self;
        a.index = Some(idx);
        a
    }

    /// Sets whether the argument may occur more than once: a flag then counts
    /// its occurrences, an option or the last positional collects its values.
    pub fn multiple(self, multi: bool) -> (a: Arg<'n, 'l, 'h, 'g, 'p, 'r>)
        ensures
            a@ == (ArgView { multiple: multi, ..self@ }),
    {
        let mut a = self;
        a.multiple = multi;
        a
    }

    /// Restricts the values of an option or a positional argument to `names`,
    /// in addition to any values allowed before.
    pub fn possible_values(self, names: Vec<&'p str>) -> (a: Arg<'n, 'l, 'h, 'g, 'p, 'r>)
        ensures
            a@ == (ArgView {
                possible_vals: extended(self@.possible_vals, texts(names@)),
                ..self@
            }),
    {
        let Arg {
            name: n,
            short,
            long,
            help,
            required,
            takes_value,
            index,
            multiple,
            blacklist,
            possible_vals,
            requires: reqs,
            group,
        } = self;
        Arg {
            name: n,
            short,
            long,
            help,
            required,
            takes_value,
            index,
            multiple,
            blacklist,
            possible_vals: extend_names(possible_vals, names),
            requires: reqs,
            group,
        }
    }

    /// Puts the argument into the group called `name`.
    pub fn group(self, name: &'g str) -> (a: Arg<'n, 'l, 'h, 'g, 'p, 'r>)
        ensures
            a@ == (ArgView { group: Some(name@), ..self@ }),
    {
        let mut a = self;
        a.group = Some(name);
        a
    }
}

} // verus!
