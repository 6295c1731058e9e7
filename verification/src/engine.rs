//! The executable parser.
//!
//! Each function here follows one rule of the state machine of
//! [`crate::parser`] and is proved to return what the rule says.

use vstd::prelude::*;
use vstd::string::StringExecFns;
use crate::text::Text;
use crate::text::str_eq;
use crate::text::push_char;
use crate::text::chars_of;
use crate::text::trim_dashes;
use crate::text::find_char;
use crate::names::texts;
use crate::names::owned_texts;
use crate::names::names_contain;
use crate::names::names_add;
use crate::names::names_add_all;
use crate::names::names_drop;
use crate::names::names_drop_all;
use crate::names::names_copy;
use crate::search::lemma_first_true;
use crate::search::lemma_first_true_is;
use crate::errors::Reason;
use crate::errors::Halt;
use crate::errors::HaltView;
use crate::args::arg::opt_text;
use crate::args::builders::ArgBuilder;
use crate::args::builders::decls;
use crate::args::builders::find_by_name;
use crate::args::builders::find_by_short;
use crate::args::builders::find_by_long;
use crate::args::builders::find_by_index;
use crate::args::group::ArgGroup;
use crate::args::matches::MatchedArg;
use crate::args::matches::ArgMatches;
use crate::args::matches::SubCommand;
use crate::args::matches::MatchesView;
use crate::args::matches::EntryView;
use crate::args::matches::entry_views;
use crate::args::matches::find_entry;
use crate::app::App;
use crate::app::AppView;
use crate::app::find_group;
use crate::app::find_subcommand;
use crate::parser::ParseState;
use crate::parser::Step;
use crate::parser::Stop;
use crate::parser::parse;
use crate::parser::run;
use crate::parser::initial;
use crate::preflight::subs_preflight;
use crate::preflight::help_subcommand;
use crate::app::sub_by_name;

verus! {

/// What the parser carries from token to token.
pub struct Parse<'ar> {
    /// The arguments matched so far.
    pub matches: Vec<MatchedArg<'ar>>,
    /// The names that must still be supplied.
    pub required: Vec<&'ar str>,
    /// The names that matched arguments have asked for.
    pub matched_reqs: Vec<&'ar str>,
    /// The names that may not be supplied any more.
    pub blacklist: Vec<&'ar str>,
    /// Whether `--` was seen.
    pub pos_only: bool,
    /// The position the next positional value goes to.
    pub pos_counter: usize,
    /// The option that waits for its value in the next token.
    pub needs_val_of: Option<&'ar str>,
}

impl<'ar> View for Parse<'ar> {
    type V = ParseState;

    open spec fn view(&self) -> ParseState {
        ParseState {
            matches: entry_views(self.matches@),
            required: texts(self.required@),
            matched_reqs: texts(self.matched_reqs@),
            blacklist: texts(self.blacklist@),
            pos_only: self.pos_only,
            pos_counter: self.pos_counter as nat,
            needs_val_of: opt_text(self.needs_val_of),
        }
    }
}

/// What one token led to.
pub enum Walk<'ar> {
    /// The parse goes on in this state.
    Next(Parse<'ar>),
    /// The token names the subcommand at this place.
    Sub(Parse<'ar>, usize),
    /// The parse stops.
    Halt(Halt),
}

impl<'ar> View for Walk<'ar> {
    type V = Step;

    open spec fn view(&self) -> Step {
        match self {
            Walk::Next(st) => Step::Next(st@),
            Walk::Sub(st, s) => Step::Sub(st@, *s as int),
            Walk::Halt(h) => Step::Halt(h@),
        }
    }
}

/// The model of the result of a parse.
pub open spec fn outcome(r: Result<ArgMatches, Halt>) -> Result<MatchesView, HaltView> {
    match r {
        Ok(m) => Ok(m@),
        Err(h) => Err(h@),
    }
}

/// The count that follows `n`.
fn bump(n: u32) -> (r: u32)
    ensures
        r == crate::args::matches::bumped(n as nat),
{
    if n < u32::MAX {
        n + 1
    } else {
        n
    }
}

/// Appends `v` to the values of an entry that has values.
fn push_value(values: Option<Vec<String>>, v: String) -> (r: Option<Vec<String>>)
    ensures
        (match r {
            Some(vs) => Some(owned_texts(vs@)),
            None => None,
        }) == crate::parser::pushed_value(
            match values {
                Some(vs) => Some(owned_texts(vs@)),
                None => None,
            },
            v@,
        ),
{
    match values {
        Some(vs) => {
            let mut vs = vs;
            let ghost before = owned_texts(vs@);
            vs.push(v);
            assert(owned_texts(vs@) =~= before.push(v@));
            Some(vs)
        },
        None => None,
    }
}

/// A list that holds the one value `v`.
fn one_value(v: String) -> (r: Vec<String>)
    ensures
        owned_texts(r@) == seq![v@],
{
    let mut r: Vec<String> = Vec::new();
    r.push(v);
    assert(owned_texts(r@) =~= seq![v@]);
    r
}

/// Notes in `matches` that the flag `b` was seen.
fn see_flag<'ar>(matches: &mut Vec<MatchedArg<'ar>>, b: &ArgBuilder<'ar>)
    ensures
        entry_views(final(matches)@) == crate::parser::flag_seen(entry_views(old(matches)@), b@),
{
    match find_entry(matches, b.name) {
        Some(i) => {
            let mut e = matches.remove(i);
            e.occurrences = if b.multiple {
                bump(e.occurrences)
            } else {
                1
            };
            matches.insert(i, e);
            assert(entry_views(matches@) =~= crate::parser::flag_seen(
                entry_views(old(matches)@),
                b@,
            ));
        },
        None => {
            matches.push(MatchedArg { name: b.name, occurrences: 1, values: None });
            assert(entry_views(matches@) =~= crate::parser::flag_seen(
                entry_views(old(matches)@),
                b@,
            ));
        },
    }
}

/// Notes in `matches` that the option `b` was seen, with the value `val`
/// where the token held one.
fn see_opt<'ar>(matches: &mut Vec<MatchedArg<'ar>>, b: &ArgBuilder<'ar>, val: Option<&str>)
    ensures
        entry_views(final(matches)@) == crate::parser::opt_seen(
            entry_views(old(matches)@),
            b@,
            opt_text(val),
        ),
{
    match find_entry(matches, b.name) {
        Some(i) => {
            match val {
                Some(v) => {
                    let e = matches.remove(i);
                    let changed = MatchedArg {
                        name: e.name,
                        occurrences: bump(e.occurrences),
                        values: push_value(e.values, String::from_str(v)),
                    };
                    matches.insert(i, changed);
                    assert(entry_views(matches@) =~= crate::parser::opt_seen(
                        entry_views(old(matches)@),
                        b@,
                        opt_text(val),
                    ));
                },
                None => {},
            }
        },
        None => {
            let e = match val {
                Some(v) => MatchedArg {
                    name: b.name,
                    occurrences: 1,
                    values: Some(one_value(String::from_str(v))),
                },
                None => {
                    let none: Vec<String> = Vec::new();
                    assert(owned_texts(none@) =~= Seq::<Text>::empty());
                    MatchedArg { name: b.name, occurrences: 0, values: Some(none) }
                },
            };
            matches.push(e);
            assert(entry_views(matches@) =~= crate::parser::opt_seen(
                entry_views(old(matches)@),
                b@,
                opt_text(val),
            ));
        },
    }
}

/// Notes in `matches` that the option `b` got the value `v`.
fn give_value<'ar>(matches: &mut Vec<MatchedArg<'ar>>, b: &ArgBuilder<'ar>, v: &str)
    ensures
        entry_views(final(matches)@) == crate::parser::value_given(
            entry_views(old(matches)@),
            b@,
            v@,
        ),
{
    match find_entry(matches, b.name) {
        Some(i) => {
            let e = matches.remove(i);
            let changed = MatchedArg {
                name: e.name,
                occurrences: if b.multiple {
                    bump(e.occurrences)
                } else {
                    1
                },
                values: push_value(e.values, String::from_str(v)),
            };
            matches.insert(i, changed);
            assert(entry_views(matches@) =~= crate::parser::value_given(
                entry_views(old(matches)@),
                b@,
                v@,
            ));
        },
        None => {},
    }
}

/// Notes in `matches` that the positional `b` got the value `v`.
fn see_pos<'ar>(matches: &mut Vec<MatchedArg<'ar>>, b: &ArgBuilder<'ar>, v: &str)
    ensures
        entry_views(final(matches)@) == crate::parser::pos_seen(entry_views(old(matches)@), b@, v@),
{
    match find_entry(matches, b.name) {
        Some(i) => {
            let e = matches.remove(i);
            let changed = if b.multiple {
                MatchedArg {
                    name: e.name,
                    occurrences: bump(e.occurrences),
                    values: push_value(e.values, String::from_str(v)),
                }
            } else {
                MatchedArg {
                    name: b.name,
                    occurrences: 1,
                    values: Some(one_value(String::from_str(v))),
                }
            };
            matches.insert(i, changed);
            assert(entry_views(matches@) =~= crate::parser::pos_seen(
                entry_views(old(matches)@),
                b@,
                v@,
            ));
        },
        None => {
            matches.push(
                MatchedArg {
                    name: b.name,
                    occurrences: 1,
                    values: Some(one_value(String::from_str(v))),
                },
            );
            assert(entry_views(matches@) =~= crate::parser::pos_seen(
                entry_views(old(matches)@),
                b@,
                v@,
            ));
        },
    }
}

/// Adds to `required` those of `reqs` that are not matched.
fn add_unmatched<'ar>(
    required: &mut Vec<&'ar str>,
    reqs: &Vec<&'ar str>,
    matches: &Vec<MatchedArg<'ar>>,
)
    ensures
        texts(final(required)@) == crate::parser::add_unmatched(
            texts(old(required)@),
            texts(reqs@),
            entry_views(matches@),
        ),
{
    let mut i: usize = 0;
    while i < reqs.len()
        invariant
            i <= reqs.len(),
            texts(required@) == crate::parser::add_unmatched(
                texts(old(required)@),
                texts(reqs@).take(i as int),
                entry_views(matches@),
            ),
        decreases reqs.len() - i,
    {
        proof {
            let t = texts(reqs@).take(i + 1);
            assert(t.drop_last() =~= texts(reqs@).take(i as int));
            assert(t.last() == reqs@[i as int]@);
        }
        if find_entry(matches, reqs[i]).is_none() {
            names_add(required, reqs[i]);
        }
        i = i + 1;
    }
    proof {
        assert(texts(reqs@).take(reqs.len() as int) =~= texts(reqs@));
    }
}

/// Lets the group `g` take note of the match of `name`.
fn group_note<'ar>(
    g: &ArgGroup<'ar, 'ar>,
    name: &str,
    required: &mut Vec<&'ar str>,
    blacklist: &mut Vec<&'ar str>,
)
    ensures
        texts(final(required)@) == crate::parser::group_required(
            g@,
            name@,
            texts(old(required)@),
        ),
        texts(final(blacklist)@) == crate::parser::group_blacklist(
            g@,
            name@,
            texts(old(blacklist)@),
        ),
{
    if names_contain(&g.args, name) {
        let mut others = names_copy(&g.args);
        names_drop(&mut others, name);
        names_drop(required, g.name);
        names_add_all(required, &g.requires);
        names_drop_all(required, &others);
        names_add_all(blacklist, &g.conflicts);
        names_add_all(blacklist, &others);
    }
}

impl<'a, 'v, 'ab, 'u, 'h, 'ar> App<'a, 'v, 'ab, 'u, 'h, 'ar> {
    /// Lets the groups take note of the match of `name`.
    fn groups_note(&self, name: &str, required: &mut Vec<&'ar str>, blacklist: &mut Vec<&'ar str>)
        ensures
            texts(final(required)@) == crate::parser::groups_required(
                self@.groups,
                self@.groups.len(),
                name@,
                texts(old(required)@),
            ),
            texts(final(blacklist)@) == crate::parser::groups_blacklist(
                self@.groups,
                self@.groups.len(),
                name@,
                texts(old(blacklist)@),
            ),
    {
        let mut i: usize = 0;
        while i < self.groups.len()
            invariant
                i <= self.groups.len(),
                texts(required@) == crate::parser::groups_required(
                    self@.groups,
                    i as nat,
                    name@,
                    texts(old(required)@),
                ),
                texts(blacklist@) == crate::parser::groups_blacklist(
                    self@.groups,
                    i as nat,
                    name@,
                    texts(old(blacklist)@),
                ),
            decreases self.groups.len() - i,
        {
            group_note(&self.groups[i], name, required, blacklist);
            i = i + 1;
        }
    }

    /// Notes the rules of the matched argument `b`, which the matches of
    /// `st` hold already.
    fn note_match(&self, st: &mut Parse<'ar>, b: &ArgBuilder<'ar>)
        ensures
            final(st)@ == crate::parser::noted(self@, old(st)@, b@),
    {
        names_drop(&mut st.required, b.name);
        names_drop_all(&mut st.required, &b.blacklist);
        add_unmatched(&mut st.required, &b.requires, &st.matches);
        names_add_all(&mut st.blacklist, &b.blacklist);
        names_add_all(&mut st.matched_reqs, &b.requires);
        self.groups_note(b.name, &mut st.required, &mut st.blacklist);
    }

    /// Stops the parse with a failure for `reason`.
    fn fail(&self, st: &Parse<'ar>, reason: Reason) -> (w: Walk<'ar>)
        ensures
            w@ == crate::parser::fail(self@, st@, reason@),
    {
        Walk::Halt(Halt::Failure { reason: reason, usage: self.create_usage(&st.matched_reqs) })
    }

    /// Stops the parse with the help message.
    fn halt_help(&self, st: &Parse<'ar>) -> (w: Walk<'ar>)
        ensures
            w@ == Step::Halt(HaltView::Help(crate::help::help_text(self@, st@.matched_reqs))),
    {
        Walk::Halt(Halt::Help(self.help_text(&st.matched_reqs)))
    }

    /// Stops the parse with the version message.
    fn halt_version(&self) -> (w: Walk<'ar>)
        ensures
            w@ == Step::Halt(HaltView::Version(crate::help::version_text(self@))),
    {
        Walk::Halt(Halt::Version(self.version_text()))
    }
}

/// Whether `v` is refused as a value of `b`.
fn invalid_value(b: &ArgBuilder, v: &str) -> (r: bool)
    ensures
        r == crate::parser::invalid_value(b@, v@),
{
    b.possible_vals.len() > 0 && !names_contain(&b.possible_vals, v)
}

/// Owned copies of the possible values of `b`.
fn valid_values(b: &ArgBuilder) -> (r: Vec<String>)
    ensures
        owned_texts(r@) == b@.possible_vals,
{
    let mut r: Vec<String> = Vec::new();
    let mut i: usize = 0;
    while i < b.possible_vals.len()
        invariant
            i <= b.possible_vals.len(),
            owned_texts(r@) == b@.possible_vals.take(i as int),
        decreases b.possible_vals.len() - i,
    {
        let ghost before = owned_texts(r@);
        r.push(String::from_str(b.possible_vals[i]));
        assert(b@.possible_vals[i as int] == b.possible_vals@[i as int]@);
        assert(owned_texts(r@) =~= before.push(b.possible_vals@[i as int]@));
        assert(owned_texts(r@) =~= b@.possible_vals.take(i + 1));
        i = i + 1;
    }
    assert(b@.possible_vals.take(b.possible_vals.len() as int) =~= b@.possible_vals);
    r
}

/// `-` followed by `c`.
fn short_shown(c: char) -> (r: String)
    ensures
        r@ == "-"@.push(c),
{
    let mut r = String::from_str("-");
    push_char(&mut r, c);
    r
}

/// `--` followed by `name`.
fn long_shown(name: &str) -> (r: String)
    ensures
        r@ == "--"@ + name@,
{
    let mut r = String::from_str("--");
    r.append(name);
    r
}

impl<'a, 'v, 'ab, 'u, 'h, 'ar> App<'a, 'v, 'ab, 'u, 'h, 'ar> {
    /// The token `tok` as the value of the option `b` that waits for it.
    fn take_value(&self, st: Parse<'ar>, b: &ArgBuilder<'ar>, tok: &str) -> (w: Walk<'ar>)
        ensures
            w@ == crate::parser::take_value(self@, st@, b@, tok@),
    {
        if invalid_value(b, tok) {
            self.fail(
                &st,
                Reason::InvalidValue {
                    value: String::from_str(tok),
                    arg: b.flag_form(),
                    valid: valid_values(b),
                    positional: false,
                },
            )
        } else {
            let mut st = st;
            give_value(&mut st.matches, b, tok);
            st.needs_val_of = None;
            Walk::Next(st)
        }
    }

    /// The flag `b` was named, written as `shown`.
    fn switch(&self, st: Parse<'ar>, b: &ArgBuilder<'ar>, shown: String) -> (w: Walk<'ar>)
        ensures
            w@ == crate::parser::switch(self@, st@, b@, shown@),
    {
        if names_contain(&st.blacklist, b.name) {
            self.fail(&st, Reason::Conflict { arg: shown })
        } else if find_entry(&st.matches, b.name).is_some() && !b.multiple {
            self.fail(&st, Reason::Repeated { arg: shown })
        } else {
            let mut st = st;
            see_flag(&mut st.matches, b);
            st.needs_val_of = None;
            self.note_match(&mut st, b);
            Walk::Next(st)
        }
    }

    /// The option `b` was named, written as `shown`, with the value `val`
    /// where the token held one.
    fn option(&self, st: Parse<'ar>, b: &ArgBuilder<'ar>, shown: String, val: Option<&str>) -> (w:
        Walk<'ar>)
        ensures
            w@ == crate::parser::option(self@, st@, b@, shown@, opt_text(val)),
    {
        if names_contain(&st.blacklist, b.name) {
            return self.fail(&st, Reason::Conflict { arg: shown });
        }
        if find_entry(&st.matches, b.name).is_some() && !b.multiple {
            return self.fail(&st, Reason::Repeated { arg: shown });
        }
        match val {
            Some(v) => {
                if invalid_value(b, v) {
                    return self.fail(
                        &st,
                        Reason::InvalidValue {
                            value: String::from_str(v),
                            arg: b.flag_form(),
                            valid: valid_values(b),
                            positional: false,
                        },
                    );
                }
            },
            None => {},
        }
        let mut st = st;
        see_opt(&mut st.matches, b, val);
        st.needs_val_of = if val.is_none() {
            Some(b.name)
        } else {
            None
        };
        self.note_match(&mut st, b);
        Walk::Next(st)
    }

    /// A token that starts with two dashes and is more than that.
    fn parse_long_arg(&self, st: Parse<'ar>, tok: &str) -> (w: Walk<'ar>)
        ensures
            w@ == crate::parser::long_step(self@, st@, tok@),
    {
        let body = trim_dashes(tok);
        let chars = chars_of(body);
        let eq = find_char(&chars, '=', 0);
        let name = body.substring_char(0, eq);
        assert(name@ =~= crate::parser::long_name(tok@));
        let val: Option<&str> = if eq < chars.len() {
            let end = find_char(&chars, '=', eq + 1);
            Some(body.substring_char(eq + 1, end))
        } else {
            None
        };
        assert(opt_text(val) == crate::parser::long_value(tok@));
        let empty = match val {
            Some(v) => v.unicode_len() == 0,
            None => false,
        };
        if empty {
            self.fail(&st, Reason::EmptyValue { long: String::from_str(name) })
        } else if str_eq(name, "help") && self.needs_long_help {
            self.halt_help(&st)
        } else if str_eq(name, "version") && self.needs_long_version {
            self.halt_version()
        } else {
            match find_by_long(&self.opts, name) {
                Some(i) => self.option(st, &self.opts[i], long_shown(name), val),
                None => match find_by_long(&self.flags, name) {
                    Some(i) => self.switch(st, &self.flags[i], long_shown(name)),
                    None => self.fail(&st, Reason::UnknownLong { long: String::from_str(name) }),
                },
            }
        }
    }

    /// The message that the short form `c` asks for, where it is one of
    /// the automatic ones.
    fn check_for_help_and_version(&self, st: &Parse<'ar>, c: char) -> (r: Option<Walk<'ar>>)
        ensures
            match r {
                Some(w) => crate::parser::auto_short(self@, st@, c) is Some && w@ == Step::Halt(
                    crate::parser::auto_short(self@, st@, c)->0,
                ),
                None => crate::parser::auto_short(self@, st@, c) is None,
            },
    {
        if c == 'h' && self.needs_short_help {
            Some(self.halt_help(st))
        } else if c == 'v' && self.needs_short_version {
            Some(self.halt_version())
        } else {
            None
        }
    }

    /// One character of a cluster.
    fn parse_single_short_flag(&self, st: Parse<'ar>, body: &str, c: char) -> (w: Walk<'ar>)
        ensures
            w@ == crate::parser::cluster_char(self@, st@, body@, c),
    {
        match self.check_for_help_and_version(&st, c) {
            Some(w) => w,
            None => match find_by_short(&self.flags, c) {
                Some(i) => self.switch(st, &self.flags[i], short_shown(c)),
                None => self.fail(&st, Reason::UnknownShort { short: String::from_str(body) }),
            },
        }
    }

    /// A single short form.
    fn parse_single_short(&self, st: Parse<'ar>, c: char) -> (w: Walk<'ar>)
        ensures
            w@ == crate::parser::single(self@, st@, c),
    {
        match self.check_for_help_and_version(&st, c) {
            Some(w) => w,
            None => match find_by_short(&self.flags, c) {
                Some(i) => self.switch(st, &self.flags[i], short_shown(c)),
                None => match find_by_short(&self.opts, c) {
                    Some(i) => self.option(st, &self.opts[i], short_shown(c), None),
                    None => {
                        let mut short = String::new();
                        push_char(&mut short, c);
                        assert(short@ =~= seq![c]);
                        self.fail(&st, Reason::UnknownShort { short: short })
                    },
                },
            },
        }
    }

    /// A token that starts with one dash and is more than that.
    fn parse_short_arg(&self, st: Parse<'ar>, tok: &str) -> (w: Walk<'ar>)
        ensures
            w@ == crate::parser::short_step(self@, st@, tok@),
    {
        let body = trim_dashes(tok);
        let chars = chars_of(body);
        if chars.len() > 1 {
            let ghost whole = crate::parser::short_step(self@, st@, tok@);
            let mut cur = st;
            cur.needs_val_of = None;
            let mut i: usize = 0;
            while i < chars.len()
                invariant
                    i <= chars.len(),
                    chars@ == body@,
                    whole == crate::parser::short_step(self@, st@, tok@),
                    whole == crate::parser::cluster(self@, cur@, body@, i as nat),
                decreases chars.len() - i,
            {
                let ghost here = cur@;
                let after = self.parse_single_short_flag(cur, body, chars[i]);
                assert(crate::parser::cluster(self@, here, body@, i as nat) == match after@ {
                    Step::Next(st1) => crate::parser::cluster(self@, st1, body@, (i + 1) as nat),
                    other => other,
                });
                match after {
                    Walk::Next(next) => {
                        cur = next;
                    },
                    Walk::Sub(state, sub) => {
                        return Walk::Sub(state, sub);
                    },
                    Walk::Halt(halt) => {
                        return Walk::Halt(halt);
                    },
                }
                i = i + 1;
            }
            Walk::Next(cur)
        } else if chars.len() == 1 {
            self.parse_single_short(st, chars[0])
        } else {
            self.fail(&st, Reason::UnknownShort { short: String::from_str(body) })
        }
    }

    /// The token `tok` as a value of the positional `b`.
    fn positional(&self, st: Parse<'ar>, b: &ArgBuilder<'ar>, tok: &str) -> (w: Walk<'ar>)
        requires
            st.pos_counter < usize::MAX,
        ensures
            w@ == crate::parser::positional(self@, st@, b@, tok@),
    {
        if names_contain(&st.blacklist, b.name) {
            self.fail(&st, Reason::Conflict { arg: b.pos_form() })
        } else if invalid_value(b, tok) {
            self.fail(
                &st,
                Reason::InvalidValue {
                    value: String::from_str(tok),
                    arg: b.pos_form(),
                    valid: valid_values(b),
                    positional: true,
                },
            )
        } else {
            let mut st = st;
            see_pos(&mut st.matches, b, tok);
            if !b.multiple {
                st.pos_counter = st.pos_counter + 1;
            }
            self.note_match(&mut st, b);
            Walk::Next(st)
        }
    }

    /// A token that is neither a flag nor an option.
    fn bare_step(&self, st: Parse<'ar>, tok: &str) -> (w: Walk<'ar>)
        ensures
            w@ == crate::parser::bare_step(self@, st@, tok@),
    {
        match find_subcommand(&self.subcommands, tok) {
            Some(s) => {
                if str_eq(tok, "help") && self.needs_subcmd_help {
                    self.halt_help(&st)
                } else {
                    Walk::Sub(st, s)
                }
            },
            None => {
                if self.positionals.len() == 0 {
                    self.fail(
                        &st,
                        Reason::UnknownArgument {
                            token: String::from_str(tok),
                            bin: String::from_str(self.bin_or_name()),
                            no_positionals: true,
                        },
                    )
                } else {
                    match find_by_index(&self.positionals, st.pos_counter) {
                        Some(i) => {
                            proof {
                                lemma_first_true(
                                    Seq::new(
                                        self@.positionals.len(),
                                        |k: int| self@.positionals[k].index == st.pos_counter as int,
                                    ),
                                );
                                assert(self@.positionals[i as int].index == st.pos_counter);
                            }
                            self.positional(st, &self.positionals[i], tok)
                        },
                        None => self.fail(
                            &st,
                            Reason::UnknownArgument {
                                token: String::from_str(tok),
                                bin: String::from_str(self.bin_or_name()),
                                no_positionals: false,
                            },
                        ),
                    }
                }
            },
        }
    }

    /// What the token `tok` leads to in the state `st`.
    pub fn step(&self, st: Parse<'ar>, tok: &str) -> (w: Walk<'ar>)
        ensures
            w@ == crate::parser::step(self@, st@, tok@),
    {
        reveal(crate::parser::step);
        match st.needs_val_of {
            Some(n) => match find_by_name(&self.opts, n) {
                Some(i) => {
                    return self.take_value(st, &self.opts[i], tok);
                },
                None => {},
            },
            None => {},
        }
        let n = tok.unicode_len();
        let dash = n >= 2 && tok.get_char(0) == '-';
        let double = dash && tok.get_char(1) == '-';
        if !st.pos_only && double {
            if n == 2 {
                let mut st = st;
                st.pos_only = true;
                Walk::Next(st)
            } else {
                self.parse_long_arg(st, tok)
            }
        } else if !st.pos_only && dash {
            self.parse_short_arg(st, tok)
        } else {
            self.bare_step(st, tok)
        }
    }
}

/// The place of the first of `names` that is matched.
fn first_matched(matches: &Vec<MatchedArg>, names: &Vec<&str>) -> (r: Option<usize>)
    ensures
        match r {
            Some(i) => i < names.len() && i == crate::parser::first_matched(
                entry_views(matches@),
                texts(names@),
            ),
            None => !crate::parser::any_matched(entry_views(matches@), texts(names@)),
        },
{
    let ghost hits = crate::parser::matched_hits(entry_views(matches@), texts(names@));
    let mut i: usize = 0;
    while i < names.len()
        invariant
            i <= names.len(),
            hits == crate::parser::matched_hits(entry_views(matches@), texts(names@)),
            forall|j: int| 0 <= j < i ==> !hits[j],
        decreases names.len() - i,
    {
        if find_entry(matches, names[i]).is_some() {
            proof {
                lemma_first_true_is(hits, i as int);
            }
            return Some(i);
        }
        i = i + 1;
    }
    proof {
        lemma_first_true_is(hits, i as int);
    }
    None
}

impl<'a, 'v, 'ab, 'u, 'h, 'ar> App<'a, 'v, 'ab, 'u, 'h, 'ar> {
    /// Whether `name` is in use: it is matched, or it is a group of which
    /// a member is matched.
    fn in_use(&self, matches: &Vec<MatchedArg<'ar>>, name: &str) -> (r: bool)
        ensures
            r == crate::parser::in_use(self@, entry_views(matches@), name@),
    {
        if find_entry(matches, name).is_some() {
            true
        } else {
            match find_group(&self.groups, name) {
                Some(g) => first_matched(matches, &self.groups[g].args).is_some(),
                None => false,
            }
        }
    }

    /// Whether one of `names` is in use.
    fn any_in_use(&self, matches: &Vec<MatchedArg<'ar>>, names: &Vec<&'ar str>) -> (r: bool)
        ensures
            r == crate::parser::any_in_use(self@, entry_views(matches@), texts(names@)),
    {
        let ghost hits = crate::parser::use_hits(self@, entry_views(matches@), texts(names@));
        let mut i: usize = 0;
        while i < names.len()
            invariant
                i <= names.len(),
                hits == crate::parser::use_hits(self@, entry_views(matches@), texts(names@)),
                forall|j: int| 0 <= j < i ==> !hits[j],
            decreases names.len() - i,
        {
            if self.in_use(matches, names[i]) {
                proof {
                    lemma_first_true_is(hits, i as int);
                }
                return true;
            }
            i = i + 1;
        }
        proof {
            lemma_first_true_is(hits, i as int);
        }
        false
    }

    /// Whether `store` has an argument called `name` that excludes a name
    /// in use.
    fn lifted_in(&self, matches: &Vec<MatchedArg<'ar>>, store: &Vec<ArgBuilder<'ar>>, name: &str) -> (r:
        bool)
        ensures
            r == crate::parser::lifted_in(self@, entry_views(matches@), decls(store@), name@),
    {
        match find_by_name(store, name) {
            Some(i) => self.any_in_use(matches, &store[i].blacklist),
            None => false,
        }
    }

    /// Whether the required `name` is satisfied.
    fn satisfied(&self, matches: &Vec<MatchedArg<'ar>>, name: &str) -> (r: bool)
        ensures
            r == crate::parser::satisfied(self@, entry_views(matches@), name@),
    {
        self.in_use(matches, name) || self.lifted_in(matches, &self.flags, name) || self.lifted_in(
            matches,
            &self.opts,
            name,
        ) || self.lifted_in(matches, &self.positionals, name)
    }

    /// How the argument called `name` is shown in the message of a
    /// conflict found at the end.
    fn shown_form(&self, name: &str) -> (r: String)
        ensures
            r@ == crate::parser::shown_form(self@, name@),
    {
        match find_by_name(&self.flags, name) {
            Some(i) => self.flags[i].flag_form(),
            None => match find_by_name(&self.opts, name) {
                Some(i) => self.opts[i].opt_form(),
                None => match find_by_name(&self.positionals, name) {
                    Some(i) => self.positionals[i].pos_form(),
                    None => {
                        let mut r = String::from_str("\"");
                        r.append(name);
                        r.append("\"");
                        r
                    },
                },
            },
        }
    }

    /// The argument that makes the excluded `name` a conflict, in the form
    /// it is shown in.
    fn conflict_form(&self, matches: &Vec<MatchedArg<'ar>>, name: &str) -> (r: String)
        requires
            crate::parser::in_use(self@, entry_views(matches@), name@),
        ensures
            r@ == crate::parser::conflict_form(self@, entry_views(matches@), name@),
    {
        if find_entry(matches, name).is_some() {
            self.shown_form(name)
        } else {
            let g = find_group(&self.groups, name).unwrap();
            let members = &self.groups[g].args;
            let m = first_matched(matches, members).unwrap();
            self.shown_form(members[m])
        }
    }

    /// Tells whether the blacklist holds a name that is in use, and if so
    /// the argument that makes the first such name a conflict.
    pub fn validate_blacklist(&self, st: &Parse<'ar>) -> (r: Option<String>)
        ensures
            match r {
                Some(form) => crate::parser::first_conflict(self@, st@) < st@.blacklist.len()
                    && form@ == crate::parser::conflict_form(
                    self@,
                    st@.matches,
                    st@.blacklist[crate::parser::first_conflict(self@, st@)],
                ),
                None => crate::parser::first_conflict(self@, st@) == st@.blacklist.len(),
            },
    {
        let ghost hits = crate::parser::conflict_hits(self@, st@);
        let mut i: usize = 0;
        while i < st.blacklist.len()
            invariant
                i <= st.blacklist.len(),
                hits == crate::parser::conflict_hits(self@, st@),
                forall|j: int| 0 <= j < i ==> !hits[j],
            decreases st.blacklist.len() - i,
        {
            if self.in_use(&st.matches, st.blacklist[i]) {
                proof {
                    lemma_first_true_is(hits, i as int);
                }
                return Some(self.conflict_form(&st.matches, st.blacklist[i]));
            }
            i = i + 1;
        }
        proof {
            lemma_first_true_is(hits, i as int);
        }
        None
    }

    /// Tells whether a required name is not satisfied.
    pub fn validate_required(&self, st: &Parse<'ar>) -> (r: bool)
        ensures
            r == crate::parser::any_missing(self@, st@),
    {
        let ghost hits = crate::parser::missing_hits(self@, st@);
        let mut i: usize = 0;
        while i < st.required.len()
            invariant
                i <= st.required.len(),
                hits == crate::parser::missing_hits(self@, st@),
                forall|j: int| 0 <= j < i ==> !hits[j],
            decreases st.required.len() - i,
        {
            if !self.satisfied(&st.matches, st.required[i]) {
                proof {
                    lemma_first_true_is(hits, i as int);
                }
                return true;
            }
            i = i + 1;
        }
        proof {
            lemma_first_true_is(hits, i as int);
        }
        false
    }

    /// What is wrong with the state a walk ended in, if anything.
    pub fn verdict(&self, st: &Parse<'ar>) -> (r: Option<Reason>)
        ensures
            match r {
                Some(reason) => crate::parser::verdict(self@, st@) == Some(reason@),
                None => crate::parser::verdict(self@, st@) is None,
            },
    {
        match st.needs_val_of {
            Some(n) => {
                return Some(Reason::MissingValue { name: String::from_str(n) });
            },
            None => {},
        }
        match self.validate_blacklist(st) {
            Some(form) => {
                return Some(Reason::Conflict { arg: form });
            },
            None => {},
        }
        if self.validate_required(st) {
            Some(Reason::MissingRequired)
        } else {
            None
        }
    }
}

/// The model of an optional owned string.
pub open spec fn opt_owned(o: Option<String>) -> Option<Text> {
    match o {
        Some(s) => Some(s@),
        None => None,
    }
}

/// The command `app` as called by the name `bin`.
pub open spec fn with_bin(app: AppView, bin: Option<Text>) -> AppView {
    AppView { bin_name: bin, ..app }
}

/// Where the first `n` of `subs` are in order, each of them is.
pub proof fn lemma_subs_in_order(subs: Seq<AppView>, n: nat, k: int)
    requires
        n <= subs.len(),
        subs_preflight(subs, n) is Ok,
        0 <= k < n,
    ensures
        subs[k].preflight() is Ok,
    decreases n,
{
    if k < n - 1 {
        lemma_subs_in_order(subs, (n - 1) as nat, k);
    }
}

/// The subcommands of a command that is in order are in order after the
/// command was prepared, whatever name they go by.
pub proof fn lemma_prepared_sub(app: AppView, k: int, bin: Option<Text>)
    requires
        app.preflight() is Ok,
        0 <= k < app.prepared().subcommands.len(),
    ensures
        with_bin(app.prepared().subcommands[k], bin).preflight() is Ok,
{
    let subs = app.subcommands;
    let h = help_subcommand();
    assert(app.propagated().subcommands == subs);
    assert(subs_preflight(subs, subs.len()) is Ok);
    lemma_first_true(Seq::new(subs.len(), |i: int| subs[i].name == h.name));
    assert(h.preflight() is Ok) by {
        assert(h.positionals.len() == 0);
        assert(h.subcommands.len() == 0);
        assert(crate::preflight::contiguous(h.positionals));
        assert(crate::preflight::multiple_last(h.positionals));
        assert(subs_preflight(h.subcommands, 0) is Ok);
    }
    let out = app.prepared().subcommands;
    let c = out[k];
    assert(c.preflight() is Ok) by {
        if app.needs_subcmd_help && subs.len() > 0 {
            let at = sub_by_name(subs, h.name);
            if at < subs.len() {
                if k != at {
                    assert(c == subs[k]);
                    lemma_subs_in_order(subs, subs.len(), k);
                }
            } else {
                let slot = crate::text::slot_of(crate::app::app_names(subs), h.name) as int;
                crate::text::lemma_slot_of(crate::app::app_names(subs), h.name);
                if k < slot {
                    assert(c == subs[k]);
                    lemma_subs_in_order(subs, subs.len(), k);
                } else if k > slot {
                    assert(c == subs[k - 1]);
                    lemma_subs_in_order(subs, subs.len(), k - 1);
                }
            }
        } else {
            lemma_subs_in_order(subs, subs.len(), k);
        }
    }
    assert(with_bin(c, bin).positionals == c.positionals);
    assert(with_bin(c, bin).subcommands == c.subcommands);
}

/// `Path::file_name`: the last component of the path `path`, where it has
/// one that is a name and valid Unicode. Which part of a path that is
/// depends on the platform, so nothing is claimed of the result.
#[verifier::external_body]
fn program_name(path: &str) -> (r: Option<String>) {
    match std::path::Path::new(path).file_name() {
        Some(f) => match f.to_str() {
            Some(s) => Some(s.to_owned()),
            None => None,
        },
        None => None,
    }
}

impl<'a, 'v, 'ab, 'u, 'h, 'ar> App<'a, 'v, 'ab, 'u, 'h, 'ar> {
    /// The name the subcommand called `sub` goes by under this command.
    fn qualified(&self, sub: &str) -> (r: String)
        ensures
            r@ == crate::parser::qualified(self@.bin_name, sub@),
    {
        match &self.bin_name {
            Some(b) => {
                let mut r = b.clone();
                r.append(" ");
                r.append(sub);
                r
            },
            None => String::from_str(sub),
        }
    }

    /// The state a parse of this command starts in.
    fn initial(&self) -> (st: Parse<'ar>)
        ensures
            st@ == initial(self@),
    {
        let st = Parse {
            matches: Vec::new(),
            required: names_copy(&self.required),
            matched_reqs: Vec::new(),
            blacklist: names_copy(&self.blacklist),
            pos_only: false,
            pos_counter: 1,
            needs_val_of: None,
        };
        proof {
            assert(st@.matches =~= Seq::<EntryView>::empty());
            assert(st@.matched_reqs =~= Seq::<Text>::empty());
        }
        st
    }

    /// Walks the arguments `args` from the place `from` on: the state the
    /// walk ends in, with the subcommand that was named and the place of
    /// its first argument where one was, or why the parse stopped.
    fn walk(&self, args: &Vec<String>, from: usize) -> (r: Result<
        (Parse<'ar>, Option<usize>, usize),
        Halt,
    >)
        requires
            from <= args.len(),
        ensures
            match r {
                Err(h) => run(self@, initial(self@), owned_texts(args@), from as nat) == Stop::Halt(
                    h@,
                ),
                Ok((st, None, next)) => run(self@, initial(self@), owned_texts(args@), from as nat)
                    == Stop::End(st@),
                Ok((st, Some(k), next)) => from < next <= args.len() && k < self@.subcommands.len()
                    && run(self@, initial(self@), owned_texts(args@), from as nat) == (Stop::Sub {
                    state: st@,
                    sub: k as int,
                    next: next as nat,
                }),
            },
    {
        let ghost tokens = owned_texts(args@);
        let ghost p = self@;
        let mut st = self.initial();
        let ghost whole = run(p, initial(p), tokens, from as nat);
        let mut sub: Option<usize> = None;
        let mut i: usize = from;
        while i < args.len() && sub.is_none()
            invariant
                from <= i <= args.len(),
                self@ == p,
                tokens == owned_texts(args@),
                whole == run(p, initial(p), tokens, from as nat),
                match sub {
                    None => whole == run(p, st@, tokens, i as nat),
                    Some(k) => from < i && k < p.subcommands.len() && whole == (Stop::Sub {
                        state: st@,
                        sub: k as int,
                        next: i as nat,
                    }),
                },
            decreases
                    args.len() - i + if sub.is_none() {
                        1int
                    } else {
                        0int
                    },
        {
            let ghost here = st@;
            let tok = args[i].as_str();
            assert(tok@ == tokens[i as int]);
            let w = self.step(st, tok);
            match w {
                Walk::Next(s) => {
                    st = s;
                },
                Walk::Sub(s, k) => {
                    proof {
                        crate::parser::lemma_step_sub(p, here, tokens[i as int]);
                    }
                    st = s;
                    sub = Some(k);
                },
                Walk::Halt(h) => {
                    return Err(h);
                },
            }
            i = i + 1;
        }
        Ok((st, sub, i))
    }

    /// Parses the arguments `args` from the place `from` on against the
    /// command, which is called by the name `bin`.
    ///
    /// The result is the matches, or the reason the parse stopped: the
    /// help or version message was asked for, or the arguments are not
    /// valid. The positionals of the command have to be in order, which
    /// [`App::verify_positionals`] tells.
    pub fn get_matches_from(self, bin: Option<String>, args: &Vec<String>, from: usize) -> (r:
        Result<ArgMatches<'ar, 'ar>, Halt>)
        requires
            self@.preflight() is Ok,
            from <= args.len(),
        ensures
            outcome(r) == parse(with_bin(self@, opt_owned(bin)), owned_texts(args@), from as nat),
        decreases args.len() - from,
    {
        let ghost tokens = owned_texts(args@);
        let mut given = self;
        given.bin_name = bin;
        let ghost called = given@;
        assert(called == with_bin(self@, opt_owned(bin)));
        assert(called.preflight() is Ok) by {
            assert(called.positionals == self@.positionals);
            assert(called.subcommands == self@.subcommands);
        }
        let mut app = given.propagate().create_help_and_version();
        let ghost p = app@;
        assert(p == called.prepared());
        let (st, sub, next) = match app.walk(args, from) {
            Err(h) => {
                return Err(h);
            },
            Ok(end) => end,
        };
        match app.verdict(&st) {
            Some(reason) => {
                return Err(
                    Halt::Failure { reason: reason, usage: app.create_usage(&st.matched_reqs) },
                );
            },
            None => {},
        }
        let usage = app.create_usage(&st.matched_reqs);
        match sub {
            Some(k) => {
                let name = app.subcommands[k].name;
                assert(p.subcommands[k as int] == app.subcommands@[k as int]@);
                let qualified = app.qualified(name);
                proof {
                    lemma_prepared_sub(called, k as int, Some(qualified@));
                }
                let child = app.subcommands.remove(k);
                match child.get_matches_from(Some(qualified), args, next) {
                    Err(h) => Err(h),
                    Ok(m) => Ok(
                        ArgMatches {
                            args: st.matches,
                            subcommand: Some(Box::new(SubCommand { name: name, matches: m })),
                            usage: Some(usage),
                        },
                    ),
                }
            },
            None => Ok(ArgMatches { args: st.matches, subcommand: None, usage: Some(usage) }),
        }
    }

    /// Parses the argument vector `argv` of the program against the
    /// command.
    ///
    /// The first argument is the path the program was called by; its last
    /// component becomes the name the command goes by, where the platform
    /// finds one. The arguments after it are parsed as
    /// [`App::get_matches_from`] says.
    pub fn get_matches(self, argv: Vec<String>) -> (r: Result<ArgMatches<'ar, 'ar>, Halt>)
        requires
            self@.preflight() is Ok,
        ensures
            argv.len() == 0 ==> outcome(r) == parse(
                with_bin(self@, None),
                owned_texts(argv@),
                0,
            ),
            argv.len() > 0 ==> exists|bin: Option<Text>|
                outcome(r) == parse(with_bin(self@, bin), owned_texts(argv@), 1),
    {
        if argv.len() == 0 {
            self.get_matches_from(None, &argv, 0)
        } else {
            let bin = program_name(argv[0].as_str());
            let r = self.get_matches_from(bin, &argv, 1);
            assert(outcome(r) == parse(with_bin(self@, opt_owned(bin)), owned_texts(argv@), 1));
            r
        }
    }
}

} // verus!
