//! The rules of the parser, as a state machine.
//!
//! A parse walks the tokens of an argument vector from left to right. It
//! carries a state, and each token either yields the next state, names a
//! subcommand to go on with, or stops the parse. Everything here is
//! mathematics; the executable parser is proved to follow it.

use vstd::prelude::*;
use crate::text::Text;
use crate::text::without_dashes;
use crate::text::find_from;
use crate::names::with;
use crate::names::with_all;
use crate::names::without;
use crate::names::without_all;
use crate::errors::ReasonView;
use crate::errors::HaltView;
use crate::args::builders::Decl;
use crate::args::builders::by_name;
use crate::args::builders::by_short;
use crate::args::builders::by_long;
use crate::args::builders::by_index;
use crate::args::builders::flag_form;
use crate::args::builders::opt_form;
use crate::args::builders::pos_form;
use crate::args::group::GroupView;
use crate::args::matches::EntryView;
use crate::args::matches::MatchesView;
use crate::args::matches::entry_index;
use crate::args::matches::has_entry;
use crate::args::matches::bumped;
use crate::app::AppView;
use crate::app::group_by_name;
use crate::app::sub_by_name;
use crate::usage::bin_or_name;
use crate::usage::usage_text;
use crate::help::help_text;
use crate::help::version_text;

verus! {

/// What a parse carries from token to token.
pub struct ParseState {
    /// The arguments matched so far.
    pub matches: Seq<EntryView>,
    /// The names that must still be supplied.
    pub required: Seq<Text>,
    /// The names that matched arguments have asked for.
    pub matched_reqs: Seq<Text>,
    /// The names that may not be supplied any more.
    pub blacklist: Seq<Text>,
    /// Whether `--` was seen, after which no token is a flag or an option.
    pub pos_only: bool,
    /// The position the next positional value goes to.
    pub pos_counter: nat,
    /// The option that waits for its value in the next token.
    pub needs_val_of: Option<Text>,
}

/// What one token leads to.
pub enum Step {
    /// The parse goes on in this state.
    Next(ParseState),
    /// The token names the subcommand at this place; the state is unchanged.
    Sub(ParseState, int),
    /// The parse stops.
    Halt(HaltView),
}

/// How the walk over the tokens of one command ends.
pub enum Stop {
    /// The tokens ran out.
    End(ParseState),
    /// A token named the subcommand at this place; the tokens from `next`
    /// on are its own.
    Sub { state: ParseState, sub: int, next: nat },
    /// The parse stopped.
    Halt(HaltView),
}

/// The state a parse of `app` starts in.
pub open spec fn initial(app: AppView) -> ParseState {
    ParseState {
        matches: Seq::empty(),
        required: app.required,
        matched_reqs: Seq::empty(),
        blacklist: app.blacklist,
        pos_only: false,
        pos_counter: 1,
        needs_val_of: None,
    }
}

/// `values` with `v` at its end; an entry without values stays without.
pub open spec fn pushed_value(values: Option<Seq<Text>>, v: Text) -> Option<Seq<Text>> {
    match values {
        Some(vs) => Some(vs.push(v)),
        None => None,
    }
}

/// The matches after the flag `d` was seen: a first occurrence makes an
/// entry, a further one counts where the flag may repeat.
pub open spec fn flag_seen(matches: Seq<EntryView>, d: Decl) -> Seq<EntryView> {
    let at = entry_index(matches, d.name);
    if at < matches.len() {
        matches.update(
            at,
            EntryView {
                occurrences: if d.multiple {
                    bumped(matches[at].occurrences)
                } else {
                    1
                },
                ..matches[at]
            },
        )
    } else {
        matches.push(EntryView { name: d.name, occurrences: 1, values: None })
    }
}

/// The matches after the option `d` was seen, with the value `val` where
/// the token held one. Without a value the entry only notes that the
/// option is there; the occurrence is counted when the value comes.
pub open spec fn opt_seen(matches: Seq<EntryView>, d: Decl, val: Option<Text>) -> Seq<EntryView> {
    let at = entry_index(matches, d.name);
    if at < matches.len() {
        match val {
            Some(v) => matches.update(
                at,
                EntryView {
                    occurrences: bumped(matches[at].occurrences),
                    values: pushed_value(matches[at].values, v),
                    ..matches[at]
                },
            ),
            None => matches,
        }
    } else {
        match val {
            Some(v) => matches.push(
                EntryView { name: d.name, occurrences: 1, values: Some(seq![v]) },
            ),
            None => matches.push(
                EntryView { name: d.name, occurrences: 0, values: Some(Seq::empty()) },
            ),
        }
    }
}

/// The matches after the option `d`, seen in the token before, got the
/// value `v`.
pub open spec fn value_given(matches: Seq<EntryView>, d: Decl, v: Text) -> Seq<EntryView> {
    let at = entry_index(matches, d.name);
    if at < matches.len() {
        matches.update(
            at,
            EntryView {
                occurrences: if d.multiple {
                    bumped(matches[at].occurrences)
                } else {
                    1
                },
                values: pushed_value(matches[at].values, v),
                ..matches[at]
            },
        )
    } else {
        matches
    }
}

/// The matches after the positional `d` got the value `v`: a positional
/// that collects values adds it to those it has.
pub open spec fn pos_seen(matches: Seq<EntryView>, d: Decl, v: Text) -> Seq<EntryView> {
    let at = entry_index(matches, d.name);
    if at < matches.len() {
        if d.multiple {
            matches.update(
                at,
                EntryView {
                    occurrences: bumped(matches[at].occurrences),
                    values: pushed_value(matches[at].values, v),
                    ..matches[at]
                },
            )
        } else {
            matches.update(at, EntryView { name: d.name, occurrences: 1, values: Some(seq![v]) })
        }
    } else {
        matches.push(EntryView { name: d.name, occurrences: 1, values: Some(seq![v]) })
    }
}

/// `required` with those of `reqs` that are not matched.
pub open spec fn add_unmatched(required: Seq<Text>, reqs: Seq<Text>, matches: Seq<EntryView>) -> Seq<
    Text,
>
    decreases reqs.len(),
{
    if reqs.len() == 0 {
        required
    } else if has_entry(matches, reqs.last()) {
        add_unmatched(required, reqs.drop_last(), matches)
    } else {
        with(add_unmatched(required, reqs.drop_last(), matches), reqs.last())
    }
}

/// The required names after a member `name` of the group `g` matched: the
/// group is satisfied, what it requires is required, and the other
/// members are not required any more.
pub open spec fn group_required(g: GroupView, name: Text, required: Seq<Text>) -> Seq<Text> {
    if g.args.contains(name) {
        without_all(with_all(without(required, g.name), g.requires), without(g.args, name))
    } else {
        required
    }
}

/// The excluded names after a member `name` of the group `g` matched: what
/// the group conflicts with and its other members are excluded.
pub open spec fn group_blacklist(g: GroupView, name: Text, blacklist: Seq<Text>) -> Seq<Text> {
    if g.args.contains(name) {
        with_all(with_all(blacklist, g.conflicts), without(g.args, name))
    } else {
        blacklist
    }
}

/// The required names after the first `n` groups took note of the match of `name`.
pub open spec fn groups_required(groups: Seq<GroupView>, n: nat, name: Text, required: Seq<Text>) -> Seq<
    Text,
>
    decreases n,
{
    if n == 0 {
        required
    } else {
        group_required(groups[n - 1], name, groups_required(groups, (n - 1) as nat, name, required))
    }
}

/// The excluded names after the first `n` groups took note of the match of `name`.
pub open spec fn groups_blacklist(
    groups: Seq<GroupView>,
    n: nat,
    name: Text,
    blacklist: Seq<Text>,
) -> Seq<Text>
    decreases n,
{
    if n == 0 {
        blacklist
    } else {
        group_blacklist(
            groups[n - 1],
            name,
            groups_blacklist(groups, (n - 1) as nat, name, blacklist),
        )
    }
}

/// The state after the rules of the matched argument `d` were noted. The
/// matches of `st` hold `d` already.
///
/// The argument is not required any more. What it excludes is excluded and
/// not required any more. What it requires is asked for, and required
/// unless it is matched. Then the groups take note.
pub open spec fn noted(app: AppView, st: ParseState, d: Decl) -> ParseState {
    let required = add_unmatched(
        without_all(without(st.required, d.name), d.blacklist),
        d.requires,
        st.matches,
    );
    let blacklist = with_all(st.blacklist, d.blacklist);
    ParseState {
        required: groups_required(app.groups, app.groups.len(), d.name, required),
        blacklist: groups_blacklist(app.groups, app.groups.len(), d.name, blacklist),
        matched_reqs: with_all(st.matched_reqs, d.requires),
        ..st
    }
}

/// The parse stops with a failure for `reason`.
pub open spec fn fail(app: AppView, st: ParseState, reason: ReasonView) -> Step {
    Step::Halt(HaltView::Failure { reason: reason, usage: usage_text(app, st.matched_reqs) })
}

/// Whether `v` is refused as a value of `d`: the values of `d` are
/// restricted and `v` is not among them.
pub open spec fn invalid_value(d: Decl, v: Text) -> bool {
    d.possible_vals.len() > 0 && !d.possible_vals.contains(v)
}

/// The token `tok` as the value of the option `d` that waits for it.
pub open spec fn take_value(app: AppView, st: ParseState, d: Decl, tok: Text) -> Step {
    if invalid_value(d, tok) {
        fail(
            app,
            st,
            ReasonView::InvalidValue {
                value: tok,
                arg: flag_form(d),
                valid: d.possible_vals,
                positional: false,
            },
        )
    } else {
        Step::Next(
            ParseState { matches: value_given(st.matches, d, tok), needs_val_of: None, ..st },
        )
    }
}

/// The flag `d` was named, written as `shown`.
pub open spec fn switch(app: AppView, st: ParseState, d: Decl, shown: Text) -> Step {
    if st.blacklist.contains(d.name) {
        fail(app, st, ReasonView::Conflict { arg: shown })
    } else if has_entry(st.matches, d.name) && !d.multiple {
        fail(app, st, ReasonView::Repeated { arg: shown })
    } else {
        Step::Next(
            noted(
                app,
                ParseState { matches: flag_seen(st.matches, d), needs_val_of: None, ..st },
                d,
            ),
        )
    }
}

/// The option `d` was named, written as `shown`, with the value `val`
/// where the token held one. Without a value the option waits for the
/// next token.
pub open spec fn option(app: AppView, st: ParseState, d: Decl, shown: Text, val: Option<Text>) -> Step {
    if st.blacklist.contains(d.name) {
        fail(app, st, ReasonView::Conflict { arg: shown })
    } else if has_entry(st.matches, d.name) && !d.multiple {
        fail(app, st, ReasonView::Repeated { arg: shown })
    } else if val is Some && invalid_value(d, val->0) {
        fail(
            app,
            st,
            ReasonView::InvalidValue {
                value: val->0,
                arg: flag_form(d),
                valid: d.possible_vals,
                positional: false,
            },
        )
    } else {
        Step::Next(
            noted(
                app,
                ParseState {
                    matches: opt_seen(st.matches, d, val),
                    needs_val_of: if val is None {
                        Some(d.name)
                    } else {
                        None
                    },
                    ..st
                },
                d,
            ),
        )
    }
}

/// The name in a long token: what stands between the dashes and the first `=`.
pub open spec fn long_name(tok: Text) -> Text {
    let body = without_dashes(tok);
    body.take(find_from(body, '=', 0))
}

/// The value in a long token: what stands between the first `=` and the
/// next, or the end; none where the token has no `=`.
pub open spec fn long_value(tok: Text) -> Option<Text> {
    let body = without_dashes(tok);
    let eq = find_from(body, '=', 0);
    if eq < body.len() {
        Some(body.subrange(eq + 1, find_from(body, '=', eq + 1)))
    } else {
        None
    }
}

/// A token that starts with two dashes and is more than that.
pub open spec fn long_step(app: AppView, st: ParseState, tok: Text) -> Step {
    let name = long_name(tok);
    let val = long_value(tok);
    if val is Some && val->0.len() == 0 {
        fail(app, st, ReasonView::EmptyValue { long: name })
    } else if name == "help"@ && app.needs_long_help {
        Step::Halt(HaltView::Help(help_text(app, st.matched_reqs)))
    } else if name == "version"@ && app.needs_long_version {
        Step::Halt(HaltView::Version(version_text(app)))
    } else if by_long(app.opts, name) < app.opts.len() {
        option(app, st, app.opts[by_long(app.opts, name)], "--"@ + name, val)
    } else if by_long(app.flags, name) < app.flags.len() {
        switch(app, st, app.flags[by_long(app.flags, name)], "--"@ + name)
    } else {
        fail(app, st, ReasonView::UnknownLong { long: name })
    }
}

/// The message that the short form `c` asks for, where it is one of the
/// automatic ones.
pub open spec fn auto_short(app: AppView, st: ParseState, c: char) -> Option<HaltView> {
    if c == 'h' && app.needs_short_help {
        Some(HaltView::Help(help_text(app, st.matched_reqs)))
    } else if c == 'v' && app.needs_short_version {
        Some(HaltView::Version(version_text(app)))
    } else {
        None
    }
}

/// One character of a cluster: it has to be the short form of a flag.
pub open spec fn cluster_char(app: AppView, st: ParseState, body: Text, c: char) -> Step {
    match auto_short(app, st, c) {
        Some(h) => Step::Halt(h),
        None => if by_short(app.flags, c) < app.flags.len() {
            switch(app, st, app.flags[by_short(app.flags, c)], "-"@.push(c))
        } else {
            fail(app, st, ReasonView::UnknownShort { short: body })
        },
    }
}

/// The characters of the cluster `body` from the place `i` on.
pub open spec fn cluster(app: AppView, st: ParseState, body: Text, i: nat) -> Step
    decreases body.len() - i,
{
    if i >= body.len() {
        Step::Next(st)
    } else {
        match cluster_char(app, st, body, body[i as int]) {
            Step::Next(st1) => cluster(app, st1, body, i + 1),
            other => other,
        }
    }
}

/// A single short form: a flag, or else an option, which then waits for
/// its value.
pub open spec fn single(app: AppView, st: ParseState, c: char) -> Step {
    match auto_short(app, st, c) {
        Some(h) => Step::Halt(h),
        None => if by_short(app.flags, c) < app.flags.len() {
            switch(app, st, app.flags[by_short(app.flags, c)], "-"@.push(c))
        } else if by_short(app.opts, c) < app.opts.len() {
            option(app, st, app.opts[by_short(app.opts, c)], "-"@.push(c), None)
        } else {
            fail(app, st, ReasonView::UnknownShort { short: seq![c] })
        },
    }
}

/// A token that starts with one dash and is more than that: one short
/// form, or a cluster of flags.
pub open spec fn short_step(app: AppView, st: ParseState, tok: Text) -> Step {
    let body = without_dashes(tok);
    if body.len() > 1 {
        cluster(app, ParseState { needs_val_of: None, ..st }, body, 0)
    } else if body.len() == 1 {
        single(app, st, body[0])
    } else {
        fail(app, st, ReasonView::UnknownShort { short: body })
    }
}

/// The token `tok` as a value of the positional `d`.
pub open spec fn positional(app: AppView, st: ParseState, d: Decl, tok: Text) -> Step {
    if st.blacklist.contains(d.name) {
        fail(app, st, ReasonView::Conflict { arg: pos_form(d) })
    } else if invalid_value(d, tok) {
        fail(
            app,
            st,
            ReasonView::InvalidValue {
                value: tok,
                arg: pos_form(d),
                valid: d.possible_vals,
                positional: true,
            },
        )
    } else {
        Step::Next(
            noted(
                app,
                ParseState {
                    matches: pos_seen(st.matches, d, tok),
                    pos_counter: if d.multiple {
                        st.pos_counter
                    } else {
                        st.pos_counter + 1
                    },
                    ..st
                },
                d,
            ),
        )
    }
}

/// A token that is neither a flag nor an option: the name of a
/// subcommand, or else the value of the positional whose turn it is.
pub open spec fn bare_step(app: AppView, st: ParseState, tok: Text) -> Step {
    let s = sub_by_name(app.subcommands, tok);
    if s < app.subcommands.len() {
        if tok == "help"@ && app.needs_subcmd_help {
            Step::Halt(HaltView::Help(help_text(app, st.matched_reqs)))
        } else {
            Step::Sub(st, s)
        }
    } else if app.positionals.len() == 0 {
        fail(
            app,
            st,
            ReasonView::UnknownArgument { token: tok, bin: bin_or_name(app), no_positionals: true },
        )
    } else if by_index(app.positionals, st.pos_counter as int) < app.positionals.len() {
        positional(app, st, app.positionals[by_index(app.positionals, st.pos_counter as int)], tok)
    } else {
        fail(
            app,
            st,
            ReasonView::UnknownArgument {
                token: tok,
                bin: bin_or_name(app),
                no_positionals: false,
            },
        )
    }
}

/// Whether the option named in `needs_val_of` waits for the next token.
pub open spec fn awaits_value(app: AppView, st: ParseState) -> bool {
    st.needs_val_of is Some && by_name(app.opts, st.needs_val_of->0) < app.opts.len()
}

/// Whether `tok` starts with two dashes.
pub open spec fn double_dashed(tok: Text) -> bool {
    tok.len() >= 2 && tok[0] == '-' && tok[1] == '-'
}

/// Whether `tok` starts with a dash and is more than the dash.
pub open spec fn dashed(tok: Text) -> bool {
    tok.len() >= 2 && tok[0] == '-'
}

/// What the token `tok` leads to in the state `st`.
///
/// The rules, in order: an option that waits takes the token as its
/// value, whatever it looks like. `--` ends the flags and options. A token
/// with two dashes is a long form, one with one dash a short form or a
/// cluster, unless `--` was seen. Any other token is a subcommand or a
/// positional value.
#[verifier::opaque]
pub open spec fn step(app: AppView, st: ParseState, tok: Text) -> Step {
    if awaits_value(app, st) {
        take_value(app, st, app.opts[by_name(app.opts, st.needs_val_of->0)], tok)
    } else if !st.pos_only && double_dashed(tok) {
        if tok.len() == 2 {
            Step::Next(ParseState { pos_only: true, ..st })
        } else {
            long_step(app, st, tok)
        }
    } else if !st.pos_only && dashed(tok) {
        short_step(app, st, tok)
    } else {
        bare_step(app, st, tok)
    }
}

/// The walk over the tokens from the place `i` on.
pub open spec fn run(app: AppView, st: ParseState, tokens: Seq<Text>, i: nat) -> Stop
    decreases tokens.len() - i,
{
    if i >= tokens.len() {
        Stop::End(st)
    } else {
        match step(app, st, tokens[i as int]) {
            Step::Next(st1) => run(app, st1, tokens, i + 1),
            Step::Sub(st1, s) => Stop::Sub { state: st1, sub: s, next: i + 1 },
            Step::Halt(h) => Stop::Halt(h),
        }
    }
}

/// How the argument called `name` is shown in the message of a conflict
/// found at the end: in the form of the flag, option or positional of that
/// name, or as the quoted name where no argument has it.
pub open spec fn shown_form(app: AppView, name: Text) -> Text {
    if by_name(app.flags, name) < app.flags.len() {
        flag_form(app.flags[by_name(app.flags, name)])
    } else if by_name(app.opts, name) < app.opts.len() {
        opt_form(app.opts[by_name(app.opts, name)])
    } else if by_name(app.positionals, name) < app.positionals.len() {
        pos_form(app.positionals[by_name(app.positionals, name)])
    } else {
        "\""@ + name + "\""@
    }
}

/// For each of `names`, whether it is matched.
pub open spec fn matched_hits(matches: Seq<EntryView>, names: Seq<Text>) -> Seq<bool> {
    Seq::new(names.len(), |i: int| has_entry(matches, names[i]))
}

/// The place of the first of `names` that is matched, or `names.len()`.
pub open spec fn first_matched(matches: Seq<EntryView>, names: Seq<Text>) -> int {
    crate::search::first_true(matched_hits(matches, names))
}

/// Whether one of `names` is matched.
pub open spec fn any_matched(matches: Seq<EntryView>, names: Seq<Text>) -> bool {
    first_matched(matches, names) < names.len()
}

/// Whether `name` is in use: it is matched, or it is a group of which a
/// member is matched.
pub open spec fn in_use(app: AppView, matches: Seq<EntryView>, name: Text) -> bool {
    has_entry(matches, name) || (group_by_name(app.groups, name) < app.groups.len() && any_matched(
        matches,
        app.groups[group_by_name(app.groups, name)].args,
    ))
}

/// The argument that makes the excluded `name`, which is in use, a
/// conflict, in the form it is shown in: `name` itself where it is
/// matched, or else the first matched member of the group it names.
pub open spec fn conflict_form(app: AppView, matches: Seq<EntryView>, name: Text) -> Text {
    if has_entry(matches, name) {
        shown_form(app, name)
    } else {
        let members = app.groups[group_by_name(app.groups, name)].args;
        shown_form(app, members[first_matched(matches, members)])
    }
}

/// For each excluded name, whether it is in use.
pub open spec fn conflict_hits(app: AppView, st: ParseState) -> Seq<bool> {
    Seq::new(st.blacklist.len(), |i: int| in_use(app, st.matches, st.blacklist[i]))
}

/// The place of the first excluded name that is in use, or the length.
pub open spec fn first_conflict(app: AppView, st: ParseState) -> int {
    crate::search::first_true(conflict_hits(app, st))
}

/// For each of `names`, whether it is in use.
pub open spec fn use_hits(app: AppView, matches: Seq<EntryView>, names: Seq<Text>) -> Seq<bool> {
    Seq::new(names.len(), |i: int| in_use(app, matches, names[i]))
}

/// Whether one of `names` is in use.
pub open spec fn any_in_use(app: AppView, matches: Seq<EntryView>, names: Seq<Text>) -> bool {
    crate::search::first_true(use_hits(app, matches, names)) < names.len()
}

/// Whether `store` has an argument called `name` that excludes a name in use.
pub open spec fn lifted_in(app: AppView, matches: Seq<EntryView>, store: Seq<Decl>, name: Text) -> bool {
    by_name(store, name) < store.len() && any_in_use(
        app,
        matches,
        store[by_name(store, name)].blacklist,
    )
}

/// Whether the requirement of `name` is lifted: the argument of that name
/// excludes a name that is in use.
pub open spec fn lifted(app: AppView, matches: Seq<EntryView>, name: Text) -> bool {
    ||| lifted_in(app, matches, app.flags, name)
    ||| lifted_in(app, matches, app.opts, name)
    ||| lifted_in(app, matches, app.positionals, name)
}

/// Whether the required `name` is satisfied: it is in use, or its
/// requirement is lifted.
///
/// What an argument requires comes into force when the argument is
/// matched. So where the requirement of an argument is lifted and the
/// argument is not supplied, what it requires is not required either.
pub open spec fn satisfied(app: AppView, matches: Seq<EntryView>, name: Text) -> bool {
    in_use(app, matches, name) || lifted(app, matches, name)
}

/// For each required name, whether it is not satisfied.
pub open spec fn missing_hits(app: AppView, st: ParseState) -> Seq<bool> {
    Seq::new(st.required.len(), |i: int| !satisfied(app, st.matches, st.required[i]))
}

/// Whether a required name is not satisfied.
pub open spec fn any_missing(app: AppView, st: ParseState) -> bool {
    crate::search::first_true(missing_hits(app, st)) < st.required.len()
}

/// What is wrong with the state a walk ended in, if anything: an option
/// still waits for its value, an excluded name is in use, or a required
/// name is not satisfied. The first of these that holds is the reason.
pub open spec fn verdict(app: AppView, st: ParseState) -> Option<ReasonView> {
    if st.needs_val_of is Some {
        Some(ReasonView::MissingValue { name: st.needs_val_of->0 })
    } else if first_conflict(app, st) < st.blacklist.len() {
        Some(
            ReasonView::Conflict {
                arg: conflict_form(app, st.matches, st.blacklist[first_conflict(app, st)]),
            },
        )
    } else if any_missing(app, st) {
        Some(ReasonView::MissingRequired)
    } else {
        None
    }
}

/// The name a subcommand called `sub` goes by under a command that goes
/// by `bin`: both, with a space between.
pub open spec fn qualified(bin: Option<Text>, sub: Text) -> Text {
    match bin {
        Some(b) => b + " "@ + sub,
        None => sub,
    }
}

/// The matches of a command whose walk ended well in `st`.
pub open spec fn found(app: AppView, st: ParseState, sub: Option<(Text, Box<MatchesView>)>) -> MatchesView {
    MatchesView {
        args: st.matches,
        subcommand: sub,
        usage: Some(usage_text(app, st.matched_reqs)),
    }
}

/// The result of a parse of the prepared command `p` whose walk, begun at
/// the place `from`, ended in `stop`.
///
/// The state the walk ended in is judged. Where a token named a
/// subcommand, the tokens after it are parsed against the subcommand,
/// which goes by the qualified name.
pub open spec fn conclude(p: AppView, stop: Stop, tokens: Seq<Text>, from: nat) -> Result<
    MatchesView,
    HaltView,
>
    decreases tokens.len() - from, 0nat,
{
    match stop {
        Stop::Halt(h) => Err(h),
        Stop::End(st) => match verdict(p, st) {
            Some(reason) => Err(
                HaltView::Failure { reason: reason, usage: usage_text(p, st.matched_reqs) },
            ),
            None => Ok(found(p, st, None)),
        },
        Stop::Sub { state, sub, next } => match verdict(p, state) {
            Some(reason) => Err(
                HaltView::Failure { reason: reason, usage: usage_text(p, state.matched_reqs) },
            ),
            None => if from < next <= tokens.len() && 0 <= sub < p.subcommands.len() {
                let child = AppView {
                    bin_name: Some(qualified(p.bin_name, p.subcommands[sub].name)),
                    ..p.subcommands[sub]
                };
                match parse(child, tokens, next) {
                    Err(h) => Err(h),
                    Ok(m) => Ok(found(p, state, Some((p.subcommands[sub].name, Box::new(m))))),
                }
            } else {
                Ok(found(p, state, None))
            },
        },
    }
}

/// The result of parsing the tokens from the place `from` on against the
/// command `app`: the matches, or why the parse stopped.
///
/// The command is prepared, the tokens are walked from the initial state,
/// and the end of the walk is concluded.
pub open spec fn parse(app: AppView, tokens: Seq<Text>, from: nat) -> Result<MatchesView, HaltView>
    decreases tokens.len() - from, 1nat,
{
    conclude(app.prepared(), run(app.prepared(), initial(app.prepared()), tokens, from), tokens, from)
}

/// A walk that ends at a subcommand has taken at least the token that
/// names it, and the subcommand is one of the command.
pub proof fn lemma_run_sub(app: AppView, st: ParseState, tokens: Seq<Text>, i: nat)
    requires
        run(app, st, tokens, i) is Sub,
    ensures
        i < run(app, st, tokens, i)->next <= tokens.len(),
        0 <= run(app, st, tokens, i)->sub < app.subcommands.len(),
    decreases tokens.len() - i,
{
    if i < tokens.len() {
        match step(app, st, tokens[i as int]) {
            Step::Next(st1) => {
                lemma_run_sub(app, st1, tokens, i + 1);
            },
            Step::Sub(st1, s) => {
                lemma_step_sub(app, st, tokens[i as int]);
            },
            Step::Halt(h) => {},
        }
    }
}

/// A step that names a subcommand names one of the command and leaves the
/// state as it is.
pub proof fn lemma_step_sub(app: AppView, st: ParseState, tok: Text)
    requires
        step(app, st, tok) is Sub,
    ensures
        step(app, st, tok)->Sub_0 == st,
        0 <= step(app, st, tok)->Sub_1 < app.subcommands.len(),
        step(app, st, tok) == bare_step(app, st, tok),
        step(app, st, tok)->Sub_1 == sub_by_name(app.subcommands, tok),
{
    reveal(step);
    crate::search::lemma_first_true(
        Seq::new(app.subcommands.len(), |i: int| app.subcommands[i].name == tok),
    );
    if awaits_value(app, st) {
    } else if !st.pos_only && double_dashed(tok) {
        if tok.len() != 2 {
            let name = long_name(tok);
            let val = long_value(tok);
            assert(!(long_step(app, st, tok) is Sub));
        }
    } else if !st.pos_only && dashed(tok) {
        let body = without_dashes(tok);
        if body.len() > 1 {
            lemma_cluster_not_sub(app, ParseState { needs_val_of: None, ..st }, body, 0);
        }
    }
}

/// A cluster never names a subcommand.
pub proof fn lemma_cluster_not_sub(app: AppView, st: ParseState, body: Text, i: nat)
    ensures
        !(cluster(app, st, body, i) is Sub),
    decreases body.len() - i,
{
    if i < body.len() {
        match cluster_char(app, st, body, body[i as int]) {
            Step::Next(st1) => {
                lemma_cluster_not_sub(app, st1, body, i + 1);
            },
            _ => {},
        }
    }
}

} // verus!
