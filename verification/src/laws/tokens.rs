//! What holds of single tokens and of runs of tokens.

use vstd::prelude::*;
use crate::text::Text;
use crate::text::without_dashes;
use crate::text::lemma_leading_dashes;
use crate::text::lemma_find_from_is;
use crate::errors::HaltView;
use crate::args::builders::Decl;
use crate::args::builders::by_short;
use crate::args::builders::by_index;
use crate::app::AppView;
use crate::app::sub_by_name;
use crate::parser::ParseState;
use crate::parser::Step;
use crate::parser::Stop;
use crate::parser::initial;
use crate::parser::step;
use crate::parser::run;
use crate::parser::parse;
use crate::parser::conclude;
use crate::parser::long_name;
use crate::parser::long_value;
use crate::parser::bare_step;
use crate::parser::single;
use crate::parser::cluster;
use crate::parser::cluster_char;
use crate::parser::switch;
use crate::parser::positional;
use crate::parser::awaits_value;
use crate::parser::double_dashed;
use crate::parser::qualified;
use crate::help::help_text;
use crate::usage::usage_text;
use crate::usage::bin_or_name;
use crate::laws::results::walk_of;
use crate::laws::results::lemma_parse_ok;
use crate::laws::walks::end_state;

verus! {

/// The state before the token at the place `k`, where every token from the
/// place `from` up to it was taken.
pub open spec fn reach(p: AppView, st: ParseState, tokens: Seq<Text>, from: nat, k: nat) -> Option<
    ParseState,
>
    decreases k - from,
{
    if from >= k || from >= tokens.len() {
        Some(st)
    } else {
        match step(p, st, tokens[from as int]) {
            Step::Next(st1) => reach(p, st1, tokens, from + 1, k),
            _ => None,
        }
    }
}

/// A walk that reaches a state goes on from it.
pub proof fn lemma_run_from_reach(p: AppView, st: ParseState, tokens: Seq<Text>, from: nat, k: nat)
    requires
        from <= k <= tokens.len(),
        reach(p, st, tokens, from, k) is Some,
    ensures
        run(p, st, tokens, from) == run(p, reach(p, st, tokens, from, k)->0, tokens, k),
    decreases k - from,
{
    if from < k {
        match step(p, st, tokens[from as int]) {
            Step::Next(st1) => {
                lemma_run_from_reach(p, st1, tokens, from + 1, k);
            },
            _ => {},
        }
    }
}

/// `--help` written out.
pub proof fn lemma_help_token()
    ensures
        double_dashed("--help"@),
        "--help"@.len() == 6,
        long_name("--help"@) == "help"@,
        long_value("--help"@) is None,
{
    reveal_strlit("--help");
    reveal_strlit("help");
    let tok = "--help"@;
    lemma_leading_dashes(tok, 2);
    let body = without_dashes(tok);
    assert(body =~= "help"@);
    lemma_find_from_is(body, '=', 0, 4);
    assert(body.take(4) =~= body);
}

/// Help comes first: where `--help` asks for the help message, the token
/// stops the parse with that message in every state in which it is read
/// as an argument, whatever is still required.
pub proof fn lemma_help_stops(p: AppView, st: ParseState)
    requires
        p.needs_long_help,
        !awaits_value(p, st),
        !st.pos_only,
    ensures
        step(p, st, "--help"@) == Step::Halt(HaltView::Help(help_text(p, st.matched_reqs))),
        HaltView::Help(help_text(p, st.matched_reqs)).exit_code() == 0,
{
    reveal(step);
    lemma_help_token();
}

/// Help comes first: a parse that reaches `--help` at any place, in a
/// state in which the token is read as an argument, ends with the help
/// message and the exit code 0.
pub proof fn lemma_help_short_circuits(app: AppView, tokens: Seq<Text>, from: nat, k: nat)
    requires
        from <= k < tokens.len(),
        tokens[k as int] == "--help"@,
        app.prepared().needs_long_help,
        reach(app.prepared(), initial(app.prepared()), tokens, from, k) is Some,
        !awaits_value(
            app.prepared(),
            reach(app.prepared(), initial(app.prepared()), tokens, from, k)->0,
        ),
        !reach(app.prepared(), initial(app.prepared()), tokens, from, k)->0.pos_only,
    ensures
        parse(app, tokens, from) is Err,
        parse(app, tokens, from)->Err_0 == HaltView::Help(
            help_text(
                app.prepared(),
                reach(app.prepared(), initial(app.prepared()), tokens, from, k)->0.matched_reqs,
            ),
        ),
        parse(app, tokens, from)->Err_0.exit_code() == 0,
{
    let p = app.prepared();
    let st = reach(p, initial(p), tokens, from, k)->0;
    lemma_run_from_reach(p, initial(p), tokens, from, k);
    lemma_help_stops(p, st);
    assert(run(p, st, tokens, k) == Stop::Halt(HaltView::Help(help_text(p, st.matched_reqs))));
}

/// After `--`: the end-of-options token, read as an argument, changes
/// nothing but that from then on no token is a flag or an option.
pub proof fn lemma_end_of_options(p: AppView, st: ParseState)
    requires
        !awaits_value(p, st),
        !st.pos_only,
    ensures
        step(p, st, "--"@) == Step::Next(ParseState { pos_only: true, ..st }),
{
    reveal(step);
    reveal_strlit("--");
}

/// After `--` every token is a subcommand or a positional value, whatever
/// it starts with, and it stays so.
pub proof fn lemma_after_end_of_options(p: AppView, st: ParseState, tok: Text)
    requires
        st.pos_only,
        st.needs_val_of is None,
    ensures
        step(p, st, tok) == bare_step(p, st, tok),
        step(p, st, tok) is Next ==> step(p, st, tok)->Next_0.pos_only && step(
            p,
            st,
            tok,
        )->Next_0.needs_val_of is None,
        sub_by_name(p.subcommands, tok) == p.subcommands.len() && step(p, st, tok) is Next
            ==> by_index(p.positionals, st.pos_counter as int) < p.positionals.len() && step(
            p,
            st,
            tok,
        ) == positional(
            p,
            st,
            p.positionals[by_index(p.positionals, st.pos_counter as int)],
            tok,
        ),
{
    reveal(step);
}

/// The walk in which every token is a subcommand or a positional value.
pub open spec fn bare_run(p: AppView, st: ParseState, tokens: Seq<Text>, i: nat) -> Stop
    decreases tokens.len() - i,
{
    if i >= tokens.len() {
        Stop::End(st)
    } else {
        match bare_step(p, st, tokens[i as int]) {
            Step::Next(st1) => bare_run(p, st1, tokens, i + 1),
            Step::Sub(st1, s) => Stop::Sub { state: st1, sub: s, next: i + 1 },
            Step::Halt(h) => Stop::Halt(h),
        }
    }
}

/// After `--` the walk is the one in which every token is a subcommand or
/// a positional value, to its end.
pub proof fn lemma_positional_only(p: AppView, st: ParseState, tokens: Seq<Text>, i: nat)
    requires
        st.pos_only,
        st.needs_val_of is None,
    ensures
        run(p, st, tokens, i) == bare_run(p, st, tokens, i),
    decreases tokens.len() - i,
{
    if i < tokens.len() {
        lemma_after_end_of_options(p, st, tokens[i as int]);
        match step(p, st, tokens[i as int]) {
            Step::Next(st1) => {
                lemma_positional_only(p, st1, tokens, i + 1);
            },
            _ => {},
        }
    }
}

/// A short form written alone.
pub open spec fn short_token(c: char) -> Text {
    "-"@.push(c)
}

/// Short forms written as one cluster.
pub open spec fn cluster_token(chars: Text) -> Text {
    "-"@ + chars
}

/// Short forms written one by one.
pub open spec fn short_tokens(chars: Text) -> Seq<Text> {
    Seq::new(chars.len(), |i: int| short_token(chars[i]))
}

/// What the tokens `toks` from the place `i` on lead to, taken one after
/// the other as long as the parse goes on.
pub open spec fn steps(p: AppView, st: ParseState, toks: Seq<Text>, i: nat) -> Step
    decreases toks.len() - i,
{
    if i >= toks.len() {
        Step::Next(st)
    } else {
        match step(p, st, toks[i as int]) {
            Step::Next(st1) => steps(p, st1, toks, i + 1),
            other => other,
        }
    }
}

/// A flag that is taken leaves the parse reading arguments.
pub proof fn lemma_switch_leaves(p: AppView, st: ParseState, d: Decl, shown: Text)
    requires
        switch(p, st, d, shown) is Next,
    ensures
        switch(p, st, d, shown)->Next_0.needs_val_of is None,
        switch(p, st, d, shown)->Next_0.pos_only == st.pos_only,
{
    let st1 = ParseState {
        matches: crate::parser::flag_seen(st.matches, d),
        needs_val_of: None,
        ..st
    };
    crate::laws::tracking::lemma_noted_blacklist(p, st1, d, d.name);
}

/// A short form that is not a dash, written alone, is read as that short form.
pub proof fn lemma_short_token(p: AppView, st: ParseState, c: char)
    requires
        st.needs_val_of is None,
        !st.pos_only,
        c != '-',
    ensures
        step(p, st, short_token(c)) == single(p, st, c),
{
    reveal(step);
    reveal_strlit("-");
    let tok = short_token(c);
    lemma_leading_dashes(tok, 1);
    assert(without_dashes(tok) =~= seq![c]);
}

/// A cluster of at least two characters that does not start with a dash
/// is read as a cluster.
pub proof fn lemma_cluster_token(p: AppView, st: ParseState, chars: Text)
    requires
        st.needs_val_of is None,
        !st.pos_only,
        chars.len() >= 2,
        chars[0] != '-',
    ensures
        step(p, st, cluster_token(chars)) == cluster(p, st, chars, 0),
{
    reveal(step);
    reveal_strlit("-");
    let tok = cluster_token(chars);
    lemma_leading_dashes(tok, 1);
    assert(without_dashes(tok) =~= chars);
    assert(ParseState { needs_val_of: None, ..st } == st);
}

/// The characters of a cluster of flags from the place `i` on lead where
/// the flags lead that are written one by one.
pub proof fn lemma_cluster_steps(p: AppView, st: ParseState, chars: Text, i: nat)
    requires
        st.needs_val_of is None,
        !st.pos_only,
        forall|j: int| 0 <= j < chars.len() ==> chars[j] != '-',
        forall|j: int| 0 <= j < chars.len() ==> by_short(p.flags, #[trigger] chars[j]) < p.flags.len(),
    ensures
        cluster(p, st, chars, i) == steps(p, st, short_tokens(chars), i),
    decreases chars.len() - i,
{
    if i < chars.len() {
        let c = chars[i as int];
        lemma_short_token(p, st, c);
        assert(short_tokens(chars)[i as int] == short_token(c));
        assert(by_short(p.flags, c) < p.flags.len());
        assert(cluster_char(p, st, chars, c) == single(p, st, c));
        match cluster_char(p, st, chars, c) {
            Step::Next(st1) => {
                lemma_switch_leaves(p, st, p.flags[by_short(p.flags, c)], "-"@.push(c));
                lemma_cluster_steps(p, st1, chars, i + 1);
            },
            _ => {},
        }
    }
}

/// Clustering: flags written as one cluster lead where the flags lead
/// that are written one by one.
pub proof fn lemma_cluster_is_sequence(p: AppView, st: ParseState, chars: Text)
    requires
        st.needs_val_of is None,
        !st.pos_only,
        chars.len() >= 2,
        forall|j: int| 0 <= j < chars.len() ==> chars[j] != '-',
        forall|j: int| 0 <= j < chars.len() ==> by_short(p.flags, #[trigger] chars[j]) < p.flags.len(),
    ensures
        step(p, st, cluster_token(chars)) == steps(p, st, short_tokens(chars), 0),
{
    lemma_cluster_token(p, st, chars);
    lemma_cluster_steps(p, st, chars, 0);
}

/// A cluster in which, from the place `i` on, a character is not the short
/// form of a flag stops the parse.
pub proof fn lemma_cluster_halts(p: AppView, st: ParseState, chars: Text, i: nat, j: nat)
    requires
        i <= j < chars.len(),
        by_short(p.flags, chars[j as int]) >= p.flags.len(),
    ensures
        cluster(p, st, chars, i) is Halt,
    decreases chars.len() - i,
{
    let c = chars[i as int];
    match cluster_char(p, st, chars, c) {
        Step::Next(st1) => {
            lemma_cluster_halts(p, st1, chars, i + 1, j);
        },
        _ => {},
    }
}

/// Clustering: a cluster in which a character is not the short form of a
/// flag, as when it is the short form of an option, stops the parse.
pub proof fn lemma_cluster_of_flags_only(p: AppView, st: ParseState, chars: Text, j: nat)
    requires
        st.needs_val_of is None,
        !st.pos_only,
        chars.len() >= 2,
        chars[0] != '-',
        j < chars.len(),
        by_short(p.flags, chars[j as int]) >= p.flags.len(),
    ensures
        step(p, st, cluster_token(chars)) is Halt,
{
    lemma_cluster_token(p, st, chars);
    lemma_cluster_halts(p, st, chars, 0, j);
}

/// The usage text of a command that has no usage line of its own starts
/// with the heading and the name the command goes by.
pub proof fn lemma_usage_starts(p: AppView, cited: Seq<Text>)
    requires
        p.usage_str is None,
    ensures
        ("USAGE:\n"@ + "    "@ + bin_or_name(p)).is_prefix_of(usage_text(p, cited)),
{
    let head = "USAGE:\n"@ + "    "@ + bin_or_name(p);
    let whole = usage_text(p, cited);
    assert(whole.subrange(0, head.len() as int) =~= head);
}

/// Subcommands go by a qualified name: the usage text in the matches of a
/// subcommand starts with the name of the parent command, a space, and
/// the name of the subcommand.
pub proof fn lemma_subcommand_usage(app: AppView, tokens: Seq<Text>, from: nat)
    requires
        parse(app, tokens, from) is Ok,
        parse(app, tokens, from)->Ok_0.subcommand is Some,
    ensures
        walk_of(app, tokens, from) is Sub,
        0 <= walk_of(app, tokens, from)->sub < app.prepared().subcommands.len(),
        parse(app, tokens, from)->Ok_0.subcommand_name() == Some(
            app.prepared().subcommands[walk_of(app, tokens, from)->sub].name,
        ),
        parse(app, tokens, from)->Ok_0.subcommand_found().usage is Some,
        app.prepared().subcommands[walk_of(app, tokens, from)->sub].usage_str is None ==> (
        "USAGE:\n"@ + "    "@ + qualified(
            app.prepared().bin_name,
            parse(app, tokens, from)->Ok_0.subcommand_name()->0,
        )).is_prefix_of(parse(app, tokens, from)->Ok_0.subcommand_found().usage->0),
{
    let p = app.prepared();
    let stop = walk_of(app, tokens, from);
    assert(parse(app, tokens, from) == conclude(p, stop, tokens, from));
    let s = stop->sub;
    let next = stop->next;
    let child = AppView {
        bin_name: Some(qualified(p.bin_name, p.subcommands[s].name)),
        ..p.subcommands[s]
    };
    lemma_parse_ok(child, tokens, next);
    let c = child.prepared();
    assert(c.bin_name == child.bin_name);
    assert(c.usage_str == child.usage_str);
    if child.usage_str is None {
        lemma_usage_starts(c, end_state(walk_of(child, tokens, next)).matched_reqs);
    }
}

} // verus!
