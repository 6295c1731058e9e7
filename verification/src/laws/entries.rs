//! What holds of the entries of the matches.

use vstd::prelude::*;
use crate::text::Text;
use crate::text::without_dashes;
use crate::names::distinct;
use crate::search::lemma_first_true;
use crate::args::builders::Decl;
use crate::args::builders::by_name;
use crate::args::builders::by_short;
use crate::args::builders::by_long;
use crate::args::builders::by_index;
use crate::args::matches::EntryView;
use crate::args::matches::entry_index;
use crate::args::matches::name_hits;
use crate::app::AppView;
use crate::app::all_names;
use crate::parser::ParseState;
use crate::parser::Step;
use crate::parser::initial;
use crate::parser::step;
use crate::parser::run;
use crate::parser::parse;
use crate::parser::switch;
use crate::parser::option;
use crate::parser::positional;
use crate::parser::cluster;
use crate::parser::cluster_char;
use crate::parser::auto_short;
use crate::parser::awaits_value;
use crate::parser::double_dashed;
use crate::parser::dashed;
use crate::parser::long_name;
use crate::parser::long_value;
use crate::parser::flag_seen;
use crate::parser::opt_seen;
use crate::parser::pos_seen;
use crate::parser::value_given;
use crate::parser::lemma_step_sub;
use crate::laws::schema::lemma_hit;
use crate::laws::tracking::lemma_noted_blacklist;
use crate::laws::walks::end_state;
use crate::laws::results::walk_of;
use crate::laws::results::lemma_parse_ok;
use crate::laws::results::lemma_nothing_wrong;

verus! {

/// No two entries have one name.
pub open spec fn entries_apart(matches: Seq<EntryView>) -> bool {
    forall|i: int, j: int|
        0 <= i < j < matches.len() ==> (#[trigger] matches[i]).name != (#[trigger] matches[j]).name
}

/// Every entry counts at least one occurrence, but for that of the option
/// `waiting` that still waits for its value.
pub open spec fn entries_counted(matches: Seq<EntryView>, waiting: Option<Text>) -> bool {
    forall|i: int|
        0 <= i < matches.len() ==> (#[trigger] matches[i]).occurrences >= 1 || waiting == Some(
            matches[i].name,
        )
}

/// The entries of flags have no values, and all others have.
pub open spec fn entries_valued(p: AppView, matches: Seq<EntryView>) -> bool {
    forall|i: int|
        0 <= i < matches.len() ==> ((#[trigger] matches[i]).values is None <==> by_name(
            p.flags,
            matches[i].name,
        ) < p.flags.len())
}

/// What holds of the entries in every state of a parse of `p`.
pub open spec fn entries_kept(p: AppView, st: ParseState) -> bool {
    &&& entries_apart(st.matches)
    &&& entries_counted(st.matches, st.needs_val_of)
    &&& entries_valued(p, st.matches)
    &&& st.needs_val_of is Some ==> awaits_value(p, st)
}

/// Where no two arguments have one name, the name of a flag is not that of
/// an option or a positional.
pub proof fn lemma_kinds_apart(p: AppView, k: int)
    requires
        distinct(all_names(p)),
    ensures
        0 <= k < p.flags.len() ==> by_name(p.flags, p.flags[k].name) < p.flags.len(),
        0 <= k < p.opts.len() ==> by_name(p.flags, p.opts[k].name) == p.flags.len() && by_name(
            p.opts,
            p.opts[k].name,
        ) < p.opts.len(),
        0 <= k < p.positionals.len() ==> by_name(p.flags, p.positionals[k].name) == p.flags.len(),
{
    let all = all_names(p);
    let f = p.flags.len() as int;
    let o = p.opts.len() as int;
    if 0 <= k < p.flags.len() {
        lemma_hit(Seq::new(p.flags.len(), |i: int| p.flags[i].name == p.flags[k].name), k);
    }
    if 0 <= k < p.opts.len() {
        let n = p.opts[k].name;
        lemma_hit(Seq::new(p.opts.len(), |i: int| p.opts[i].name == n), k);
        let hits = Seq::new(p.flags.len(), |i: int| p.flags[i].name == n);
        lemma_first_true(hits);
        if by_name(p.flags, n) < f {
            assert(all[by_name(p.flags, n)] == n);
            assert(all[f + k] == n);
        }
    }
    if 0 <= k < p.positionals.len() {
        let n = p.positionals[k].name;
        let hits = Seq::new(p.flags.len(), |i: int| p.flags[i].name == n);
        lemma_first_true(hits);
        if by_name(p.flags, n) < f {
            assert(all[by_name(p.flags, n)] == n);
            assert(all[f + o + k] == n);
        }
    }
}

/// An entry that is changed in its place, under its name, or added under a
/// name that is not matched, keeps the entries apart.
pub proof fn lemma_entry_put(before: Seq<EntryView>, after: Seq<EntryView>, name: Text)
    requires
        entries_apart(before),
        entry_index(before, name) < before.len() ==> after.len() == before.len() && (forall|
            i: int,
        |
            0 <= i < before.len() ==> (#[trigger] after[i]).name == before[i].name),
        entry_index(before, name) >= before.len() ==> after.len() == before.len() + 1
            && after.last().name == name && (forall|i: int|
            0 <= i < before.len() ==> #[trigger] after[i] == before[i]),
    ensures
        entries_apart(after),
{
    lemma_first_true(name_hits(before, name));
    assert forall|i: int, j: int| 0 <= i < j < after.len() implies (#[trigger] after[i]).name != (
    #[trigger] after[j]).name by {
        if j < before.len() {
            assert(before[i].name != before[j].name);
        } else {
            assert(!name_hits(before, name)[i]);
        }
    }
}

/// A flag that is taken keeps what holds of the entries.
pub proof fn lemma_switch_keeps_entries(p: AppView, st: ParseState, k: int, shown: Text)
    requires
        distinct(all_names(p)),
        entries_kept(p, st),
        st.needs_val_of is None,
        0 <= k < p.flags.len(),
        switch(p, st, p.flags[k], shown) is Next,
    ensures
        entries_kept(p, switch(p, st, p.flags[k], shown)->Next_0),
        switch(p, st, p.flags[k], shown)->Next_0.needs_val_of is None,
{
    let d = p.flags[k];
    let seen = flag_seen(st.matches, d);
    let st1 = ParseState { matches: seen, needs_val_of: None, ..st };
    lemma_noted_blacklist(p, st1, d, d.name);
    lemma_first_true(name_hits(st.matches, d.name));
    lemma_entry_put(st.matches, seen, d.name);
    lemma_kinds_apart(p, k);
    assert forall|i: int| 0 <= i < seen.len() implies ((#[trigger] seen[i]).values is None
        <==> by_name(p.flags, seen[i].name) < p.flags.len()) by {
        if i < st.matches.len() {
            assert(seen[i].values == st.matches[i].values);
            assert(seen[i].name == st.matches[i].name);
        }
    }
    assert forall|i: int| 0 <= i < seen.len() implies (#[trigger] seen[i]).occurrences >= 1 by {
        if i < st.matches.len() && i != entry_index(st.matches, d.name) {
            assert(seen[i] == st.matches[i]);
        }
    }
}

/// An option that is taken keeps what holds of the entries.
pub proof fn lemma_option_keeps_entries(p: AppView, st: ParseState, k: int, shown: Text, val: Option<Text>)
    requires
        distinct(all_names(p)),
        entries_kept(p, st),
        st.needs_val_of is None,
        0 <= k < p.opts.len(),
        option(p, st, p.opts[k], shown, val) is Next,
    ensures
        entries_kept(p, option(p, st, p.opts[k], shown, val)->Next_0),
{
    let d = p.opts[k];
    let seen = opt_seen(st.matches, d, val);
    let st1 = ParseState {
        matches: seen,
        needs_val_of: if val is None {
            Some(d.name)
        } else {
            None
        },
        ..st
    };
    lemma_noted_blacklist(p, st1, d, d.name);
    lemma_first_true(name_hits(st.matches, d.name));
    lemma_entry_put(st.matches, seen, d.name);
    lemma_kinds_apart(p, k);
    let at = entry_index(st.matches, d.name);
    assert forall|i: int| 0 <= i < seen.len() implies ((#[trigger] seen[i]).values is None
        <==> by_name(p.flags, seen[i].name) < p.flags.len()) by {
        if i < st.matches.len() {
            assert(seen[i].name == st.matches[i].name);
            if i != at || val is None {
                assert(seen[i].values == st.matches[i].values);
            } else {
                assert(st.matches[i].values is None <==> seen[i].values is None);
            }
        }
    }
    assert forall|i: int| 0 <= i < seen.len() implies (#[trigger] seen[i]).occurrences >= 1
        || st1.needs_val_of == Some(seen[i].name) by {
        if i < st.matches.len() {
            if i != at || val is None {
                assert(seen[i] == st.matches[i]);
            }
        }
    }
}

/// A positional value that is taken keeps what holds of the entries.
pub proof fn lemma_positional_keeps_entries(p: AppView, st: ParseState, k: int, tok: Text)
    requires
        distinct(all_names(p)),
        entries_kept(p, st),
        st.needs_val_of is None,
        0 <= k < p.positionals.len(),
        positional(p, st, p.positionals[k], tok) is Next,
    ensures
        entries_kept(p, positional(p, st, p.positionals[k], tok)->Next_0),
        positional(p, st, p.positionals[k], tok)->Next_0.needs_val_of is None,
{
    let d = p.positionals[k];
    let seen = pos_seen(st.matches, d, tok);
    let st1 = ParseState {
        matches: seen,
        pos_counter: if d.multiple {
            st.pos_counter
        } else {
            st.pos_counter + 1
        },
        ..st
    };
    lemma_noted_blacklist(p, st1, d, d.name);
    lemma_first_true(name_hits(st.matches, d.name));
    lemma_entry_put(st.matches, seen, d.name);
    lemma_kinds_apart(p, k);
    let at = entry_index(st.matches, d.name);
    assert forall|i: int| 0 <= i < seen.len() implies ((#[trigger] seen[i]).values is None
        <==> by_name(p.flags, seen[i].name) < p.flags.len()) by {
        if i < st.matches.len() {
            assert(seen[i].name == st.matches[i].name);
            if i != at {
                assert(seen[i].values == st.matches[i].values);
            } else if d.multiple {
                assert(st.matches[i].values is None <==> seen[i].values is None);
            }
        }
    }
    assert forall|i: int| 0 <= i < seen.len() implies (#[trigger] seen[i]).occurrences >= 1 by {
        if i < st.matches.len() && i != at {
            assert(seen[i] == st.matches[i]);
        }
    }
}

/// A cluster that is taken keeps what holds of the entries.
pub proof fn lemma_cluster_keeps_entries(p: AppView, st: ParseState, body: Text, i: nat)
    requires
        distinct(all_names(p)),
        entries_kept(p, st),
        st.needs_val_of is None,
        cluster(p, st, body, i) is Next,
    ensures
        entries_kept(p, cluster(p, st, body, i)->Next_0),
    decreases body.len() - i,
{
    if i < body.len() {
        let c = body[i as int];
        match cluster_char(p, st, body, c) {
            Step::Next(st1) => {
                lemma_first_true(Seq::new(p.flags.len(), |k: int| p.flags[k].short == Some(c)));
                lemma_switch_keeps_entries(p, st, by_short(p.flags, c), "-"@.push(c));
                lemma_cluster_keeps_entries(p, st1, body, i + 1);
            },
            _ => {},
        }
    }
}

/// A token that is taken keeps what holds of the entries.
pub proof fn lemma_step_keeps_entries(p: AppView, st: ParseState, tok: Text)
    requires
        distinct(all_names(p)),
        entries_kept(p, st),
        step(p, st, tok) is Next,
    ensures
        entries_kept(p, step(p, st, tok)->Next_0),
{
    reveal(step);
    if awaits_value(p, st) {
        let hits = Seq::new(p.opts.len(), |i: int| p.opts[i].name == st.needs_val_of->0);
        lemma_first_true(hits);
        let k = by_name(p.opts, st.needs_val_of->0);
        let d = p.opts[k];
        let given = value_given(st.matches, d, tok);
        lemma_first_true(name_hits(st.matches, d.name));
        lemma_kinds_apart(p, k);
        let at = entry_index(st.matches, d.name);
        assert forall|i: int, j: int| 0 <= i < j < given.len() implies (#[trigger] given[i]).name != (
        #[trigger] given[j]).name by {
            assert(given[i].name == st.matches[i].name);
            assert(given[j].name == st.matches[j].name);
        }
        assert forall|i: int| 0 <= i < given.len() implies (#[trigger] given[i]).occurrences >= 1 by {
            if i != at {
                assert(given[i] == st.matches[i]);
                if at < st.matches.len() {
                    if i < at {
                        assert(st.matches[i].name != st.matches[at].name);
                    } else {
                        assert(st.matches[at].name != st.matches[i].name);
                    }
                } else {
                    assert(!name_hits(st.matches, d.name)[i]);
                }
            }
        }
        assert forall|i: int| 0 <= i < given.len() implies ((#[trigger] given[i]).values is None
            <==> by_name(p.flags, given[i].name) < p.flags.len()) by {
            assert(given[i].name == st.matches[i].name);
            assert(st.matches[i].values is None <==> given[i].values is None);
        }
    } else if !st.pos_only && double_dashed(tok) {
        if tok.len() != 2 {
            let name = long_name(tok);
            let val = long_value(tok);
            lemma_first_true(Seq::new(p.opts.len(), |k: int| p.opts[k].long == Some(name)));
            lemma_first_true(Seq::new(p.flags.len(), |k: int| p.flags[k].long == Some(name)));
            if by_long(p.opts, name) < p.opts.len() {
                lemma_option_keeps_entries(p, st, by_long(p.opts, name), "--"@ + name, val);
            } else if by_long(p.flags, name) < p.flags.len() {
                lemma_switch_keeps_entries(p, st, by_long(p.flags, name), "--"@ + name);
            }
        }
    } else if !st.pos_only && dashed(tok) {
        let body = without_dashes(tok);
        if body.len() > 1 {
            lemma_cluster_keeps_entries(p, st, body, 0);
        } else if body.len() == 1 {
            let c = body[0];
            lemma_first_true(Seq::new(p.flags.len(), |k: int| p.flags[k].short == Some(c)));
            lemma_first_true(Seq::new(p.opts.len(), |k: int| p.opts[k].short == Some(c)));
            if auto_short(p, st, c) is None {
                if by_short(p.flags, c) < p.flags.len() {
                    lemma_switch_keeps_entries(p, st, by_short(p.flags, c), "-"@.push(c));
                } else if by_short(p.opts, c) < p.opts.len() {
                    lemma_option_keeps_entries(p, st, by_short(p.opts, c), "-"@.push(c), None);
                }
            }
        }
    } else {
        lemma_first_true(
            Seq::new(p.positionals.len(), |k: int| p.positionals[k].index == st.pos_counter as int),
        );
        if by_index(p.positionals, st.pos_counter as int) < p.positionals.len() {
            lemma_positional_keeps_entries(
                p,
                st,
                by_index(p.positionals, st.pos_counter as int),
                tok,
            );
        }
    }
}

/// The state a walk ends in keeps what holds of the entries.
pub proof fn lemma_run_keeps_entries(p: AppView, st: ParseState, tokens: Seq<Text>, i: nat)
    requires
        distinct(all_names(p)),
        entries_kept(p, st),
        !(run(p, st, tokens, i) is Halt),
    ensures
        entries_kept(p, end_state(run(p, st, tokens, i))),
    decreases tokens.len() - i,
{
    if i < tokens.len() {
        match step(p, st, tokens[i as int]) {
            Step::Next(st1) => {
                lemma_step_keeps_entries(p, st, tokens[i as int]);
                lemma_run_keeps_entries(p, st1, tokens, i + 1);
            },
            Step::Sub(st1, s) => {
                lemma_step_sub(p, st, tokens[i as int]);
            },
            Step::Halt(h) => {},
        }
    }
}

/// The matches of a successful parse: no argument has two entries, every
/// entry counts at least one occurrence, and an entry has values exactly
/// when it is not that of a flag.
pub proof fn lemma_entries_of_matches(app: AppView, tokens: Seq<Text>, from: nat)
    requires
        distinct(all_names(app.prepared())),
        parse(app, tokens, from) is Ok,
    ensures
        entries_apart(parse(app, tokens, from)->Ok_0.args),
        forall|i: int|
            0 <= i < parse(app, tokens, from)->Ok_0.args.len() ==> (#[trigger] parse(
                app,
                tokens,
                from,
            )->Ok_0.args[i]).occurrences >= 1,
        entries_valued(app.prepared(), parse(app, tokens, from)->Ok_0.args),
{
    let p = app.prepared();
    lemma_parse_ok(app, tokens, from);
    assert(entries_kept(p, initial(p)));
    lemma_run_keeps_entries(p, initial(p), tokens, from);
    let st = end_state(walk_of(app, tokens, from));
    lemma_nothing_wrong(p, st);
}

} // verus!
