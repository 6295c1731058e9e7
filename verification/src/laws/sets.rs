//! The running sets of a parse hold no name twice.

use vstd::prelude::*;
use crate::text::Text;
use crate::text::without_dashes;
use crate::names::distinct;
use crate::names::with_all;
use crate::names::without;
use crate::names::without_all;
use crate::names::lemma_with_distinct;
use crate::names::lemma_with_all_distinct;
use crate::names::lemma_without_distinct;
use crate::names::lemma_without_all_distinct;
use crate::args::builders::Decl;
use crate::args::builders::by_short;
use crate::args::group::GroupView;
use crate::args::matches::EntryView;
use crate::app::AppView;
use crate::parser::ParseState;
use crate::parser::Step;
use crate::parser::initial;
use crate::parser::step;
use crate::parser::run;
use crate::parser::noted;
use crate::parser::add_unmatched;
use crate::parser::groups_required;
use crate::parser::groups_blacklist;
use crate::parser::cluster;
use crate::parser::cluster_char;
use crate::parser::lemma_step_sub;
use crate::laws::walks::end_state;

verus! {

/// The names that are required, those that are excluded and those that
/// were asked for are each without repetition.
pub open spec fn sets_kept(st: ParseState) -> bool {
    &&& distinct(st.required)
    &&& distinct(st.blacklist)
    &&& distinct(st.matched_reqs)
}

/// Adding what is not matched keeps a list without repetition.
pub proof fn lemma_add_unmatched_distinct(required: Seq<Text>, reqs: Seq<Text>, matches: Seq<EntryView>)
    requires
        distinct(required),
    ensures
        distinct(add_unmatched(required, reqs, matches)),
    decreases reqs.len(),
{
    if reqs.len() > 0 {
        lemma_add_unmatched_distinct(required, reqs.drop_last(), matches);
        lemma_with_distinct(add_unmatched(required, reqs.drop_last(), matches), reqs.last());
    }
}

/// What the groups do to the required names keeps them without repetition.
pub proof fn lemma_groups_required_distinct(
    groups: Seq<GroupView>,
    n: nat,
    name: Text,
    required: Seq<Text>,
)
    requires
        n <= groups.len(),
        distinct(required),
    ensures
        distinct(groups_required(groups, n, name, required)),
    decreases n,
{
    if n > 0 {
        lemma_groups_required_distinct(groups, (n - 1) as nat, name, required);
        let before = groups_required(groups, (n - 1) as nat, name, required);
        let g = groups[n - 1];
        lemma_without_distinct(before, g.name);
        lemma_with_all_distinct(without(before, g.name), g.requires);
        lemma_without_all_distinct(
            with_all(without(before, g.name), g.requires),
            without(g.args, name),
        );
    }
}

/// What the groups do to the excluded names keeps them without repetition.
pub proof fn lemma_groups_blacklist_distinct(
    groups: Seq<GroupView>,
    n: nat,
    name: Text,
    blacklist: Seq<Text>,
)
    requires
        n <= groups.len(),
        distinct(blacklist),
    ensures
        distinct(groups_blacklist(groups, n, name, blacklist)),
    decreases n,
{
    if n > 0 {
        lemma_groups_blacklist_distinct(groups, (n - 1) as nat, name, blacklist);
        let before = groups_blacklist(groups, (n - 1) as nat, name, blacklist);
        let g = groups[n - 1];
        lemma_with_all_distinct(before, g.conflicts);
        lemma_with_all_distinct(with_all(before, g.conflicts), without(g.args, name));
    }
}

/// Noting a match keeps the running sets without repetition.
pub proof fn lemma_noted_sets(p: AppView, st: ParseState, d: Decl)
    requires
        sets_kept(st),
    ensures
        sets_kept(noted(p, st, d)),
{
    lemma_without_distinct(st.required, d.name);
    lemma_without_all_distinct(without(st.required, d.name), d.blacklist);
    let base = without_all(without(st.required, d.name), d.blacklist);
    lemma_add_unmatched_distinct(base, d.requires, st.matches);
    lemma_groups_required_distinct(
        p.groups,
        p.groups.len(),
        d.name,
        add_unmatched(base, d.requires, st.matches),
    );
    lemma_with_all_distinct(st.blacklist, d.blacklist);
    lemma_groups_blacklist_distinct(
        p.groups,
        p.groups.len(),
        d.name,
        with_all(st.blacklist, d.blacklist),
    );
    lemma_with_all_distinct(st.matched_reqs, d.requires);
}

/// A cluster that is taken keeps the running sets without repetition.
pub proof fn lemma_cluster_keeps_sets(p: AppView, st: ParseState, body: Text, i: nat)
    requires
        sets_kept(st),
        cluster(p, st, body, i) is Next,
    ensures
        sets_kept(cluster(p, st, body, i)->Next_0),
    decreases body.len() - i,
{
    if i < body.len() {
        let c = body[i as int];
        match cluster_char(p, st, body, c) {
            Step::Next(st1) => {
                let d = p.flags[by_short(p.flags, c)];
                lemma_noted_sets(
                    p,
                    ParseState {
                        matches: crate::parser::flag_seen(st.matches, d),
                        needs_val_of: None,
                        ..st
                    },
                    d,
                );
                lemma_cluster_keeps_sets(p, st1, body, i + 1);
            },
            _ => {},
        }
    }
}

/// A token that is taken keeps the running sets without repetition.
pub proof fn lemma_step_keeps_sets(p: AppView, st: ParseState, tok: Text)
    requires
        sets_kept(st),
        step(p, st, tok) is Next,
    ensures
        sets_kept(step(p, st, tok)->Next_0),
{
    reveal(step);
    assert forall|x: ParseState, d: Decl|
        x.required == st.required && x.blacklist == st.blacklist && x.matched_reqs
            == st.matched_reqs implies sets_kept(#[trigger] noted(p, x, d)) by {
        lemma_noted_sets(p, x, d);
    }
    let body = without_dashes(tok);
    if body.len() > 1 {
        let st1 = ParseState { needs_val_of: None, ..st };
        if cluster(p, st1, body, 0) is Next {
            lemma_cluster_keeps_sets(p, st1, body, 0);
        }
    }
}

/// The running sets of the state a walk ends in are without repetition.
pub proof fn lemma_run_keeps_sets(p: AppView, st: ParseState, tokens: Seq<Text>, i: nat)
    requires
        sets_kept(st),
        !(run(p, st, tokens, i) is Halt),
    ensures
        sets_kept(end_state(run(p, st, tokens, i))),
    decreases tokens.len() - i,
{
    if i < tokens.len() {
        match step(p, st, tokens[i as int]) {
            Step::Next(st1) => {
                lemma_step_keeps_sets(p, st, tokens[i as int]);
                lemma_run_keeps_sets(p, st1, tokens, i + 1);
            },
            Step::Sub(st1, s) => {
                lemma_step_sub(p, st, tokens[i as int]);
            },
            Step::Halt(h) => {},
        }
    }
}

/// The running sets of a parse hold no name twice: where the command
/// requires and excludes no name twice, neither does the state a walk
/// from the initial state ends in, and no name is asked for twice.
pub proof fn lemma_sets_without_repetition(p: AppView, tokens: Seq<Text>, from: nat)
    requires
        distinct(p.required),
        distinct(p.blacklist),
        !(run(p, initial(p), tokens, from) is Halt),
    ensures
        sets_kept(end_state(run(p, initial(p), tokens, from))),
{
    lemma_run_keeps_sets(p, initial(p), tokens, from);
}

} // verus!
