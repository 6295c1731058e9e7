//! How the matches and the running sets change when an argument matches.

use vstd::prelude::*;
use crate::text::Text;
use crate::names::with_all;
use crate::names::without;
use crate::names::without_all;
use crate::names::lemma_with;
use crate::names::lemma_with_all;
use crate::names::lemma_without;
use crate::names::lemma_without_all;
use crate::search::lemma_first_true;
use crate::args::builders::Decl;
use crate::args::group::GroupView;
use crate::args::matches::EntryView;
use crate::args::matches::name_hits;
use crate::args::matches::entry_index;
use crate::args::matches::has_entry;
use crate::app::AppView;
use crate::parser::ParseState;
use crate::parser::flag_seen;
use crate::parser::opt_seen;
use crate::parser::value_given;
use crate::parser::pos_seen;
use crate::parser::add_unmatched;
use crate::parser::group_required;
use crate::parser::group_blacklist;
use crate::parser::groups_required;
use crate::parser::groups_blacklist;
use crate::parser::noted;
use crate::laws::schema::lemma_hit;

verus! {

/// `after` holds the entries of `before` under their names, in their
/// places, and any further entry is one of `name`.
pub open spec fn grown(before: Seq<EntryView>, after: Seq<EntryView>, name: Text) -> bool {
    &&& before.len() <= after.len()
    &&& forall|i: int| 0 <= i < before.len() ==> (#[trigger] after[i]).name == before[i].name
    &&& forall|i: int| before.len() <= i < after.len() ==> (#[trigger] after[i]).name == name
}

/// A name is matched exactly when some entry has it.
pub proof fn lemma_has_entry(matches: Seq<EntryView>, name: Text)
    ensures
        has_entry(matches, name) <==> exists|i: int|
            0 <= i < matches.len() && (#[trigger] matches[i]).name == name,
{
    let hits = name_hits(matches, name);
    lemma_first_true(hits);
    if has_entry(matches, name) {
        assert(matches[entry_index(matches, name)].name == name);
    }
    if exists|i: int| 0 <= i < matches.len() && (#[trigger] matches[i]).name == name {
        let i = choose|i: int| 0 <= i < matches.len() && (#[trigger] matches[i]).name == name;
        lemma_hit(hits, i);
    }
}

/// What is matched stays matched where the matches grow, and what is
/// matched afterwards was matched before or is the name they grew by.
pub proof fn lemma_grown(before: Seq<EntryView>, after: Seq<EntryView>, name: Text, n: Text)
    requires
        grown(before, after, name),
    ensures
        has_entry(before, n) ==> has_entry(after, n),
        has_entry(after, n) ==> has_entry(before, n) || n == name,
{
    lemma_has_entry(before, n);
    lemma_has_entry(after, n);
    if has_entry(before, n) {
        let i = choose|i: int| 0 <= i < before.len() && (#[trigger] before[i]).name == n;
        assert(after[i].name == n);
    }
    if has_entry(after, n) && n != name {
        let i = choose|i: int| 0 <= i < after.len() && (#[trigger] after[i]).name == n;
        assert(before[i].name == n);
    }
}

/// Seeing a flag makes the matches grow by its name, and matches it.
pub proof fn lemma_flag_seen(matches: Seq<EntryView>, d: Decl)
    ensures
        grown(matches, flag_seen(matches, d), d.name),
        has_entry(flag_seen(matches, d), d.name),
{
    lemma_first_true(name_hits(matches, d.name));
    let out = flag_seen(matches, d);
    let at = entry_index(matches, d.name);
    if at < matches.len() {
        assert(out[at].name == d.name);
        lemma_hit(name_hits(out, d.name), at);
    } else {
        assert(out[matches.len() as int].name == d.name);
        lemma_hit(name_hits(out, d.name), matches.len() as int);
    }
}

/// Seeing an option makes the matches grow by its name, and matches it.
pub proof fn lemma_opt_seen(matches: Seq<EntryView>, d: Decl, val: Option<Text>)
    ensures
        grown(matches, opt_seen(matches, d, val), d.name),
        has_entry(opt_seen(matches, d, val), d.name),
{
    lemma_first_true(name_hits(matches, d.name));
    let out = opt_seen(matches, d, val);
    let at = entry_index(matches, d.name);
    if at < matches.len() {
        assert(out[at].name == d.name);
        lemma_hit(name_hits(out, d.name), at);
    } else {
        assert(out[matches.len() as int].name == d.name);
        lemma_hit(name_hits(out, d.name), matches.len() as int);
    }
}

/// Giving an option its value leaves the matched names as they are.
pub proof fn lemma_value_given(matches: Seq<EntryView>, d: Decl, v: Text)
    ensures
        grown(matches, value_given(matches, d, v), d.name),
        value_given(matches, d, v).len() == matches.len(),
{
    lemma_first_true(name_hits(matches, d.name));
}

/// Seeing a positional makes the matches grow by its name, and matches it.
pub proof fn lemma_pos_seen(matches: Seq<EntryView>, d: Decl, v: Text)
    ensures
        grown(matches, pos_seen(matches, d, v), d.name),
        has_entry(pos_seen(matches, d, v), d.name),
{
    lemma_first_true(name_hits(matches, d.name));
    let out = pos_seen(matches, d, v);
    let at = entry_index(matches, d.name);
    if at < matches.len() {
        assert(out[at].name == d.name);
        lemma_hit(name_hits(out, d.name), at);
    } else {
        assert(out[matches.len() as int].name == d.name);
        lemma_hit(name_hits(out, d.name), matches.len() as int);
    }
}

/// What `add_unmatched` holds: what was required, and those of `reqs`
/// that are not matched.
pub proof fn lemma_add_unmatched(required: Seq<Text>, reqs: Seq<Text>, matches: Seq<EntryView>, x: Text)
    ensures
        add_unmatched(required, reqs, matches).contains(x) <==> (required.contains(x) || (
        reqs.contains(x) && !has_entry(matches, x))),
    decreases reqs.len(),
{
    if reqs.len() > 0 {
        let front = reqs.drop_last();
        lemma_add_unmatched(required, front, matches, x);
        lemma_with(add_unmatched(required, front, matches), reqs.last(), x);
        if front.contains(x) {
            let i = choose|i: int| 0 <= i < front.len() && front[i] == x;
            assert(reqs[i] == x);
        }
        if reqs.contains(x) && x != reqs.last() {
            let i = choose|i: int| 0 <= i < reqs.len() && reqs[i] == x;
            assert(front[i] == x);
        }
        if x == reqs.last() {
            assert(reqs[reqs.len() - 1] == x);
        }
    }
}

/// Whether the group `g` takes `x` off the required names when its member
/// `name` matches: `x` is the group, or another member.
pub open spec fn group_releases(g: GroupView, name: Text, x: Text) -> bool {
    g.args.contains(name) && (x == g.name || (g.args.contains(x) && x != name))
}

/// Whether the group `g` excludes `x` when its member `name` matches: the
/// group conflicts with `x`, or `x` is another member.
pub open spec fn group_excludes(g: GroupView, name: Text, x: Text) -> bool {
    g.args.contains(name) && (g.conflicts.contains(x) || (g.args.contains(x) && x != name))
}

/// What one group does to the excluded names.
pub proof fn lemma_group_blacklist(g: GroupView, name: Text, blacklist: Seq<Text>, x: Text)
    ensures
        group_blacklist(g, name, blacklist).contains(x) <==> (blacklist.contains(x)
            || group_excludes(g, name, x)),
{
    if g.args.contains(name) {
        lemma_with_all(blacklist, g.conflicts, x);
        lemma_with_all(with_all(blacklist, g.conflicts), without(g.args, name), x);
        lemma_without(g.args, name, x);
    }
}

/// What one group does to the required names: a name that it does not
/// release stays, and a name that it releases and does not itself require
/// goes.
pub proof fn lemma_group_required(g: GroupView, name: Text, required: Seq<Text>, x: Text)
    ensures
        required.contains(x) && !group_releases(g, name, x) ==> group_required(
            g,
            name,
            required,
        ).contains(x),
        group_required(g, name, required).contains(x) ==> required.contains(x)
            || g.requires.contains(x),
{
    if g.args.contains(name) {
        lemma_without(required, g.name, x);
        lemma_with_all(without(required, g.name), g.requires, x);
        lemma_without_all(
            with_all(without(required, g.name), g.requires),
            without(g.args, name),
            x,
        );
        lemma_without(g.args, name, x);
    }
}

/// What the groups do to the excluded names.
pub proof fn lemma_groups_blacklist(
    groups: Seq<GroupView>,
    n: nat,
    name: Text,
    blacklist: Seq<Text>,
    x: Text,
)
    requires
        n <= groups.len(),
    ensures
        groups_blacklist(groups, n, name, blacklist).contains(x) <==> (blacklist.contains(x)
            || exists|k: int| 0 <= k < n && group_excludes(#[trigger] groups[k], name, x)),
    decreases n,
{
    if n > 0 {
        lemma_groups_blacklist(groups, (n - 1) as nat, name, blacklist, x);
        lemma_group_blacklist(
            groups[n - 1],
            name,
            groups_blacklist(groups, (n - 1) as nat, name, blacklist),
            x,
        );
        if group_excludes(groups[n - 1], name, x) {
            assert(exists|k: int| 0 <= k < n && group_excludes(#[trigger] groups[k], name, x));
        }
        if exists|k: int| 0 <= k < n - 1 && group_excludes(#[trigger] groups[k], name, x) {
            let k = choose|k: int| 0 <= k < n - 1 && group_excludes(#[trigger] groups[k], name, x);
            assert(0 <= k < n && group_excludes(groups[k], name, x));
        }
        if exists|k: int| 0 <= k < n && group_excludes(#[trigger] groups[k], name, x) {
            let k = choose|k: int| 0 <= k < n && group_excludes(#[trigger] groups[k], name, x);
            if k < n - 1 {
                assert(0 <= k < n - 1 && group_excludes(groups[k], name, x));
            }
        }
    }
}

/// A required name that no group releases stays required.
pub proof fn lemma_groups_required(
    groups: Seq<GroupView>,
    n: nat,
    name: Text,
    required: Seq<Text>,
    x: Text,
)
    requires
        n <= groups.len(),
        required.contains(x),
        forall|k: int| 0 <= k < n ==> !group_releases(#[trigger] groups[k], name, x),
    ensures
        groups_required(groups, n, name, required).contains(x),
    decreases n,
{
    if n > 0 {
        lemma_groups_required(groups, (n - 1) as nat, name, required, x);
        lemma_group_required(
            groups[n - 1],
            name,
            groups_required(groups, (n - 1) as nat, name, required),
            x,
        );
    }
}

/// What noting a match does to the excluded names: they are those that
/// were excluded, those the argument excludes, and those that a group of
/// the argument excludes.
pub proof fn lemma_noted_blacklist(app: AppView, st: ParseState, d: Decl, x: Text)
    ensures
        noted(app, st, d).blacklist.contains(x) <==> (st.blacklist.contains(x)
            || d.blacklist.contains(x) || exists|k: int|
            0 <= k < app.groups.len() && group_excludes(#[trigger] app.groups[k], d.name, x)),
        noted(app, st, d).matches == st.matches,
        noted(app, st, d).pos_only == st.pos_only,
        noted(app, st, d).pos_counter == st.pos_counter,
        noted(app, st, d).needs_val_of == st.needs_val_of,
{
    lemma_with_all(st.blacklist, d.blacklist, x);
    lemma_groups_blacklist(
        app.groups,
        app.groups.len(),
        d.name,
        with_all(st.blacklist, d.blacklist),
        x,
    );
}

/// What noting a match does to a required name: it stays required unless
/// it is the argument, or the argument excludes it, or a group of the
/// argument releases it.
pub proof fn lemma_noted_required(app: AppView, st: ParseState, d: Decl, x: Text)
    requires
        st.required.contains(x),
        x != d.name,
        !d.blacklist.contains(x),
        forall|k: int|
            0 <= k < app.groups.len() ==> !group_releases(#[trigger] app.groups[k], d.name, x),
    ensures
        noted(app, st, d).required.contains(x),
{
    lemma_without(st.required, d.name, x);
    lemma_without_all(without(st.required, d.name), d.blacklist, x);
    let base = without_all(without(st.required, d.name), d.blacklist);
    lemma_add_unmatched(base, d.requires, st.matches, x);
    lemma_groups_required(
        app.groups,
        app.groups.len(),
        d.name,
        add_unmatched(base, d.requires, st.matches),
        x,
    );
}

} // verus!
