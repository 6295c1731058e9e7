//! What holds of every state a parse can be in.

use vstd::prelude::*;
use crate::text::Text;
use crate::search::first_true;
use crate::search::lemma_first_true;
use crate::args::builders::Decl;
use crate::args::matches::EntryView;
use crate::args::matches::has_entry;
use crate::app::AppView;
use crate::app::group_by_name;
use crate::app::declared;
use crate::app::groups_apart;
use crate::app::sound;
use crate::parser::ParseState;
use crate::parser::initial;
use crate::parser::noted;
use crate::parser::in_use;
use crate::parser::any_matched;
use crate::parser::matched_hits;
use crate::parser::first_matched;
use crate::laws::schema::lemma_hit;
use crate::laws::tracking::grown;
use crate::laws::tracking::lemma_grown;
use crate::laws::tracking::lemma_has_entry;
use crate::laws::tracking::group_releases;
use crate::laws::tracking::group_excludes;
use crate::laws::tracking::lemma_noted_blacklist;
use crate::laws::tracking::lemma_noted_required;

verus! {

/// What a matched argument excludes is excluded.
pub open spec fn conflicts_tracked(p: AppView, st: ParseState) -> bool {
    forall|d: Decl, x: Text|
        #[trigger] declared(p, d) && has_entry(st.matches, d.name) && #[trigger] d.blacklist.contains(
            x,
        ) ==> st.blacklist.contains(x)
}

/// Where a member of a group is matched, the other members are excluded.
pub open spec fn groups_tracked(p: AppView, st: ParseState) -> bool {
    forall|k: int, m: Text, x: Text|
        0 <= k < p.groups.len() && #[trigger] p.groups[k].args.contains(m) && has_entry(
            st.matches,
            m,
        ) && #[trigger] p.groups[k].args.contains(x) && x != m ==> st.blacklist.contains(x)
}

/// What makes `x` excluded in the course of a parse: a matched argument
/// that excludes it, or a matched member of a group that excludes it.
pub open spec fn excluded_by_match(p: AppView, matches: Seq<EntryView>, x: Text) -> bool {
    ||| exists|d: Decl|
        #[trigger] declared(p, d) && has_entry(matches, d.name) && d.blacklist.contains(x)
    ||| exists|k: int, m: Text|
        0 <= k < p.groups.len() && has_entry(matches, m) && #[trigger] group_excludes(
            p.groups[k],
            m,
            x,
        )
}

/// A name that the command requires is still required, or excluded, or in use.
pub open spec fn required_tracked(p: AppView, st: ParseState) -> bool {
    forall|n: Text| #[trigger]
        p.required.contains(n) ==> st.required.contains(n) || st.blacklist.contains(n) || in_use(
            p,
            st.matches,
            n,
        )
}

/// A name is excluded because the command excludes it, or because of a match.
pub open spec fn blacklist_explained(p: AppView, st: ParseState) -> bool {
    forall|x: Text| #[trigger]
        st.blacklist.contains(x) ==> p.blacklist.contains(x) || excluded_by_match(
            p,
            st.matches,
            x,
        )
}

/// What holds of every state of a parse of `p`.
pub open spec fn inv(p: AppView, st: ParseState) -> bool {
    &&& conflicts_tracked(p, st)
    &&& groups_tracked(p, st)
    &&& required_tracked(p, st)
    &&& blacklist_explained(p, st)
}

/// A group of a command whose groups are told apart is found by its name.
pub proof fn lemma_group_found(p: AppView, k: int)
    requires
        groups_apart(p),
        0 <= k < p.groups.len(),
    ensures
        group_by_name(p.groups, p.groups[k].name) == k,
{
    let hits = Seq::new(p.groups.len(), |i: int| p.groups[i].name == p.groups[k].name);
    lemma_first_true(hits);
    lemma_hit(hits, k);
    let at = first_true(hits);
    if at < k {
        assert(p.groups[at].name == p.groups[k].name);
    }
}

/// One of `names` that is matched makes them matched.
pub proof fn lemma_any_matched(matches: Seq<EntryView>, names: Seq<Text>, n: Text)
    requires
        names.contains(n),
        has_entry(matches, n),
    ensures
        any_matched(matches, names),
{
    let i = choose|i: int| 0 <= i < names.len() && names[i] == n;
    lemma_hit(matched_hits(matches, names), i);
}

/// What is in use stays in use where the matches grow.
pub proof fn lemma_in_use_grown(p: AppView, before: Seq<EntryView>, after: Seq<EntryView>, name: Text, n: Text)
    requires
        grown(before, after, name),
        in_use(p, before, n),
    ensures
        in_use(p, after, n),
{
    lemma_grown(before, after, name, n);
    if !has_entry(before, n) {
        let members = p.groups[group_by_name(p.groups, n)].args;
        lemma_first_true(matched_hits(before, members));
        let i = first_matched(before, members);
        lemma_grown(before, after, name, members[i]);
        assert(members[i] == members[i]);
        lemma_any_matched(after, members, members[i]);
    }
}

/// What a match excludes stays excluded by a match where the matches grow.
pub proof fn lemma_excluded_grown(
    p: AppView,
    before: Seq<EntryView>,
    after: Seq<EntryView>,
    name: Text,
    x: Text,
)
    requires
        grown(before, after, name),
        excluded_by_match(p, before, x),
    ensures
        excluded_by_match(p, after, x),
{
    if exists|d: Decl|
        #[trigger] declared(p, d) && has_entry(before, d.name) && d.blacklist.contains(x) {
        let d = choose|d: Decl|
            #[trigger] declared(p, d) && has_entry(before, d.name) && d.blacklist.contains(x);
        lemma_grown(before, after, name, d.name);
        assert(declared(p, d) && has_entry(after, d.name) && d.blacklist.contains(x));
    } else {
        let (k, m) = choose|k: int, m: Text|
            0 <= k < p.groups.len() && has_entry(before, m) && #[trigger] group_excludes(
                p.groups[k],
                m,
                x,
            );
        lemma_grown(before, after, name, m);
        assert(0 <= k < p.groups.len() && has_entry(after, m) && group_excludes(p.groups[k], m, x));
    }
}

/// The state a parse starts in is as every state of a parse is.
pub proof fn lemma_initial_inv(p: AppView)
    ensures
        inv(p, initial(p)),
{
    let st = initial(p);
    assert forall|n: Text| !has_entry(st.matches, n) by {
        lemma_has_entry(st.matches, n);
    }
}

/// A state that differs from one of a parse in nothing that counts is as
/// every state of a parse is: the same names are matched, required and
/// excluded.
pub proof fn lemma_same_names_inv(p: AppView, st: ParseState, st1: ParseState, name: Text)
    requires
        inv(p, st),
        grown(st.matches, st1.matches, name),
        has_entry(st.matches, name) || st1.matches.len() == st.matches.len(),
        st1.required == st.required,
        st1.blacklist == st.blacklist,
    ensures
        inv(p, st1),
{
    assert forall|n: Text| has_entry(st1.matches, n) implies has_entry(st.matches, n) by {
        lemma_grown(st.matches, st1.matches, name, n);
        if !has_entry(st.matches, n) {
            lemma_has_entry(st1.matches, n);
            lemma_has_entry(st.matches, n);
            let i = choose|i: int| 0 <= i < st1.matches.len() && (#[trigger] st1.matches[i]).name == n;
            if i < st.matches.len() {
                assert(st.matches[i].name == n);
            }
        }
    }
    assert forall|n: Text| #[trigger] p.required.contains(n) implies st1.required.contains(n)
        || st1.blacklist.contains(n) || in_use(p, st1.matches, n) by {
        if in_use(p, st.matches, n) {
            lemma_in_use_grown(p, st.matches, st1.matches, name, n);
        }
    }
    assert forall|x: Text| #[trigger] st1.blacklist.contains(x) implies p.blacklist.contains(x)
        || excluded_by_match(p, st1.matches, x) by {
        if excluded_by_match(p, st.matches, x) {
            lemma_excluded_grown(p, st.matches, st1.matches, name, x);
        }
    }
}

/// Noting the match of an argument of the command keeps what holds of
/// every state. `st1` is `st` with the argument in its matches.
pub proof fn lemma_match_keeps_inv(p: AppView, st: ParseState, st1: ParseState, d: Decl)
    requires
        sound(p),
        inv(p, st),
        declared(p, d),
        grown(st.matches, st1.matches, d.name),
        has_entry(st1.matches, d.name),
        st1.required == st.required,
        st1.blacklist == st.blacklist,
    ensures
        inv(p, noted(p, st1, d)),
{
    let st2 = noted(p, st1, d);
    assert forall|x: Text| st1.blacklist.contains(x) implies st2.blacklist.contains(x) by {
        lemma_noted_blacklist(p, st1, d, x);
    }
    lemma_noted_blacklist(p, st1, d, d.name);
    assert(st2.matches == st1.matches);
    assert forall|d1: Decl, x: Text|
        #[trigger] declared(p, d1) && has_entry(st2.matches, d1.name) && #[trigger] d1.blacklist.contains(
            x,
        ) implies st2.blacklist.contains(x) by {
        lemma_grown(st.matches, st1.matches, d.name, d1.name);
        lemma_noted_blacklist(p, st1, d, x);
        if has_entry(st.matches, d1.name) {
            assert(st.blacklist.contains(x));
        } else {
            assert(d1 == d);
        }
    }
    assert forall|k: int, m: Text, x: Text|
        0 <= k < p.groups.len() && #[trigger] p.groups[k].args.contains(m) && has_entry(
            st2.matches,
            m,
        ) && #[trigger] p.groups[k].args.contains(x) && x != m implies st2.blacklist.contains(
        x,
    ) by {
        lemma_grown(st.matches, st1.matches, d.name, m);
        lemma_noted_blacklist(p, st1, d, x);
        if has_entry(st.matches, m) {
            assert(st.blacklist.contains(x));
        } else {
            assert(group_excludes(p.groups[k], d.name, x));
        }
    }
    assert forall|n: Text| #[trigger] p.required.contains(n) implies st2.required.contains(n)
        || st2.blacklist.contains(n) || in_use(p, st2.matches, n) by {
        lemma_noted_blacklist(p, st1, d, n);
        if st.blacklist.contains(n) {
        } else if in_use(p, st.matches, n) {
            lemma_in_use_grown(p, st.matches, st1.matches, d.name, n);
        } else {
            assert(st.required.contains(n));
            if n == d.name {
            } else if d.blacklist.contains(n) {
            } else if exists|k: int|
                0 <= k < p.groups.len() && group_releases(#[trigger] p.groups[k], d.name, n) {
                let k = choose|k: int|
                    0 <= k < p.groups.len() && group_releases(#[trigger] p.groups[k], d.name, n);
                if n == p.groups[k].name {
                    lemma_group_found(p, k);
                    lemma_any_matched(st1.matches, p.groups[k].args, d.name);
                } else {
                    assert(group_excludes(p.groups[k], d.name, n));
                }
            } else {
                lemma_noted_required(p, st1, d, n);
            }
        }
    }
    assert forall|x: Text| #[trigger] st2.blacklist.contains(x) implies p.blacklist.contains(x)
        || excluded_by_match(p, st2.matches, x) by {
        lemma_noted_blacklist(p, st1, d, x);
        if st.blacklist.contains(x) {
            if excluded_by_match(p, st.matches, x) {
                lemma_excluded_grown(p, st.matches, st1.matches, d.name, x);
            }
        } else if d.blacklist.contains(x) {
            assert(declared(p, d) && has_entry(st1.matches, d.name) && d.blacklist.contains(x));
        } else {
            let k = choose|k: int|
                0 <= k < p.groups.len() && group_excludes(#[trigger] p.groups[k], d.name, x);
            assert(0 <= k < p.groups.len() && has_entry(st1.matches, d.name) && group_excludes(
                p.groups[k],
                d.name,
                x,
            ));
        }
    }
}

} // verus!
