//! Laws of the description of a command.

use vstd::prelude::*;
use crate::text::Text;
use crate::search::first_true;
use crate::search::lemma_first_true;
use crate::errors::SchemaError;
use crate::args::arg::ArgView;
use crate::args::builders::Decl;
use crate::args::builders::by_name;
use crate::args::builders::by_short;
use crate::args::builders::by_long;
use crate::args::builders::by_index;
use crate::args::builders::put_by_name;
use crate::args::builders::put_by_index;
use crate::args::builders::index_slot;
use crate::args::builders::decl_names;
use crate::app::AppView;
use crate::app::is_positional;
use crate::app::registered;
use crate::app::position_of;
use crate::preflight::check_positionals;
use crate::preflight::help_flag;
use crate::preflight::version_flag;
use crate::names::distinct;
use crate::names::lemma_with_distinct;
use crate::names::lemma_with_all_distinct;
use crate::names::lemma_sorted_with_all_ascending;
use crate::args::builders::decl_formed;
use crate::args::builders::store_formed;
use crate::app::listed;
use crate::text::ascending;
use crate::text::slot_of;
use crate::text::lemma_slot_of;
use crate::text::lemma_slot_keeps_ascending;
use crate::text::text_lt;
use crate::text::lemma_slot_of_is;
use crate::text::lemma_text_lt_irreflexive;
use crate::text::lemma_text_lt_transitive;
use crate::args::group::GroupView;
use crate::app::all_names;
use crate::app::declared;
use crate::app::named_apart;
use crate::app::sound;
use crate::app::well_formed;
use crate::app::ascending_indices;
use crate::app::groups_apart;
use crate::app::app_names;
use crate::app::sub_by_name;
use crate::app::put_sub;
use crate::app::group_by_name;
use crate::app::groups_with;
use crate::app::groups_with_member;

verus! {

/// A list that holds at some place is found to hold at that place or before.
pub proof fn lemma_hit(hits: Seq<bool>, i: int)
    requires
        0 <= i < hits.len(),
        hits[i],
    ensures
        0 <= first_true(hits) <= i,
{
    lemma_first_true(hits);
}

/// A store kept by name holds an entry after it was put there.
pub proof fn lemma_put_by_name_holds(store: Seq<Decl>, d: Decl)
    ensures
        by_name(put_by_name(store, d), d.name) < put_by_name(store, d).len(),
        d.short is Some ==> by_short(put_by_name(store, d), d.short->0) < put_by_name(
            store,
            d,
        ).len(),
        d.long is Some ==> by_long(put_by_name(store, d), d.long->0) < put_by_name(store, d).len(),
{
    let out = put_by_name(store, d);
    lemma_first_true(Seq::new(store.len(), |i: int| store[i].name == d.name));
    crate::text::lemma_slot_of(decl_names(store), d.name);
    let at = if by_name(store, d.name) < store.len() {
        by_name(store, d.name)
    } else {
        crate::text::slot_of(decl_names(store), d.name) as int
    };
    assert(out[at] == d);
    lemma_hit(Seq::new(out.len(), |i: int| out[i].name == d.name), at);
    if d.short is Some {
        lemma_hit(Seq::new(out.len(), |i: int| out[i].short == Some(d.short->0)), at);
    }
    if d.long is Some {
        lemma_hit(Seq::new(out.len(), |i: int| out[i].long == Some(d.long->0)), at);
    }
}

/// A store kept by index holds an entry after it was put there.
pub proof fn lemma_put_by_index_holds(store: Seq<Decl>, d: Decl)
    ensures
        by_name(put_by_index(store, d), d.name) < put_by_index(store, d).len(),
        by_index(put_by_index(store, d), d.index as int) < put_by_index(store, d).len(),
{
    let out = put_by_index(store, d);
    lemma_first_true(Seq::new(store.len(), |i: int| store[i].index >= d.index as int));
    let at = index_slot(store, d.index as int);
    assert(out[at] == d);
    lemma_hit(Seq::new(out.len(), |i: int| out[i].name == d.name), at);
    lemma_hit(Seq::new(out.len(), |i: int| out[i].index == d.index as int), at);
}

/// Uniqueness: once a declaration is registered, no declaration with the
/// same name, the same short form or the same long form can be.
pub proof fn lemma_duplicates_rejected(app: AppView, a: ArgView, b: ArgView)
    requires
        app.check(a) is Ok,
        b.name == a.name || (a.short is Some && b.short == a.short) || (a.long is Some && b.long
            == a.long),
    ensures
        app.with_arg(a).check(b) is Err,
        b.name == a.name ==> app.with_arg(a).check(b) == Err::<(), SchemaError>(
            SchemaError::DuplicateName,
        ),
        app.with_arg(a).check(b) == Err::<(), SchemaError>(SchemaError::DuplicateName)
            || app.with_arg(a).check(b) == Err::<(), SchemaError>(SchemaError::DuplicateShort)
            || app.with_arg(a).check(b) == Err::<(), SchemaError>(SchemaError::DuplicateLong),
{
    let after = app.with_arg(a);
    if is_positional(a) {
        let d = registered(a, position_of(a, app.positionals.len()) as u8);
        lemma_put_by_index_holds(app.positionals, d);
        assert(after.has_name(a.name));
    } else if a.takes_value {
        lemma_put_by_name_holds(app.opts, registered(a, 0));
        assert(after.has_name(a.name));
    } else {
        lemma_put_by_name_holds(app.flags, registered(a, 0));
        assert(after.has_name(a.name));
    }
}

/// Contiguity: the positionals of a command are in order only if every
/// position from 1 to their number is taken, and no other.
pub proof fn lemma_positions_without_gap(pos: Seq<Decl>)
    requires
        check_positionals(pos) is Ok,
    ensures
        forall|k: int| 1 <= k <= pos.len() ==> by_index(pos, k) < pos.len(),
        forall|i: int| 0 <= i < pos.len() ==> 1 <= (#[trigger] pos[i]).index <= pos.len(),
{
    assert forall|k: int| 1 <= k <= pos.len() implies by_index(pos, k) < pos.len() by {
        assert(pos[k - 1].index == k);
        lemma_hit(Seq::new(pos.len(), |i: int| pos[i].index == k), k - 1);
    }
}

/// Contiguity: positionals kept in ascending order of their positions, of
/// which the last has a position beyond their number, are not in order.
pub proof fn lemma_gap_rejected(pos: Seq<Decl>)
    requires
        pos.len() > 0,
        pos.last().index != pos.len(),
    ensures
        check_positionals(pos) == Err::<(), SchemaError>(SchemaError::PositionalGap),
{
    assert(pos[pos.len() - 1].index != pos.len() - 1 + 1);
}

/// A command has a name exactly when the name is among those of its arguments.
pub proof fn lemma_has_name(p: AppView, n: Text)
    ensures
        p.has_name(n) <==> all_names(p).contains(n),
{
    let f = decl_names(p.flags);
    let o = decl_names(p.opts);
    let q = decl_names(p.positionals);
    let all = all_names(p);
    lemma_first_true(Seq::new(p.flags.len(), |i: int| p.flags[i].name == n));
    lemma_first_true(Seq::new(p.opts.len(), |i: int| p.opts[i].name == n));
    lemma_first_true(Seq::new(p.positionals.len(), |i: int| p.positionals[i].name == n));
    if by_name(p.flags, n) < p.flags.len() {
        assert(all[by_name(p.flags, n)] == n);
    } else if by_name(p.opts, n) < p.opts.len() {
        assert(all[f.len() + by_name(p.opts, n)] == n);
    } else if by_name(p.positionals, n) < p.positionals.len() {
        assert(all[f.len() + o.len() + by_name(p.positionals, n)] == n);
    }
    if all.contains(n) {
        let i = choose|i: int| 0 <= i < all.len() && all[i] == n;
        if i < f.len() {
            assert(p.flags[i].name == n);
            lemma_hit(Seq::new(p.flags.len(), |i: int| p.flags[i].name == n), i);
        } else if i < f.len() + o.len() {
            assert(p.opts[i - f.len()].name == n);
            lemma_hit(Seq::new(p.opts.len(), |i: int| p.opts[i].name == n), i - f.len());
        } else {
            assert(p.positionals[i - f.len() - o.len()].name == n);
            lemma_hit(
                Seq::new(p.positionals.len(), |i: int| p.positionals[i].name == n),
                i - f.len() - o.len(),
            );
        }
    }
}

/// Where no two arguments have one name, the names tell the arguments apart.
pub proof fn lemma_names_tell_apart(p: AppView)
    requires
        distinct(all_names(p)),
    ensures
        named_apart(p),
{
    let f = decl_names(p.flags);
    let o = decl_names(p.opts);
    let all = all_names(p);
    assert forall|d1: Decl, d2: Decl|
        #[trigger] declared(p, d1) && #[trigger] declared(p, d2) && d1.name == d2.name implies d1
        == d2 by {
        let i1 = place_of(p, d1);
        let i2 = place_of(p, d2);
        lemma_place_of(p, d1);
        lemma_place_of(p, d2);
        if i1 != i2 {
            if i1 < i2 {
                assert(all[i1] != all[i2]);
            } else {
                assert(all[i2] != all[i1]);
            }
        }
    }
}

/// A place of the argument `d` among all arguments of `p`.
pub open spec fn place_of(p: AppView, d: Decl) -> int {
    if exists|k: int| 0 <= k < p.flags.len() && #[trigger] p.flags[k] == d {
        choose|k: int| 0 <= k < p.flags.len() && #[trigger] p.flags[k] == d
    } else if exists|k: int| 0 <= k < p.opts.len() && #[trigger] p.opts[k] == d {
        p.flags.len() + choose|k: int| 0 <= k < p.opts.len() && #[trigger] p.opts[k] == d
    } else {
        p.flags.len() + p.opts.len() + choose|k: int|
            0 <= k < p.positionals.len() && #[trigger] p.positionals[k] == d
    }
}

/// At its place among all arguments an argument has its name, and its
/// place tells which argument it is.
pub proof fn lemma_place_of(p: AppView, d: Decl)
    requires
        declared(p, d),
    ensures
        0 <= place_of(p, d) < all_names(p).len(),
        all_names(p)[place_of(p, d)] == d.name,
        place_of(p, d) < p.flags.len() ==> p.flags[place_of(p, d)] == d,
        p.flags.len() <= place_of(p, d) < p.flags.len() + p.opts.len() ==> p.opts[place_of(p, d)
            - p.flags.len()] == d,
        p.flags.len() + p.opts.len() <= place_of(p, d) ==> p.positionals[place_of(p, d)
            - p.flags.len() - p.opts.len()] == d,
{
}

/// A list without repetition stays one when a name that it does not hold
/// is put into it.
pub proof fn lemma_distinct_insert(s: Seq<Text>, at: int, x: Text)
    requires
        distinct(s),
        !s.contains(x),
        0 <= at <= s.len(),
    ensures
        distinct(s.insert(at, x)),
{
    let t = s.insert(at, x);
    assert forall|i: int, j: int| 0 <= i < j < t.len() implies #[trigger] t[i] != #[trigger] t[j] by {
        if i == at {
            assert(t[j] == s[j - 1]);
            assert(s.contains(s[j - 1]));
        } else if j == at {
            assert(t[i] == s[i]);
            assert(s.contains(s[i]));
        } else {
            let oi = if i < at {
                i
            } else {
                i - 1
            };
            let oj = if j < at {
                j
            } else {
                j - 1
            };
            assert(t[i] == s[oi] && t[j] == s[oj]);
        }
    }
}

/// A command with a name and nothing else is well formed.
pub proof fn lemma_empty_well_formed(n: Text)
    ensures
        well_formed(AppView::empty(n)),
{
    reveal(well_formed);
    let p = AppView::empty(n);
    assert(all_names(p) =~= Seq::<Text>::empty());
}

/// A store kept by name, in ascending order, stays so when an entry with
/// a new name is put into it, and its names are the old ones with the new
/// one at its place.
pub proof fn lemma_put_new_name(store: Seq<Decl>, d: Decl)
    requires
        ascending(decl_names(store)),
        by_name(store, d.name) == store.len(),
    ensures
        ascending(decl_names(put_by_name(store, d))),
        decl_names(put_by_name(store, d)) == decl_names(store).insert(
            slot_of(decl_names(store), d.name) as int,
            d.name,
        ),
        slot_of(decl_names(store), d.name) <= store.len(),
        !decl_names(store).contains(d.name),
{
    let names = decl_names(store);
    let hits = Seq::new(store.len(), |i: int| store[i].name == d.name);
    lemma_first_true(hits);
    assert(!names.contains(d.name)) by {
        if names.contains(d.name) {
            let i = choose|i: int| 0 <= i < names.len() && names[i] == d.name;
            assert(hits[i]);
        }
    }
    lemma_slot_of(names, d.name);
    lemma_slot_keeps_ascending(names, d.name);
    assert(decl_names(put_by_name(store, d)) =~= names.insert(
        slot_of(names, d.name) as int,
        d.name,
    ));
}

/// A store kept by position, in ascending order, stays so when an entry
/// with a new position is put into it, and its names are the old ones
/// with the new one at its place.
pub proof fn lemma_put_new_index(store: Seq<Decl>, d: Decl)
    requires
        ascending_indices(store),
        by_index(store, d.index as int) == store.len(),
    ensures
        ascending_indices(put_by_index(store, d)),
        decl_names(put_by_index(store, d)) == decl_names(store).insert(
            index_slot(store, d.index as int),
            d.name,
        ),
        0 <= index_slot(store, d.index as int) <= store.len(),
{
    let hits = Seq::new(store.len(), |i: int| store[i].index >= d.index as int);
    let same = Seq::new(store.len(), |i: int| store[i].index == d.index as int);
    lemma_first_true(hits);
    lemma_first_true(same);
    let at = index_slot(store, d.index as int);
    let out = put_by_index(store, d);
    assert(decl_names(out) =~= decl_names(store).insert(at, d.name));
    assert forall|i: int, j: int| 0 <= i < j < out.len() implies (#[trigger] out[i]).index < (
    #[trigger] out[j]).index by {
        let oi = if i < at {
            i
        } else {
            i - 1
        };
        let oj = if j < at {
            j
        } else {
            j - 1
        };
        if i == at {
            assert(out[j] == store[oj]);
            assert(hits[at]);
            if oj > at {
                assert(store[at].index < store[oj].index);
            }
            assert(!same[oj]);
        } else if j == at {
            assert(out[i] == store[oi]);
            assert(!hits[oi]);
        } else {
            assert(out[i] == store[oi] && out[j] == store[oj]);
        }
    }
}

/// A name that no argument of a command has is in none of its stores.
pub proof fn lemma_new_name(app: AppView, n: Text)
    requires
        !app.has_name(n),
    ensures
        !all_names(app).contains(n),
        by_name(app.flags, n) == app.flags.len(),
        by_name(app.opts, n) == app.opts.len(),
        by_name(app.positionals, n) == app.positionals.len(),
{
    lemma_has_name(app, n);
    lemma_first_true(Seq::new(app.flags.len(), |i: int| app.flags[i].name == n));
    lemma_first_true(Seq::new(app.opts.len(), |i: int| app.opts[i].name == n));
    lemma_first_true(Seq::new(app.positionals.len(), |i: int| app.positionals[i].name == n));
}

/// Registering an accepted declaration keeps the names of the arguments
/// apart and the stores in their order.
pub proof fn lemma_with_arg_names(app: AppView, a: ArgView)
    requires
        distinct(all_names(app)),
        ascending(decl_names(app.flags)),
        ascending(decl_names(app.opts)),
        ascending_indices(app.positionals),
        app.check(a) is Ok,
    ensures
        distinct(all_names(app.with_arg(a))),
        ascending(decl_names(app.with_arg(a).flags)),
        ascending(decl_names(app.with_arg(a).opts)),
        ascending_indices(app.with_arg(a).positionals),
{
    let after = app.with_arg(a);
    lemma_new_name(app, a.name);
    let f = decl_names(app.flags);
    let o = decl_names(app.opts);
    if is_positional(a) {
        let d = registered(a, position_of(a, app.positionals.len()) as u8);
        assert(d.index as int == position_of(a, app.positionals.len()));
        lemma_first_true(
            Seq::new(app.positionals.len(), |i: int| app.positionals[i].index == d.index as int),
        );
        lemma_put_new_index(app.positionals, d);
        let at = index_slot(app.positionals, d.index as int);
        assert(all_names(after) =~= all_names(app).insert(f.len() + o.len() + at, a.name));
        lemma_distinct_insert(all_names(app), f.len() + o.len() + at, a.name);
    } else if a.takes_value {
        let d = registered(a, 0);
        lemma_put_new_name(app.opts, d);
        let at = slot_of(o, a.name) as int;
        assert(all_names(after) =~= all_names(app).insert(f.len() + at, a.name));
        lemma_distinct_insert(all_names(app), f.len() + at, a.name);
    } else {
        let d = registered(a, 0);
        lemma_put_new_name(app.flags, d);
        let at = slot_of(f, a.name) as int;
        assert(all_names(after) =~= all_names(app).insert(at, a.name));
        lemma_distinct_insert(all_names(app), at, a.name);
    }
}

/// Registering an accepted declaration keeps the lists of a command well.
pub proof fn lemma_with_arg_lists(app: AppView, a: ArgView)
    requires
        groups_apart(app),
        distinct(app.required),
        store_formed(app.flags),
        store_formed(app.opts),
        store_formed(app.positionals),
    ensures
        groups_apart(app.with_arg(a)),
        distinct(app.with_arg(a).required),
        app.with_arg(a).blacklist == app.blacklist,
        app.with_arg(a).subcommands == app.subcommands,
        store_formed(app.with_arg(a).flags),
        store_formed(app.with_arg(a).opts),
        store_formed(app.with_arg(a).positionals),
{
    lemma_with_distinct(app.required, a.name);
    lemma_registered_formed(a, 0);
    lemma_registered_formed(a, position_of(a, app.positionals.len()) as u8);
    lemma_put_formed(app, registered(a, 0));
    lemma_put_formed(app, registered(a, position_of(a, app.positionals.len()) as u8));
    match a.group {
        Some(g) => {
            lemma_groups_with_member_apart(app.groups, g, a.name);
        },
        None => {},
    }
}

/// Registering a declaration that is accepted keeps a command well formed.
pub proof fn lemma_with_arg_well_formed(app: AppView, a: ArgView)
    requires
        well_formed(app),
        app.check(a) is Ok,
    ensures
        well_formed(app.with_arg(a)),
{
    reveal(well_formed);
    lemma_with_arg_names(app, a);
    lemma_with_arg_lists(app, a);
}

/// The lists of a registered declaration are as a command keeps them.
pub proof fn lemma_registered_formed(a: ArgView, index: u8)
    ensures
        decl_formed(registered(a, index)),
{
    lemma_with_all_distinct(Seq::empty(), listed(a.blacklist));
    lemma_with_all_distinct(Seq::empty(), listed(a.requires));
    lemma_sorted_with_all_ascending(Seq::empty(), listed(a.possible_vals));
}

/// Putting an entry whose lists are well kept into a store of such entries
/// gives a store of such entries.
pub proof fn lemma_put_formed(app: AppView, d: Decl)
    requires
        decl_formed(d),
    ensures
        store_formed(app.flags) ==> store_formed(put_by_name(app.flags, d)),
        store_formed(app.opts) ==> store_formed(put_by_name(app.opts, d)),
        store_formed(app.positionals) ==> store_formed(put_by_index(app.positionals, d)),
{
    lemma_put_keeps_formed(app.flags, d);
    lemma_put_keeps_formed(app.opts, d);
    let pos = app.positionals;
    lemma_first_true(Seq::new(pos.len(), |i: int| pos[i].index >= d.index as int));
    let at = index_slot(pos, d.index as int);
    let out = put_by_index(pos, d);
    if store_formed(pos) {
        assert forall|i: int| 0 <= i < out.len() implies decl_formed(#[trigger] out[i]) by {
            if i < at {
                assert(out[i] == pos[i]);
            } else if i > at {
                assert(out[i] == pos[i - 1]);
            }
        }
    }
}

/// Putting an entry whose lists are well kept into a store kept by name
/// keeps the lists of the store well.
pub proof fn lemma_put_keeps_formed(store: Seq<Decl>, d: Decl)
    requires
        decl_formed(d),
    ensures
        store_formed(store) ==> store_formed(put_by_name(store, d)),
{
    lemma_first_true(Seq::new(store.len(), |i: int| store[i].name == d.name));
    lemma_slot_of(decl_names(store), d.name);
    let out = put_by_name(store, d);
    if store_formed(store) {
        assert forall|i: int| 0 <= i < out.len() implies decl_formed(#[trigger] out[i]) by {
            if by_name(store, d.name) < store.len() {
                if i != by_name(store, d.name) {
                    assert(out[i] == store[i]);
                }
            } else {
                let at = slot_of(decl_names(store), d.name) as int;
                if i < at {
                    assert(out[i] == store[i]);
                } else if i > at {
                    assert(out[i] == store[i - 1]);
                }
            }
        }
    }
}

/// Putting a member into a group keeps the groups told apart.
pub proof fn lemma_groups_with_member_apart(groups: Seq<GroupView>, g: Text, member: Text)
    requires
        forall|i: int, j: int|
            0 <= i < j < groups.len() ==> (#[trigger] groups[i]).name != (#[trigger] groups[j]).name,
    ensures
        forall|i: int, j: int|
            0 <= i < j < groups_with_member(groups, g, member).len() ==> (
            #[trigger] groups_with_member(groups, g, member)[i]).name != (
            #[trigger] groups_with_member(groups, g, member)[j]).name,
{
    let out = groups_with_member(groups, g, member);
    let hits = Seq::new(groups.len(), |i: int| groups[i].name == g);
    lemma_first_true(hits);
    assert forall|i: int, j: int| 0 <= i < j < out.len() implies (#[trigger] out[i]).name != (
    #[trigger] out[j]).name by {
        if group_by_name(groups, g) < groups.len() {
            assert(out[i].name == groups[i].name);
            assert(out[j].name == groups[j].name);
        } else if j == groups.len() {
            assert(!hits[i]);
            assert(out[i] == groups[i]);
        } else {
            assert(out[i] == groups[i] && out[j] == groups[j]);
        }
    }
}

/// Adding a group keeps a command well formed.
pub proof fn lemma_with_group_well_formed(app: AppView, g: GroupView)
    requires
        well_formed(app),
    ensures
        well_formed(app.with_group(g)),
{
    reveal(well_formed);
    let groups = app.groups;
    let out = groups_with(groups, g);
    let hits = Seq::new(groups.len(), |i: int| groups[i].name == g.name);
    lemma_first_true(hits);
    assert forall|i: int, j: int| 0 <= i < j < out.len() implies (#[trigger] out[i]).name != (
    #[trigger] out[j]).name by {
        if group_by_name(groups, g.name) < groups.len() {
            assert(out[i].name == groups[i].name);
            assert(out[j].name == groups[j].name);
        } else if j == groups.len() {
            assert(!hits[i]);
            assert(out[i] == groups[i]);
        } else {
            assert(out[i] == groups[i] && out[j] == groups[j]);
        }
    }
    let after = app.with_group(g);
    assert(all_names(after) == all_names(app));
    assert(after.subcommands == app.subcommands);
    lemma_with_distinct(app.required, g.name);
    lemma_with_all_distinct(crate::names::with(app.required, g.name), g.requires);
    lemma_with_all_distinct(app.blacklist, g.conflicts);
}

/// Adding a well formed subcommand keeps a command well formed.
pub proof fn lemma_with_subcommand_well_formed(app: AppView, sub: AppView)
    requires
        well_formed(app),
        well_formed(sub),
    ensures
        well_formed(app.with_subcommand(sub)),
{
    reveal(well_formed);
    let subs = app.subcommands;
    let names = app_names(subs);
    let out = put_sub(subs, sub);
    let hits = Seq::new(subs.len(), |i: int| subs[i].name == sub.name);
    lemma_first_true(hits);
    lemma_slot_of(names, sub.name);
    if sub_by_name(subs, sub.name) < subs.len() {
        assert(app_names(out) =~= names);
    } else {
        assert(!names.contains(sub.name)) by {
            if names.contains(sub.name) {
                let i = choose|i: int| 0 <= i < names.len() && names[i] == sub.name;
                assert(hits[i]);
            }
        }
        lemma_slot_keeps_ascending(names, sub.name);
        assert(app_names(out) =~= names.insert(slot_of(names, sub.name) as int, sub.name));
    }
    let after = app.with_subcommand(sub);
    assert(all_names(after) == all_names(app));
    assert forall|i: int| 0 <= i < out.len() implies well_formed(#[trigger] out[i]) by {
        if sub_by_name(subs, sub.name) < subs.len() {
            if i != sub_by_name(subs, sub.name) {
                assert(out[i] == subs[i]);
            }
        } else {
            let at = slot_of(names, sub.name) as int;
            if i < at {
                assert(out[i] == subs[i]);
            } else if i > at {
                assert(out[i] == subs[i - 1]);
            }
        }
    }
}

/// Whether the names of the automatic flags are free: no option and no
/// positional of `p` has one of them.
pub open spec fn reserved_free(p: AppView) -> bool {
    &&& by_name(p.opts, "hclap_help"@) == p.opts.len()
    &&& by_name(p.positionals, "hclap_help"@) == p.positionals.len()
    &&& by_name(p.opts, "vclap_version"@) == p.opts.len()
    &&& by_name(p.positionals, "vclap_version"@) == p.positionals.len()
}

/// Putting a flag into the flags of a command, where no option and no
/// positional has its name, keeps the names of the arguments apart.
pub proof fn lemma_put_flag_distinct(p: AppView, d: Decl)
    requires
        distinct(all_names(p)),
        by_name(p.opts, d.name) == p.opts.len(),
        by_name(p.positionals, d.name) == p.positionals.len(),
    ensures
        distinct(all_names(AppView { flags: put_by_name(p.flags, d), ..p })),
{
    let after = AppView { flags: put_by_name(p.flags, d), ..p };
    let f = decl_names(p.flags);
    lemma_first_true(Seq::new(p.flags.len(), |i: int| p.flags[i].name == d.name));
    lemma_has_name(p, d.name);
    if by_name(p.flags, d.name) < p.flags.len() {
        assert(decl_names(after.flags) =~= f);
        assert(all_names(after) =~= all_names(p));
    } else {
        let at = slot_of(f, d.name) as int;
        lemma_slot_of(f, d.name);
        assert(decl_names(after.flags) =~= f.insert(at, d.name));
        assert(all_names(after) =~= all_names(p).insert(at, d.name));
        lemma_distinct_insert(all_names(p), at, d.name);
    }
}

/// A well formed command in which the names of the automatic flags are
/// free is, once prepared, a command in which no two arguments have one
/// name, nor two groups, and which requires and excludes no name twice:
/// the laws of parsing hold of it.
pub proof fn lemma_prepared_sound(app: AppView)
    requires
        well_formed(app),
        reserved_free(app),
    ensures
        distinct(all_names(app.prepared())),
        sound(app.prepared()),
        distinct(app.prepared().required),
        distinct(app.prepared().blacklist),
{
    reveal(well_formed);
    lemma_with_all_distinct(app.required, crate::preflight::prefix_names(app.positionals));
    reveal_strlit("hclap_help");
    reveal_strlit("vclap_version");
    let a = app.propagated();
    assert(decl_names(a.positionals) =~= decl_names(app.positionals));
    assert(all_names(a) =~= all_names(app));
    let h = help_flag(a.needs_short_help);
    let v = version_flag(a.needs_short_version);
    assert(Seq::new(a.positionals.len(), |i: int| a.positionals[i].name == h.name) =~= Seq::new(
        app.positionals.len(),
        |i: int| app.positionals[i].name == h.name,
    ));
    assert(Seq::new(a.positionals.len(), |i: int| a.positionals[i].name == v.name) =~= Seq::new(
        app.positionals.len(),
        |i: int| app.positionals[i].name == v.name,
    ));
    let b = if a.needs_long_help {
        AppView { flags: put_by_name(a.flags, h), ..a }
    } else {
        a
    };
    if a.needs_long_help {
        lemma_put_flag_distinct(a, h);
    }
    let c = if a.needs_long_version {
        AppView { flags: put_by_name(b.flags, v), ..b }
    } else {
        b
    };
    if a.needs_long_version {
        lemma_put_flag_distinct(b, v);
    }
    let p = app.prepared();
    assert(p.flags == c.flags);
    assert(all_names(p) == all_names(c));
    lemma_names_tell_apart(p);
}

/// A flag whose name comes after the names of all flags of a store goes
/// to the end of the store.
pub proof fn lemma_put_last(store: Seq<Decl>, d: Decl)
    requires
        forall|k: int| 0 <= k < store.len() ==> text_lt((#[trigger] store[k]).name, d.name),
    ensures
        put_by_name(store, d) == store.push(d),
{
    let names = decl_names(store);
    let hits = Seq::new(store.len(), |i: int| store[i].name == d.name);
    assert forall|i: int| 0 <= i < hits.len() implies !hits[i] by {
        lemma_text_lt_irreflexive(d.name);
        assert(text_lt(store[i].name, d.name));
    }
    lemma_first_true(hits);
    assert forall|i: int| 0 <= i < names.len() implies text_lt(#[trigger] names[i], d.name) by {
        assert(text_lt(store[i].name, d.name));
    }
    lemma_slot_of_is(names, d.name, names.len());
    assert(store.insert(store.len() as int, d) =~= store.push(d));
}

/// The flags of a command come first: where the name of every flag of a
/// command comes before the names of the automatic flags, the prepared
/// command has its own flags in their order, then the help flag, and then
/// the version flag.
pub proof fn lemma_own_flags_first(app: AppView)
    requires
        app.needs_long_help,
        app.needs_long_version,
        forall|k: int|
            0 <= k < app.flags.len() ==> text_lt((#[trigger] app.flags[k]).name, "hclap_help"@),
    ensures
        app.prepared().flags == app.flags.push(help_flag(app.needs_short_help)).push(
            version_flag(app.needs_short_version),
        ),
{
    reveal_strlit("hclap_help");
    reveal_strlit("vclap_version");
    let h = help_flag(app.needs_short_help);
    let v = version_flag(app.needs_short_version);
    assert(text_lt(h.name, v.name)) by {
        assert(h.name[0] == 'h');
        assert(v.name[0] == 'v');
        assert(('h' as u32) < ('v' as u32));
    }
    lemma_put_last(app.flags, h);
    let with_help = app.flags.push(h);
    assert forall|k: int| 0 <= k < with_help.len() implies text_lt(
        (#[trigger] with_help[k]).name,
        v.name,
    ) by {
        if k < app.flags.len() {
            assert(text_lt(app.flags[k].name, h.name));
            lemma_text_lt_transitive(app.flags[k].name, h.name, v.name);
        }
    }
    lemma_put_last(with_help, v);
}

} // verus!
