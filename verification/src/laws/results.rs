//! What holds of the matches of every successful parse.

use vstd::prelude::*;
use crate::text::Text;
use crate::search::lemma_first_true;
use crate::args::builders::Decl;
use crate::args::matches::has_entry;
use crate::app::AppView;
use crate::parser::ParseState;
use crate::parser::Stop;
use crate::parser::initial;
use crate::parser::run;
use crate::parser::parse;
use crate::parser::conclude;
use crate::parser::verdict;
use crate::parser::in_use;
use crate::parser::any_matched;
use crate::parser::satisfied;
use crate::parser::lifted;
use crate::parser::conflict_hits;
use crate::parser::missing_hits;
use crate::usage::usage_text;
use crate::app::sound;
use crate::laws::states::inv;
use crate::app::declared;
use crate::laws::states::excluded_by_match;
use crate::laws::states::lemma_initial_inv;
use crate::laws::states::lemma_group_found;
use crate::laws::schema::lemma_hit;
use crate::errors::ReasonView;
use crate::laws::walks::end_state;
use crate::laws::walks::lemma_run_keeps_inv;

verus! {

/// The walk of a parse of `app`: over the prepared command, from the
/// initial state.
pub open spec fn walk_of(app: AppView, tokens: Seq<Text>, from: nat) -> Stop {
    run(app.prepared(), initial(app.prepared()), tokens, from)
}

/// A parse that succeeds has walked to a state in which nothing is wrong,
/// and its matches are those of that state.
pub proof fn lemma_parse_ok(app: AppView, tokens: Seq<Text>, from: nat)
    requires
        parse(app, tokens, from) is Ok,
    ensures
        !(walk_of(app, tokens, from) is Halt),
        verdict(app.prepared(), end_state(walk_of(app, tokens, from))) is None,
        parse(app, tokens, from)->Ok_0.args == end_state(walk_of(app, tokens, from)).matches,
        parse(app, tokens, from)->Ok_0.usage == Some(
            usage_text(app.prepared(), end_state(walk_of(app, tokens, from)).matched_reqs),
        ),
{
    let p = app.prepared();
    let stop = walk_of(app, tokens, from);
    assert(parse(app, tokens, from) == conclude(p, stop, tokens, from));
}

/// In a state in which nothing is wrong no excluded name is in use and
/// every required name is satisfied.
pub proof fn lemma_nothing_wrong(p: AppView, st: ParseState)
    requires
        verdict(p, st) is None,
    ensures
        forall|x: Text| #[trigger] st.blacklist.contains(x) ==> !in_use(p, st.matches, x),
        forall|n: Text| #[trigger] st.required.contains(n) ==> satisfied(p, st.matches, n),
        st.needs_val_of is None,
{
    lemma_first_true(conflict_hits(p, st));
    lemma_first_true(missing_hits(p, st));
    assert forall|x: Text| #[trigger] st.blacklist.contains(x) implies !in_use(p, st.matches, x) by {
        let i = choose|i: int| 0 <= i < st.blacklist.len() && st.blacklist[i] == x;
        assert(!conflict_hits(p, st)[i]);
    }
    assert forall|n: Text| #[trigger] st.required.contains(n) implies satisfied(
        p,
        st.matches,
        n,
    ) by {
        let i = choose|i: int| 0 <= i < st.required.len() && st.required[i] == n;
        assert(!missing_hits(p, st)[i]);
    }
}

/// The state a successful parse ended in is as every state of a parse is.
pub proof fn lemma_parse_inv(app: AppView, tokens: Seq<Text>, from: nat)
    requires
        sound(app.prepared()),
        parse(app, tokens, from) is Ok,
    ensures
        inv(app.prepared(), end_state(walk_of(app, tokens, from))),
{
    let p = app.prepared();
    lemma_parse_ok(app, tokens, from);
    lemma_initial_inv(p);
    lemma_run_keeps_inv(p, initial(p), tokens, from);
}

/// Conflicts hold in both directions: where an argument of the command
/// excludes a name, no successful parse has matched both, in whatever
/// order they were supplied.
pub proof fn lemma_conflicting_not_both(app: AppView, tokens: Seq<Text>, from: nat, a: Decl, b: Text)
    requires
        sound(app.prepared()),
        parse(app, tokens, from) is Ok,
        declared(app.prepared(), a),
        a.blacklist.contains(b),
    ensures
        !(has_entry(parse(app, tokens, from)->Ok_0.args, a.name) && has_entry(
            parse(app, tokens, from)->Ok_0.args,
            b,
        )),
{
    let p = app.prepared();
    let st = end_state(walk_of(app, tokens, from));
    lemma_parse_ok(app, tokens, from);
    lemma_parse_inv(app, tokens, from);
    lemma_nothing_wrong(p, st);
    if has_entry(st.matches, a.name) && has_entry(st.matches, b) {
        assert(st.blacklist.contains(b));
        assert(in_use(p, st.matches, b));
    }
}

/// Groups are exclusive: no successful parse has matched two members of
/// one group.
pub proof fn lemma_group_exclusive(app: AppView, tokens: Seq<Text>, from: nat, k: int, x: Text, y: Text)
    requires
        sound(app.prepared()),
        parse(app, tokens, from) is Ok,
        0 <= k < app.prepared().groups.len(),
        app.prepared().groups[k].args.contains(x),
        app.prepared().groups[k].args.contains(y),
        x != y,
    ensures
        !(has_entry(parse(app, tokens, from)->Ok_0.args, x) && has_entry(
            parse(app, tokens, from)->Ok_0.args,
            y,
        )),
{
    let p = app.prepared();
    let st = end_state(walk_of(app, tokens, from));
    lemma_parse_ok(app, tokens, from);
    lemma_parse_inv(app, tokens, from);
    lemma_nothing_wrong(p, st);
    if has_entry(st.matches, x) && has_entry(st.matches, y) {
        assert(st.blacklist.contains(y));
        assert(in_use(p, st.matches, y));
    }
}

/// What is required is enforced: after a successful parse every name that
/// the command requires is in use, or its requirement is lifted, or it is
/// excluded, by the command or by a match.
pub proof fn lemma_required_enforced(app: AppView, tokens: Seq<Text>, from: nat, n: Text)
    requires
        sound(app.prepared()),
        parse(app, tokens, from) is Ok,
        app.prepared().required.contains(n),
    ensures
        satisfied(app.prepared(), parse(app, tokens, from)->Ok_0.args, n)
            || app.prepared().blacklist.contains(n) || excluded_by_match(
            app.prepared(),
            parse(app, tokens, from)->Ok_0.args,
            n,
        ),
{
    let p = app.prepared();
    let st = end_state(walk_of(app, tokens, from));
    lemma_parse_ok(app, tokens, from);
    lemma_parse_inv(app, tokens, from);
    lemma_nothing_wrong(p, st);
    if st.required.contains(n) {
        assert(satisfied(p, st.matches, n));
    } else if st.blacklist.contains(n) {
        assert(p.blacklist.contains(n) || excluded_by_match(p, st.matches, n));
    }
}

/// A required group asks for a member: after a successful parse a member
/// of a group that the command requires is matched, unless the name of the
/// group is itself matched, lifted or excluded.
pub proof fn lemma_required_group(app: AppView, tokens: Seq<Text>, from: nat, k: int)
    requires
        sound(app.prepared()),
        parse(app, tokens, from) is Ok,
        0 <= k < app.prepared().groups.len(),
        app.prepared().required.contains(app.prepared().groups[k].name),
        !has_entry(parse(app, tokens, from)->Ok_0.args, app.prepared().groups[k].name),
        !lifted(
            app.prepared(),
            parse(app, tokens, from)->Ok_0.args,
            app.prepared().groups[k].name,
        ),
        !app.prepared().blacklist.contains(app.prepared().groups[k].name),
        !excluded_by_match(
            app.prepared(),
            parse(app, tokens, from)->Ok_0.args,
            app.prepared().groups[k].name,
        ),
    ensures
        any_matched(parse(app, tokens, from)->Ok_0.args, app.prepared().groups[k].args),
{
    let p = app.prepared();
    lemma_required_enforced(app, tokens, from, p.groups[k].name);
    lemma_group_found(p, k);
}

/// A name that is excluded and in use is told as a conflict: where no
/// option waits for its value, that is what is wrong with the state.
pub proof fn lemma_conflict_told(p: AppView, st: ParseState, x: Text)
    requires
        st.needs_val_of is None,
        st.blacklist.contains(x),
        in_use(p, st.matches, x),
    ensures
        verdict(p, st) is Some,
        verdict(p, st)->0 is Conflict,
{
    let i = choose|i: int| 0 <= i < st.blacklist.len() && st.blacklist[i] == x;
    lemma_hit(conflict_hits(p, st), i);
}

/// Conflicts hold in both directions: a walk that has matched an argument
/// of the command and a name that the argument excludes, in whatever
/// order, ends in a state of which the verdict is a conflict, unless an
/// option still waits for its value.
pub proof fn lemma_conflict_either_order(
    app: AppView,
    tokens: Seq<Text>,
    from: nat,
    a: Decl,
    b: Text,
)
    requires
        sound(app.prepared()),
        !(walk_of(app, tokens, from) is Halt),
        end_state(walk_of(app, tokens, from)).needs_val_of is None,
        declared(app.prepared(), a),
        a.blacklist.contains(b),
        has_entry(end_state(walk_of(app, tokens, from)).matches, a.name),
        has_entry(end_state(walk_of(app, tokens, from)).matches, b),
    ensures
        parse(app, tokens, from) is Err,
        parse(app, tokens, from)->Err_0 is Failure,
        parse(app, tokens, from)->Err_0->reason is Conflict,
        parse(app, tokens, from)->Err_0.exit_code() == 1,
{
    let p = app.prepared();
    let st = end_state(walk_of(app, tokens, from));
    lemma_initial_inv(p);
    lemma_run_keeps_inv(p, initial(p), tokens, from);
    assert(st.blacklist.contains(b));
    lemma_conflict_told(p, st, b);
    assert(parse(app, tokens, from) == conclude(p, walk_of(app, tokens, from), tokens, from));
}

/// Groups are exclusive: a walk that has matched two members of one group
/// ends in a state of which the verdict is a conflict, unless an option
/// still waits for its value.
pub proof fn lemma_group_two_members(
    app: AppView,
    tokens: Seq<Text>,
    from: nat,
    k: int,
    x: Text,
    y: Text,
)
    requires
        sound(app.prepared()),
        !(walk_of(app, tokens, from) is Halt),
        end_state(walk_of(app, tokens, from)).needs_val_of is None,
        0 <= k < app.prepared().groups.len(),
        app.prepared().groups[k].args.contains(x),
        app.prepared().groups[k].args.contains(y),
        x != y,
        has_entry(end_state(walk_of(app, tokens, from)).matches, x),
        has_entry(end_state(walk_of(app, tokens, from)).matches, y),
    ensures
        parse(app, tokens, from) is Err,
        parse(app, tokens, from)->Err_0 is Failure,
        parse(app, tokens, from)->Err_0->reason is Conflict,
{
    let p = app.prepared();
    let st = end_state(walk_of(app, tokens, from));
    lemma_initial_inv(p);
    lemma_run_keeps_inv(p, initial(p), tokens, from);
    assert(st.blacklist.contains(y));
    lemma_conflict_told(p, st, y);
    assert(parse(app, tokens, from) == conclude(p, walk_of(app, tokens, from), tokens, from));
}

/// The required prefix is enforced: where a positional of the command is
/// required, after a successful parse every positional before it is in
/// use, or its requirement is lifted, or it is excluded.
pub proof fn lemma_required_prefix_enforced(
    app: AppView,
    tokens: Seq<Text>,
    from: nat,
    i: int,
    j: int,
)
    requires
        sound(app.prepared()),
        parse(app, tokens, from) is Ok,
        0 <= i < j < app.positionals.len(),
        app.positionals[j].required,
    ensures
        satisfied(app.prepared(), parse(app, tokens, from)->Ok_0.args, app.positionals[i].name)
            || app.prepared().blacklist.contains(app.positionals[i].name) || excluded_by_match(
            app.prepared(),
            parse(app, tokens, from)->Ok_0.args,
            app.positionals[i].name,
        ),
{
    crate::preflight::lemma_required_prefix(app, i, j);
    lemma_required_enforced(app, tokens, from, app.positionals[i].name);
}

} // verus!
