//! What holds of the values that options and positionals collect.

use vstd::prelude::*;
use crate::text::Text;
use crate::text::without_dashes;
use crate::text::lemma_leading_dashes;
use crate::text::lemma_find_from_is;
use crate::search::lemma_first_true;
use crate::search::lemma_first_true_is;
use crate::errors::ReasonView;
use crate::args::builders::Decl;
use crate::args::builders::by_name;
use crate::args::builders::by_long;
use crate::args::builders::by_index;
use crate::args::matches::EntryView;
use crate::args::matches::has_entry;
use crate::args::matches::entry_index;
use crate::args::matches::name_hits;
use crate::app::AppView;
use crate::parser::ParseState;
use crate::parser::Step;
use crate::parser::step;
use crate::parser::bare_step;
use crate::parser::long_name;
use crate::parser::long_value;
use crate::parser::option;
use crate::parser::positional;
use crate::parser::take_value;
use crate::parser::noted;
use crate::parser::add_unmatched;
use crate::parser::pos_seen;
use crate::parser::opt_seen;
use crate::parser::value_given;
use crate::parser::awaits_value;
use crate::parser::double_dashed;
use crate::parser::dashed;
use crate::parser::invalid_value;
use crate::laws::tracking::lemma_noted_blacklist;
use crate::laws::tracking::lemma_pos_seen;
use crate::laws::tokens::reach;

verus! {

/// The values that `name` has in `matches`; none where it is not matched
/// or has no values.
pub open spec fn values_in(matches: Seq<EntryView>, name: Text) -> Seq<Text> {
    if has_entry(matches, name) {
        match matches[entry_index(matches, name)].values {
            Some(vs) => vs,
            None => Seq::empty(),
        }
    } else {
        Seq::empty()
    }
}

/// Whether the entry of `name`, where there is one, is one with values.
pub open spec fn valued(matches: Seq<EntryView>, name: Text) -> bool {
    has_entry(matches, name) ==> matches[entry_index(matches, name)].values is Some
}

/// A positional that collects values takes a value by adding it to those
/// it has, and stays the positional whose turn it is.
pub proof fn lemma_multiple_takes(p: AppView, st: ParseState, d: Decl, tok: Text)
    requires
        d.multiple,
        valued(st.matches, d.name),
        positional(p, st, d, tok) is Next,
    ensures
        positional(p, st, d, tok)->Next_0.pos_counter == st.pos_counter,
        positional(p, st, d, tok)->Next_0.pos_only == st.pos_only,
        positional(p, st, d, tok)->Next_0.needs_val_of == st.needs_val_of,
        has_entry(positional(p, st, d, tok)->Next_0.matches, d.name),
        valued(positional(p, st, d, tok)->Next_0.matches, d.name),
        values_in(positional(p, st, d, tok)->Next_0.matches, d.name) == values_in(
            st.matches,
            d.name,
        ).push(tok),
{
    let seen = pos_seen(st.matches, d, tok);
    let st1 = ParseState { matches: seen, pos_counter: st.pos_counter, ..st };
    lemma_noted_blacklist(p, st1, d, d.name);
    lemma_pos_seen(st.matches, d, tok);
    lemma_first_true(name_hits(st.matches, d.name));
    let at = entry_index(st.matches, d.name);
    if at < st.matches.len() {
        assert(name_hits(seen, d.name) =~= name_hits(st.matches, d.name));
    } else {
        let hits = name_hits(seen, d.name);
        assert forall|i: int| 0 <= i < st.matches.len() implies !hits[i] by {
            assert(!name_hits(st.matches, d.name)[i]);
            assert(seen[i] == st.matches[i]);
        }
        lemma_first_true_is(hits, st.matches.len() as int);
        assert(seq![tok] =~= Seq::<Text>::empty().push(tok));
    }
}

/// Greed: once the turn is that of a positional that collects values,
/// every further token that is taken as a positional value is added to
/// the values of that positional, in order.
pub proof fn lemma_multiple_collects(p: AppView, st: ParseState, tokens: Seq<Text>, i: nat, k: nat)
    requires
        i <= k <= tokens.len(),
        st.needs_val_of is None,
        st.pos_only || forall|j: int| i <= j < k ==> !dashed(#[trigger] tokens[j]),
        by_index(p.positionals, st.pos_counter as int) < p.positionals.len(),
        p.positionals[by_index(p.positionals, st.pos_counter as int)].multiple,
        valued(
            st.matches,
            p.positionals[by_index(p.positionals, st.pos_counter as int)].name,
        ),
        reach(p, st, tokens, i, k) is Some,
    ensures
        reach(p, st, tokens, i, k)->0.pos_counter == st.pos_counter,
        values_in(
            reach(p, st, tokens, i, k)->0.matches,
            p.positionals[by_index(p.positionals, st.pos_counter as int)].name,
        ) == values_in(
            st.matches,
            p.positionals[by_index(p.positionals, st.pos_counter as int)].name,
        ) + tokens.subrange(i as int, k as int),
    decreases k - i,
{
    let d = p.positionals[by_index(p.positionals, st.pos_counter as int)];
    if i < k {
        let tok = tokens[i as int];
        assert(step(p, st, tok) == bare_step(p, st, tok)) by {
            reveal(step);
            assert(st.pos_only || !dashed(tokens[i as int]));
        }
        let st1 = step(p, st, tok)->Next_0;
        assert(step(p, st, tok) == positional(p, st, d, tok));
        lemma_multiple_takes(p, st, d, tok);
        lemma_multiple_collects(p, st1, tokens, i + 1, k);
        assert(values_in(st.matches, d.name).push(tok) + tokens.subrange(i as int + 1, k as int)
            =~= values_in(st.matches, d.name) + tokens.subrange(i as int, k as int));
    } else {
        assert(values_in(st.matches, d.name) + tokens.subrange(i as int, k as int) =~= values_in(
            st.matches,
            d.name,
        ));
    }
}

/// A long form written alone.
pub open spec fn long_token(long: Text) -> Text {
    "--"@ + long
}

/// A long form written with a value after an equals sign.
pub open spec fn inline_token(long: Text, v: Text) -> Text {
    "--"@ + long + "="@ + v
}

/// The parts of a long token: the name is what stands between the dashes
/// and the equals sign, the value what stands after it.
pub proof fn lemma_long_parts(long: Text, v: Text)
    requires
        long.len() > 0,
        long[0] != '-',
        !long.contains('='),
        !v.contains('='),
    ensures
        double_dashed(long_token(long)),
        long_token(long).len() > 2,
        long_name(long_token(long)) == long,
        long_value(long_token(long)) is None,
        double_dashed(inline_token(long, v)),
        inline_token(long, v).len() > 2,
        long_name(inline_token(long, v)) == long,
        long_value(inline_token(long, v)) == Some(v),
{
    reveal_strlit("--");
    reveal_strlit("=");
    let alone = long_token(long);
    lemma_leading_dashes(alone, 2);
    assert(without_dashes(alone) =~= long);
    assert forall|i: int| 0 <= i < long.len() implies long[i] != '=' by {
        if long[i] == '=' {
            assert(long.contains('='));
        }
    }
    lemma_find_from_is(long, '=', 0, long.len() as int);
    assert(long.take(long.len() as int) =~= long);
    let both = inline_token(long, v);
    lemma_leading_dashes(both, 2);
    let body = long + "="@ + v;
    assert(without_dashes(both) =~= body);
    lemma_find_from_is(body, '=', 0, long.len() as int);
    assert(body.take(long.len() as int) =~= long);
    assert forall|i: int| long.len() + 1 <= i < body.len() implies body[i] != '=' by {
        if body[i] == '=' {
            assert(v[i - long.len() - 1] == '=');
            assert(v.contains('='));
        }
    }
    lemma_find_from_is(body, '=', long.len() as int + 1, body.len() as int);
    assert(body.subrange(long.len() as int + 1, body.len() as int) =~= v);
}

/// `add_unmatched` looks at the matches only for what is matched.
pub proof fn lemma_add_unmatched_same(
    required: Seq<Text>,
    reqs: Seq<Text>,
    m1: Seq<EntryView>,
    m2: Seq<EntryView>,
)
    requires
        forall|n: Text| has_entry(m1, n) == has_entry(m2, n),
    ensures
        add_unmatched(required, reqs, m1) == add_unmatched(required, reqs, m2),
    decreases reqs.len(),
{
    if reqs.len() > 0 {
        lemma_add_unmatched_same(required, reqs.drop_last(), m1, m2);
    }
}

/// An option that got no value with its token and then the value `v` is
/// matched as an option that got `v` with its token.
pub proof fn lemma_value_then_given(matches: Seq<EntryView>, d: Decl, v: Text)
    requires
        has_entry(matches, d.name) ==> d.multiple,
    ensures
        value_given(opt_seen(matches, d, None), d, v) == opt_seen(matches, d, Some(v)),
        forall|n: Text|
            has_entry(opt_seen(matches, d, None), n) == has_entry(
                opt_seen(matches, d, Some(v)),
                n,
            ),
{
    let first = opt_seen(matches, d, None);
    let both = opt_seen(matches, d, Some(v));
    lemma_first_true(name_hits(matches, d.name));
    let at = entry_index(matches, d.name);
    if at < matches.len() {
        assert(first == matches);
        assert(value_given(first, d, v) =~= both);
    } else {
        let hits = name_hits(first, d.name);
        assert forall|i: int| 0 <= i < matches.len() implies !hits[i] by {
            assert(!name_hits(matches, d.name)[i]);
            assert(first[i] == matches[i]);
        }
        lemma_first_true_is(hits, matches.len() as int);
        assert(seq![v] =~= Seq::<Text>::empty().push(v));
        assert(value_given(first, d, v) =~= both);
    }
    assert forall|n: Text| has_entry(first, n) == has_entry(both, n) by {
        assert(name_hits(first, n) =~= name_hits(both, n));
    }
}

/// Value consumption: `--opt val` and `--opt=val` are one. The two tokens
/// are taken exactly when the one token is, and lead to the same state,
/// so to the same match entries.
pub proof fn lemma_inline_value(p: AppView, st: ParseState, long: Text, v: Text)
    requires
        st.needs_val_of is None,
        !st.pos_only,
        long.len() > 0,
        long[0] != '-',
        !long.contains('='),
        v.len() > 0,
        !v.contains('='),
        !(long == "help"@ && p.needs_long_help),
        !(long == "version"@ && p.needs_long_version),
        by_long(p.opts, long) < p.opts.len(),
        by_name(p.opts, p.opts[by_long(p.opts, long)].name) == by_long(p.opts, long),
    ensures
        step(p, st, inline_token(long, v)) is Next <==> (step(p, st, long_token(long)) is Next
            && step(p, step(p, st, long_token(long))->Next_0, v) is Next),
        step(p, st, inline_token(long, v)) is Next ==> step(
            p,
            step(p, st, long_token(long))->Next_0,
            v,
        ) == step(p, st, inline_token(long, v)),
{
    reveal(step);
    lemma_long_parts(long, v);
    let d = p.opts[by_long(p.opts, long)];
    let shown = "--"@ + long;
    assert(step(p, st, long_token(long)) == option(p, st, d, shown, None));
    assert(step(p, st, inline_token(long, v)) == option(p, st, d, shown, Some(v)));
    if !st.blacklist.contains(d.name) && !(has_entry(st.matches, d.name) && !d.multiple) {
        let a = ParseState {
            matches: opt_seen(st.matches, d, None),
            needs_val_of: Some(d.name),
            ..st
        };
        let b = ParseState {
            matches: opt_seen(st.matches, d, Some(v)),
            needs_val_of: None,
            ..st
        };
        let st1 = noted(p, a, d);
        assert(step(p, st, long_token(long)) == Step::Next(st1));
        lemma_noted_blacklist(p, a, d, d.name);
        assert(awaits_value(p, st1));
        assert(step(p, st1, v) == take_value(p, st1, d, v));
        lemma_value_then_given(st.matches, d, v);
        lemma_add_unmatched_same(
            crate::names::without_all(crate::names::without(st.required, d.name), d.blacklist),
            d.requires,
            a.matches,
            b.matches,
        );
        if !invalid_value(d, v) {
            assert(noted(p, b, d).matches == b.matches);
        }
    }
}

/// Value consumption: an option written with an equals sign and nothing
/// after it fails.
pub proof fn lemma_empty_value_fails(p: AppView, st: ParseState, long: Text)
    requires
        st.needs_val_of is None,
        !st.pos_only,
        long.len() > 0,
        long[0] != '-',
        !long.contains('='),
    ensures
        step(p, st, inline_token(long, Seq::empty())) == crate::parser::fail(
            p,
            st,
            ReasonView::EmptyValue { long: long },
        ),
{
    reveal(step);
    assert(!Seq::<char>::empty().contains('='));
    lemma_long_parts(long, Seq::empty());
}

} // verus!
