//! What holds along the walk over the tokens.

use vstd::prelude::*;
use crate::text::Text;
use crate::text::without_dashes;
use crate::search::lemma_first_true;
use crate::args::builders::Decl;
use crate::args::builders::by_name;
use crate::args::builders::by_short;
use crate::args::builders::by_long;
use crate::args::builders::by_index;
use crate::app::AppView;
use crate::parser::ParseState;
use crate::parser::Step;
use crate::parser::Stop;
use crate::parser::step;
use crate::parser::run;
use crate::parser::switch;
use crate::parser::option;
use crate::parser::positional;
use crate::parser::cluster;
use crate::parser::cluster_char;
use crate::parser::auto_short;
use crate::parser::awaits_value;
use crate::parser::double_dashed;
use crate::parser::dashed;
use crate::parser::long_name;
use crate::parser::long_value;
use crate::parser::flag_seen;
use crate::parser::opt_seen;
use crate::parser::pos_seen;
use crate::parser::lemma_step_sub;
use crate::laws::tracking::lemma_flag_seen;
use crate::laws::tracking::lemma_opt_seen;
use crate::laws::tracking::lemma_pos_seen;
use crate::laws::tracking::lemma_value_given;
use crate::app::sound;
use crate::laws::states::inv;
use crate::app::declared;
use crate::laws::states::lemma_match_keeps_inv;
use crate::laws::states::lemma_same_names_inv;

verus! {

/// The entries of the stores of a command are arguments of the command.
pub proof fn lemma_declared(p: AppView)
    ensures
        forall|k: int| 0 <= k < p.flags.len() ==> declared(p, #[trigger] p.flags[k]),
        forall|k: int| 0 <= k < p.opts.len() ==> declared(p, #[trigger] p.opts[k]),
        forall|k: int| 0 <= k < p.positionals.len() ==> declared(p, #[trigger] p.positionals[k]),
{
}

/// A flag that is taken keeps what holds of every state.
pub proof fn lemma_switch_keeps_inv(p: AppView, st: ParseState, d: Decl, shown: Text)
    requires
        sound(p),
        inv(p, st),
        declared(p, d),
        switch(p, st, d, shown) is Next,
    ensures
        inv(p, switch(p, st, d, shown)->Next_0),
{
    lemma_flag_seen(st.matches, d);
    let st1 = ParseState { matches: flag_seen(st.matches, d), needs_val_of: None, ..st };
    lemma_match_keeps_inv(p, st, st1, d);
}

/// An option that is taken keeps what holds of every state.
pub proof fn lemma_option_keeps_inv(p: AppView, st: ParseState, d: Decl, shown: Text, val: Option<Text>)
    requires
        sound(p),
        inv(p, st),
        declared(p, d),
        option(p, st, d, shown, val) is Next,
    ensures
        inv(p, option(p, st, d, shown, val)->Next_0),
{
    lemma_opt_seen(st.matches, d, val);
    let st1 = ParseState {
        matches: opt_seen(st.matches, d, val),
        needs_val_of: if val is None {
            Some(d.name)
        } else {
            None
        },
        ..st
    };
    lemma_match_keeps_inv(p, st, st1, d);
}

/// A positional value that is taken keeps what holds of every state.
pub proof fn lemma_positional_keeps_inv(p: AppView, st: ParseState, d: Decl, tok: Text)
    requires
        sound(p),
        inv(p, st),
        declared(p, d),
        positional(p, st, d, tok) is Next,
    ensures
        inv(p, positional(p, st, d, tok)->Next_0),
{
    lemma_pos_seen(st.matches, d, tok);
    let st1 = ParseState {
        matches: pos_seen(st.matches, d, tok),
        pos_counter: if d.multiple {
            st.pos_counter
        } else {
            st.pos_counter + 1
        },
        ..st
    };
    lemma_match_keeps_inv(p, st, st1, d);
}

/// A cluster that is taken keeps what holds of every state.
pub proof fn lemma_cluster_keeps_inv(p: AppView, st: ParseState, body: Text, i: nat)
    requires
        sound(p),
        inv(p, st),
        cluster(p, st, body, i) is Next,
    ensures
        inv(p, cluster(p, st, body, i)->Next_0),
    decreases body.len() - i,
{
    if i < body.len() {
        let c = body[i as int];
        match cluster_char(p, st, body, c) {
            Step::Next(st1) => {
                lemma_first_true(Seq::new(p.flags.len(), |k: int| p.flags[k].short == Some(c)));
                lemma_declared(p);
                lemma_switch_keeps_inv(p, st, p.flags[by_short(p.flags, c)], "-"@.push(c));
                lemma_cluster_keeps_inv(p, st1, body, i + 1);
            },
            _ => {},
        }
    }
}

/// A token that is taken keeps what holds of every state.
pub proof fn lemma_step_keeps_inv(p: AppView, st: ParseState, tok: Text)
    requires
        sound(p),
        inv(p, st),
        step(p, st, tok) is Next,
    ensures
        inv(p, step(p, st, tok)->Next_0),
{
    reveal(step);
    lemma_declared(p);
    if awaits_value(p, st) {
        let d = p.opts[by_name(p.opts, st.needs_val_of->0)];
        lemma_value_given(st.matches, d, tok);
        lemma_same_names_inv(p, st, step(p, st, tok)->Next_0, d.name);
    } else if !st.pos_only && double_dashed(tok) {
        if tok.len() == 2 {
            let st1 = ParseState { pos_only: true, ..st };
            lemma_same_names_inv(p, st, st1, tok);
        } else {
            let name = long_name(tok);
            let val = long_value(tok);
            lemma_first_true(Seq::new(p.opts.len(), |k: int| p.opts[k].long == Some(name)));
            lemma_first_true(Seq::new(p.flags.len(), |k: int| p.flags[k].long == Some(name)));
            if by_long(p.opts, name) < p.opts.len() {
                lemma_option_keeps_inv(p, st, p.opts[by_long(p.opts, name)], "--"@ + name, val);
            } else if by_long(p.flags, name) < p.flags.len() {
                lemma_switch_keeps_inv(p, st, p.flags[by_long(p.flags, name)], "--"@ + name);
            }
        }
    } else if !st.pos_only && dashed(tok) {
        let body = without_dashes(tok);
        if body.len() > 1 {
            let st1 = ParseState { needs_val_of: None, ..st };
            lemma_same_names_inv(p, st, st1, tok);
            lemma_cluster_keeps_inv(p, st1, body, 0);
        } else if body.len() == 1 {
            let c = body[0];
            lemma_first_true(Seq::new(p.flags.len(), |k: int| p.flags[k].short == Some(c)));
            lemma_first_true(Seq::new(p.opts.len(), |k: int| p.opts[k].short == Some(c)));
            if auto_short(p, st, c) is None {
                if by_short(p.flags, c) < p.flags.len() {
                    lemma_switch_keeps_inv(p, st, p.flags[by_short(p.flags, c)], "-"@.push(c));
                } else if by_short(p.opts, c) < p.opts.len() {
                    lemma_option_keeps_inv(
                        p,
                        st,
                        p.opts[by_short(p.opts, c)],
                        "-"@.push(c),
                        None,
                    );
                }
            }
        }
    } else {
        lemma_first_true(
            Seq::new(p.positionals.len(), |k: int| p.positionals[k].index == st.pos_counter as int),
        );
        if by_index(p.positionals, st.pos_counter as int) < p.positionals.len() {
            lemma_positional_keeps_inv(
                p,
                st,
                p.positionals[by_index(p.positionals, st.pos_counter as int)],
                tok,
            );
        }
    }
}

/// The state a walk ends in, where it does not stop the parse.
pub open spec fn end_state(stop: Stop) -> ParseState {
    match stop {
        Stop::End(st) => st,
        Stop::Sub { state, sub, next } => state,
        Stop::Halt(h) => arbitrary(),
    }
}

/// The state a walk ends in is as every state of a parse is.
pub proof fn lemma_run_keeps_inv(p: AppView, st: ParseState, tokens: Seq<Text>, i: nat)
    requires
        sound(p),
        inv(p, st),
        !(run(p, st, tokens, i) is Halt),
    ensures
        inv(p, end_state(run(p, st, tokens, i))),
    decreases tokens.len() - i,
{
    if i < tokens.len() {
        match step(p, st, tokens[i as int]) {
            Step::Next(st1) => {
                lemma_step_keeps_inv(p, st, tokens[i as int]);
                lemma_run_keeps_inv(p, st1, tokens, i + 1);
            },
            Step::Sub(st1, s) => {
                lemma_step_sub(p, st, tokens[i as int]);
            },
            Step::Halt(h) => {},
        }
    }
}

} // verus!
