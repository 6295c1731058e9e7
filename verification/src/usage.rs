//! The usage text of a command.
//!
//! The usage text names the program and, in this order, its flags, its
//! options, its positional arguments, its required groups and its
//! subcommands, as far as the command has any. Arguments that must be
//! supplied are written out; the others are summed up under a heading.

use vstd::prelude::*;
use vstd::string::StringExecFns;
use crate::text::Text;
use crate::names::texts;
use crate::names::names_contain;
use crate::search::last_true;
use crate::search::lemma_last_true_is;
use crate::args::builders::Decl;
use crate::args::builders::ArgBuilder;
use crate::args::builders::decls;
use crate::args::builders::by_name;
use crate::args::builders::find_by_name;
use crate::args::builders::flag_form;
use crate::args::builders::opt_form;
use crate::args::builders::pos_form;
use crate::app::App;
use crate::app::AppView;

verus! {

/// The name a command goes by: the name it was called by, or its own.
pub open spec fn bin_or_name(app: AppView) -> Text {
    match app.bin_name {
        Some(b) => b,
        None => app.name,
    }
}

/// The highest position in `pos` whose argument is named in `cited`, or `-1`.
pub open spec fn cited_up_to(pos: Seq<Decl>, cited: Seq<Text>) -> int {
    last_true(Seq::new(pos.len(), |i: int| cited.contains(pos[i].name)))
}

/// Whether the positional at `i` is written out in the usage text: it is
/// required, or it or a later positional is named in `cited`.
pub open spec fn pos_shown(pos: Seq<Decl>, cited: Seq<Text>, i: int) -> bool {
    pos[i].required || i <= cited_up_to(pos, cited)
}

/// Whether the option at `i` is written out in the usage text: it is
/// required or named in `cited`.
pub open spec fn opt_shown(opts: Seq<Decl>, cited: Seq<Text>, i: int) -> bool {
    opts[i].required || cited.contains(opts[i].name)
}

/// The forms of the written-out positionals among the first `n`, each
/// followed by a space.
pub open spec fn shown_pos_text(pos: Seq<Decl>, cited: Seq<Text>, n: nat) -> Text
    decreases n,
{
    if n == 0 {
        Seq::empty()
    } else if pos_shown(pos, cited, n - 1) {
        shown_pos_text(pos, cited, (n - 1) as nat) + pos_form(pos[n - 1]) + " "@
    } else {
        shown_pos_text(pos, cited, (n - 1) as nat)
    }
}

/// How many of the first `n` positionals are written out.
pub open spec fn shown_pos_count(pos: Seq<Decl>, cited: Seq<Text>, n: nat) -> nat
    decreases n,
{
    if n == 0 {
        0
    } else if pos_shown(pos, cited, n - 1) {
        shown_pos_count(pos, cited, (n - 1) as nat) + 1
    } else {
        shown_pos_count(pos, cited, (n - 1) as nat)
    }
}

/// The forms of the written-out options among the first `n`, each followed
/// by a space.
pub open spec fn shown_opts_text(opts: Seq<Decl>, cited: Seq<Text>, n: nat) -> Text
    decreases n,
{
    if n == 0 {
        Seq::empty()
    } else if opt_shown(opts, cited, n - 1) {
        shown_opts_text(opts, cited, (n - 1) as nat) + opt_form(opts[n - 1]) + " "@
    } else {
        shown_opts_text(opts, cited, (n - 1) as nat)
    }
}

/// How many of the first `n` options are written out.
pub open spec fn shown_opts_count(opts: Seq<Decl>, cited: Seq<Text>, n: nat) -> nat
    decreases n,
{
    if n == 0 {
        0
    } else if opt_shown(opts, cited, n - 1) {
        shown_opts_count(opts, cited, (n - 1) as nat) + 1
    } else {
        shown_opts_count(opts, cited, (n - 1) as nat)
    }
}

/// One part of the usage line for a store of `total` arguments of which
/// `count` are written out as `shown`: the heading where none is, the
/// written-out forms where all are, and both otherwise.
pub open spec fn usage_part(heading: Text, shown: Text, count: nat, total: nat) -> Text {
    if count != total && count != 0 {
        heading + " "@ + shown
    } else if count == 0 {
        heading
    } else {
        shown
    }
}

/// How the member `m` of a group is written in the usage text: in the form
/// of the option, flag or positional of that name, or as the name itself
/// where no argument has it.
pub open spec fn member_form(app: AppView, m: Text) -> Text {
    if by_name(app.opts, m) < app.opts.len() {
        opt_form(app.opts[by_name(app.opts, m)])
    } else if by_name(app.flags, m) < app.flags.len() {
        flag_form(app.flags[by_name(app.flags, m)])
    } else if by_name(app.positionals, m) < app.positionals.len() {
        pos_form(app.positionals[by_name(app.positionals, m)])
    } else {
        m
    }
}

/// The forms of the first `n` of `members`, each followed by a bar.
pub open spec fn members_text(app: AppView, members: Seq<Text>, n: nat) -> Text
    decreases n,
{
    if n == 0 {
        Seq::empty()
    } else {
        members_text(app, members, (n - 1) as nat) + member_form(app, members[n - 1]) + "|"@
    }
}

/// The members of the required groups among the first `n` groups.
pub open spec fn groups_text(app: AppView, n: nat) -> Text
    decreases n,
{
    if n == 0 {
        Seq::empty()
    } else if app.groups[n - 1].required {
        groups_text(app, (n - 1) as nat) + members_text(
            app,
            app.groups[n - 1].args,
            app.groups[n - 1].args.len(),
        )
    } else {
        groups_text(app, (n - 1) as nat)
    }
}

/// The generated usage line: the name of the program and one part for each
/// kind of argument the command has.
pub open spec fn usage_line(app: AppView, cited: Seq<Text>) -> Text {
    let flags: Text = if app.flags.len() > 0 {
        " [FLAGS]"@
    } else {
        Seq::empty()
    };
    let opts: Text = if app.opts.len() > 0 {
        " "@ + usage_part(
            "[OPTIONS]"@,
            shown_opts_text(app.opts, cited, app.opts.len()),
            shown_opts_count(app.opts, cited, app.opts.len()),
            app.opts.len(),
        )
    } else {
        Seq::empty()
    };
    let pos: Text = if app.positionals.len() > 0 {
        " "@ + usage_part(
            "[POSITIONAL]"@,
            shown_pos_text(app.positionals, cited, app.positionals.len()),
            shown_pos_count(app.positionals, cited, app.positionals.len()),
            app.positionals.len(),
        )
    } else {
        Seq::empty()
    };
    let members = groups_text(app, app.groups.len());
    let groups: Text = if members.len() > 0 {
        " ["@ + members.drop_last() + "]"@
    } else {
        Seq::empty()
    };
    let subs: Text = if app.subcommands.len() > 0 {
        " [SUBCOMMANDS]"@
    } else {
        Seq::empty()
    };
    bin_or_name(app) + flags + opts + pos + groups + subs
}

/// The usage text: a heading, and below it the usage line the command was
/// given or else the generated one. `cited` holds the names that matched
/// arguments have asked for.
pub open spec fn usage_text(app: AppView, cited: Seq<Text>) -> Text {
    "USAGE:\n"@ + "    "@ + match app.usage_str {
        Some(u) => u,
        None => usage_line(app, cited),
    }
}

/// The highest position in `pos` whose argument is named in `cited`.
fn last_cited(pos: &Vec<ArgBuilder>, cited: &Vec<&str>) -> (r: Option<usize>)
    ensures
        match r {
            Some(i) => i < pos.len() && i == cited_up_to(decls(pos@), texts(cited@)),
            None => cited_up_to(decls(pos@), texts(cited@)) == -1,
        },
{
    let ghost hits = Seq::new(
        pos.len() as nat,
        |i: int| texts(cited@).contains(decls(pos@)[i].name),
    );
    let mut i: usize = pos.len();
    while i > 0
        invariant
            i <= pos.len(),
            hits == Seq::new(pos.len() as nat, |i: int| texts(cited@).contains(decls(pos@)[i].name)),
            forall|j: int| i <= j < pos.len() ==> !hits[j],
        decreases i,
    {
        i = i - 1;
        if names_contain(cited, pos[i].name) {
            proof {
                lemma_last_true_is(hits, i as int);
            }
            return Some(i);
        }
    }
    proof {
        lemma_last_true_is(hits, -1);
    }
    None
}

/// Appends one part of the usage line to `out`.
fn append_part(out: &mut String, heading: &str, shown: &String, count: usize, total: usize)
    ensures
        final(out)@ == old(out)@ + " "@ + usage_part(
            heading@,
            shown@,
            count as nat,
            total as nat,
        ),
{
    out.append(" ");
    if count != total && count != 0 {
        out.append(heading);
        out.append(" ");
        out.append(shown.as_str());
        assert(out@ =~= old(out)@ + " "@ + (heading@ + " "@ + shown@));
    } else if count == 0 {
        out.append(heading);
    } else {
        out.append(shown.as_str());
    }
}

impl<'a, 'v, 'ab, 'u, 'h, 'ar> App<'a, 'v, 'ab, 'u, 'h, 'ar> {
    /// The name the command goes by.
    pub fn bin_or_name(&self) -> (r: &str)
        ensures
            r@ == bin_or_name(self@),
    {
        match &self.bin_name {
            Some(b) => b.as_str(),
            None => self.name,
        }
    }

    /// Appends the part of the usage line for the options to `out`.
    fn append_opts(&self, out: &mut String, cited: &Vec<&str>)
        requires
            self.opts.len() > 0,
        ensures
            final(out)@ == old(out)@ + " "@ + usage_part(
                "[OPTIONS]"@,
                shown_opts_text(self@.opts, texts(cited@), self@.opts.len()),
                shown_opts_count(self@.opts, texts(cited@), self@.opts.len()),
                self@.opts.len(),
            ),
    {
        let mut shown = String::new();
        let mut count: usize = 0;
        let mut i: usize = 0;
        while i < self.opts.len()
            invariant
                i <= self.opts.len(),
                count <= i,
                shown@ == shown_opts_text(self@.opts, texts(cited@), i as nat),
                count == shown_opts_count(self@.opts, texts(cited@), i as nat),
            decreases self.opts.len() - i,
        {
            let o = &self.opts[i];
            if o.required || names_contain(cited, o.name) {
                let form = o.opt_form();
                shown.append(form.as_str());
                shown.append(" ");
                count = count + 1;
            }
            i = i + 1;
        }
        append_part(out, "[OPTIONS]", &shown, count, self.opts.len());
    }

    /// Appends the part of the usage line for the positionals to `out`.
    fn append_positionals(&self, out: &mut String, cited: &Vec<&str>)
        requires
            self.positionals.len() > 0,
        ensures
            final(out)@ == old(out)@ + " "@ + usage_part(
                "[POSITIONAL]"@,
                shown_pos_text(self@.positionals, texts(cited@), self@.positionals.len()),
                shown_pos_count(self@.positionals, texts(cited@), self@.positionals.len()),
                self@.positionals.len(),
            ),
    {
        let last = last_cited(&self.positionals, cited);
        let mut shown = String::new();
        let mut count: usize = 0;
        let mut i: usize = 0;
        while i < self.positionals.len()
            invariant
                i <= self.positionals.len(),
                count <= i,
                match last {
                    Some(l) => l == cited_up_to(self@.positionals, texts(cited@)),
                    None => cited_up_to(self@.positionals, texts(cited@)) == -1,
                },
                shown@ == shown_pos_text(self@.positionals, texts(cited@), i as nat),
                count == shown_pos_count(self@.positionals, texts(cited@), i as nat),
            decreases self.positionals.len() - i,
        {
            let p = &self.positionals[i];
            let cited_here = match last {
                Some(l) => i <= l,
                None => false,
            };
            if p.required || cited_here {
                let form = p.pos_form();
                shown.append(form.as_str());
                shown.append(" ");
                count = count + 1;
            }
            i = i + 1;
        }
        append_part(out, "[POSITIONAL]", &shown, count, self.positionals.len());
    }

    /// How the member `m` of a group is written in the usage text.
    pub fn member_form(&self, m: &str) -> (r: String)
        ensures
            r@ == member_form(self@, m@),
    {
        match find_by_name(&self.opts, m) {
            Some(i) => self.opts[i].opt_form(),
            None => match find_by_name(&self.flags, m) {
                Some(i) => self.flags[i].flag_form(),
                None => match find_by_name(&self.positionals, m) {
                    Some(i) => self.positionals[i].pos_form(),
                    None => String::from_str(m),
                },
            },
        }
    }

    /// Appends the forms of the members of the group at `g` to `out`, each
    /// followed by a bar.
    fn append_members(&self, out: &mut String, g: usize)
        requires
            g < self.groups.len(),
        ensures
            final(out)@ == old(out)@ + members_text(
                self@,
                self@.groups[g as int].args,
                self@.groups[g as int].args.len(),
            ),
    {
        let members = &self.groups[g].args;
        let mut i: usize = 0;
        assert(out@ + Seq::<char>::empty() =~= out@);
        while i < members.len()
            invariant
                i <= members.len(),
                g < self.groups.len(),
                members == &self.groups[g as int].args,
                out@ == old(out)@ + members_text(self@, self@.groups[g as int].args, i as nat),
            decreases members.len() - i,
        {
            let form = self.member_form(members[i]);
            out.append(form.as_str());
            out.append("|");
            assert(out@ =~= old(out)@ + members_text(
                self@,
                self@.groups[g as int].args,
                (i + 1) as nat,
            ));
            i = i + 1;
        }
    }

    /// The members of the required groups, each followed by a bar.
    fn required_members(&self) -> (r: String)
        ensures
            r@ == groups_text(self@, self@.groups.len()),
    {
        let mut r = String::new();
        let mut i: usize = 0;
        while i < self.groups.len()
            invariant
                i <= self.groups.len(),
                r@ == groups_text(self@, i as nat),
            decreases self.groups.len() - i,
        {
            if self.groups[i].required {
                self.append_members(&mut r, i);
            }
            i = i + 1;
        }
        r
    }

    /// The generated usage line.
    fn usage_line(&self, cited: &Vec<&str>) -> (r: String)
        ensures
            r@ == usage_line(self@, texts(cited@)),
    {
        let mut r = String::from_str(self.bin_or_name());
        if self.flags.len() > 0 {
            r.append(" [FLAGS]");
        } else {
            assert(r@ + Seq::<char>::empty() =~= r@);
        }
        let ghost after_flags = r@;
        if self.opts.len() > 0 {
            self.append_opts(&mut r, cited);
            assert(r@ =~= after_flags + (" "@ + usage_part(
                "[OPTIONS]"@,
                shown_opts_text(self@.opts, texts(cited@), self@.opts.len()),
                shown_opts_count(self@.opts, texts(cited@), self@.opts.len()),
                self@.opts.len(),
            )));
        } else {
            assert(r@ + Seq::<char>::empty() =~= r@);
        }
        let ghost after_opts = r@;
        if self.positionals.len() > 0 {
            self.append_positionals(&mut r, cited);
            assert(r@ =~= after_opts + (" "@ + usage_part(
                "[POSITIONAL]"@,
                shown_pos_text(self@.positionals, texts(cited@), self@.positionals.len()),
                shown_pos_count(self@.positionals, texts(cited@), self@.positionals.len()),
                self@.positionals.len(),
            )));
        } else {
            assert(r@ + Seq::<char>::empty() =~= r@);
        }
        let ghost after_pos = r@;
        let members = self.required_members();
        let n = members.as_str().unicode_len();
        if n > 0 {
            r.append(" [");
            r.append(members.as_str().substring_char(0, n - 1));
            r.append("]");
            assert(members@.subrange(0, n - 1) =~= members@.drop_last());
            assert(r@ =~= after_pos + (" ["@ + members@.drop_last() + "]"@));
        } else {
            assert(r@ + Seq::<char>::empty() =~= r@);
        }
        if self.subcommands.len() > 0 {
            r.append(" [SUBCOMMANDS]");
        } else {
            assert(r@ + Seq::<char>::empty() =~= r@);
        }
        r
    }

    /// The usage text of the command. `cited` holds the names that matched
    /// arguments have asked for; their arguments are written out as though
    /// they were required.
    pub fn create_usage(&self, cited: &Vec<&str>) -> (r: String)
        ensures
            r@ == usage_text(self@, texts(cited@)),
    {
        let mut r = String::from_str("USAGE:\n");
        r.append("    ");
        match self.usage_str {
            Some(u) => {
                r.append(u);
            },
            None => {
                let line = self.usage_line(cited);
                r.append(line.as_str());
            },
        }
        r
    }
}

} // verus!
