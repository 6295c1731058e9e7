//! The help message and the version message of a command.
//!
//! The help message gives the version line, the author, what the program
//! does and the usage text, and then lists the flags, the options, the
//! positional arguments and the subcommands, each with its help text in a
//! column of its own.

use vstd::prelude::*;
use vstd::string::StringExecFns;
use crate::text::Text;
use crate::text::spaces;
use crate::text::push_char;
use crate::text::chars_of;
use crate::names::texts;
use crate::args::builders::Decl;
use crate::args::builders::ArgBuilder;
use crate::args::builders::multiple_mark;
use crate::app::App;
use crate::app::AppView;
use crate::usage::bin_or_name;
use crate::usage::usage_text;

verus! {

/// The indentation of the lists, and the text that stands for a help text
/// that was not given.
pub open spec fn tab() -> Text {
    "    "@
}

/// The width of a gap of `n` columns: `n`, but at least 0 and at most 29.
pub open spec fn clipped(n: int) -> nat {
    if n < 0 {
        0
    } else if n > 29 {
        29
    } else {
        n as nat
    }
}

/// The spaces that fill a gap of `n` columns.
pub open spec fn gap(n: int) -> Text {
    spaces(clipped(n))
}

/// The width of the marker of an argument that may repeat.
pub open spec fn mark_width(d: Decl) -> nat {
    if d.multiple {
        3
    } else {
        0
    }
}

/// `t` with a hyphen in place of each space.
pub open spec fn hyphenated(t: Text) -> Text {
    Seq::new(
        t.len(),
        |i: int|
            if t[i] == ' ' {
                '-'
            } else {
                t[i]
            },
    )
}

/// The version line: the name the command goes by, with hyphens for its
/// spaces, and the version.
pub open spec fn version_text(app: AppView) -> Text {
    hyphenated(bin_or_name(app)) + " "@ + (match app.version {
        Some(v) => v,
        None => Seq::empty(),
    }) + "\n"@
}

/// The width of the widest long form, dashes included, among the first `n` flags.
pub open spec fn longest_flag(flags: Seq<Decl>, n: nat) -> nat
    decreases n,
{
    if n == 0 {
        0
    } else {
        let rest = longest_flag(flags, (n - 1) as nat);
        match flags[n - 1].long {
            Some(l) => if l.len() + 2 > rest {
                l.len() + 2
            } else {
                rest
            },
            None => rest,
        }
    }
}

/// The width of the widest option that has a long form among the first `n`
/// options: its long form and its name with what surrounds them.
pub open spec fn longest_long_opt(opts: Seq<Decl>, n: nat) -> nat
    decreases n,
{
    if n == 0 {
        0
    } else {
        let rest = longest_long_opt(opts, (n - 1) as nat);
        match opts[n - 1].long {
            Some(l) => {
                let w = mark_width(opts[n - 1]) + l.len() + 5 + opts[n - 1].name.len();
                if w > rest {
                    w
                } else {
                    rest
                }
            },
            None => rest,
        }
    }
}

/// The width of the widest option that has a short form among the first
/// `n` options: its name with what surrounds it.
pub open spec fn longest_short_opt(opts: Seq<Decl>, n: nat) -> nat
    decreases n,
{
    if n == 0 {
        0
    } else {
        let rest = longest_short_opt(opts, (n - 1) as nat);
        match opts[n - 1].short {
            Some(c) => {
                let w = mark_width(opts[n - 1]) + opts[n - 1].name.len() + 4;
                if w > rest {
                    w
                } else {
                    rest
                }
            },
            None => rest,
        }
    }
}

/// The width the options are aligned to: that of the widest option with a
/// long form, or where none has one, of the widest with a short form.
pub open spec fn longest_opt(opts: Seq<Decl>) -> nat {
    if longest_long_opt(opts, opts.len()) == 0 {
        longest_short_opt(opts, opts.len())
    } else {
        longest_long_opt(opts, opts.len())
    }
}

/// The width of the widest name, marker included, among the first `n` positionals.
pub open spec fn longest_pos(pos: Seq<Decl>, n: nat) -> nat
    decreases n,
{
    if n == 0 {
        0
    } else {
        let rest = longest_pos(pos, (n - 1) as nat);
        let w = pos[n - 1].name.len() + mark_width(pos[n - 1]);
        if w > rest {
            w
        } else {
            rest
        }
    }
}

/// The width of the widest name among the first `n` subcommands.
pub open spec fn longest_sub(subs: Seq<AppView>, n: nat) -> nat
    decreases n,
{
    if n == 0 {
        0
    } else {
        let rest = longest_sub(subs, (n - 1) as nat);
        if subs[n - 1].name.len() > rest {
            subs[n - 1].name.len()
        } else {
            rest
        }
    }
}

/// The first `n` of `vals`, each after a space.
pub open spec fn values_text(vals: Seq<Text>, n: nat) -> Text
    decreases n,
{
    if n == 0 {
        Seq::empty()
    } else {
        values_text(vals, (n - 1) as nat) + " "@ + vals[n - 1]
    }
}

/// The help column of an option or a positional: its help text, followed
/// by its possible values where they are restricted.
pub open spec fn help_entry(d: Decl) -> Text {
    match d.help {
        Some(h) => if d.possible_vals.len() > 0 {
            h + " [values:"@ + values_text(d.possible_vals, d.possible_vals.len()) + "]"@
        } else {
            h
        },
        None => tab(),
    }
}

/// The short form at the start of a line, or the blank that stands for it.
pub open spec fn short_column(d: Decl) -> Text {
    match d.short {
        Some(c) => "-"@.push(c),
        None => tab(),
    }
}

/// What stands between a short and a long form.
pub open spec fn comma(d: Decl) -> Text {
    if d.short is Some {
        ", "@
    } else {
        Seq::empty()
    }
}

/// The line of a flag in the help message.
pub open spec fn flag_line(d: Decl, longest: nat) -> Text {
    tab() + short_column(d) + (match d.long {
        Some(l) => comma(d) + "--"@ + l + gap(longest + 4 - (l.len() + 2)),
        None => gap((longest + 6) as int),
    }) + (match d.help {
        Some(h) => h,
        None => tab(),
    }) + "\n"@
}

/// The start of the line of an option: its short and long forms and its
/// name in angle brackets.
pub open spec fn opt_head(d: Decl) -> Text {
    tab() + short_column(d) + (match d.long {
        Some(l) => comma(d) + "--"@ + l + " "@,
        None => " "@,
    }) + "<"@ + d.name + ">"@ + multiple_mark(d.multiple)
}

/// The line of an option in the help message.
pub open spec fn opt_line(d: Decl, longest: nat) -> Text {
    opt_head(d) + (match d.long {
        Some(l) => gap(longest - (l.len() + d.name.len() + mark_width(d) + 1)),
        None => gap(longest + 3 - (d.name.len() + mark_width(d))),
    }) + help_entry(d) + "\n"@
}

/// The line of a positional in the help message.
pub open spec fn pos_line(d: Decl, longest: nat) -> Text {
    tab() + d.name + multiple_mark(d.multiple) + gap(
        longest + 4 - (d.name.len() + mark_width(d)),
    ) + help_entry(d) + "\n"@
}

/// The line of a subcommand in the help message.
pub open spec fn sub_line(sub: AppView, longest: nat) -> Text {
    tab() + sub.name + gap(longest + 4 - sub.name.len()) + (match sub.about {
        Some(a) => a,
        None => tab(),
    }) + "\n"@
}

/// The lines of the first `n` flags.
pub open spec fn flag_lines(flags: Seq<Decl>, longest: nat, n: nat) -> Text
    decreases n,
{
    if n == 0 {
        Seq::empty()
    } else {
        flag_lines(flags, longest, (n - 1) as nat) + flag_line(flags[n - 1], longest)
    }
}

/// The lines of the first `n` options.
pub open spec fn opt_lines(opts: Seq<Decl>, longest: nat, n: nat) -> Text
    decreases n,
{
    if n == 0 {
        Seq::empty()
    } else {
        opt_lines(opts, longest, (n - 1) as nat) + opt_line(opts[n - 1], longest)
    }
}

/// The lines of the first `n` positionals.
pub open spec fn pos_lines(pos: Seq<Decl>, longest: nat, n: nat) -> Text
    decreases n,
{
    if n == 0 {
        Seq::empty()
    } else {
        pos_lines(pos, longest, (n - 1) as nat) + pos_line(pos[n - 1], longest)
    }
}

/// The lines of the first `n` subcommands.
pub open spec fn sub_lines(subs: Seq<AppView>, longest: nat, n: nat) -> Text
    decreases n,
{
    if n == 0 {
        Seq::empty()
    } else {
        sub_lines(subs, longest, (n - 1) as nat) + sub_line(subs[n - 1], longest)
    }
}

/// The head of the help message: the version line, the author, what the
/// program does, and the usage text.
pub open spec fn help_head(app: AppView, cited: Seq<Text>) -> Text {
    version_text(app) + (match app.author {
        Some(a) => a + "\n"@,
        None => Seq::empty(),
    }) + (match app.about {
        Some(a) => a + "\n"@,
        None => Seq::empty(),
    }) + "\n"@ + usage_text(app, cited) + (if app.flags.len() > 0 || app.opts.len() > 0
        || app.positionals.len() > 0 || app.subcommands.len() > 0 {
        "\n"@
    } else {
        Seq::empty()
    })
}

/// The list of the flags, under its heading; nothing where there is no flag.
pub open spec fn flags_section(app: AppView) -> Text {
    if app.flags.len() > 0 {
        "\nFLAGS:\n"@ + flag_lines(
            app.flags,
            longest_flag(app.flags, app.flags.len()),
            app.flags.len(),
        )
    } else {
        Seq::empty()
    }
}

/// The list of the options, under its heading.
pub open spec fn opts_section(app: AppView) -> Text {
    if app.opts.len() > 0 {
        "\nOPTIONS:\n"@ + opt_lines(app.opts, longest_opt(app.opts), app.opts.len())
    } else {
        Seq::empty()
    }
}

/// The list of the positional arguments, under its heading.
pub open spec fn positionals_section(app: AppView) -> Text {
    if app.positionals.len() > 0 {
        "\nPOSITIONAL ARGUMENTS:\n"@ + pos_lines(
            app.positionals,
            longest_pos(app.positionals, app.positionals.len()),
            app.positionals.len(),
        )
    } else {
        Seq::empty()
    }
}

/// The list of the subcommands, under its heading.
pub open spec fn subcommands_section(app: AppView) -> Text {
    if app.subcommands.len() > 0 {
        "\nSUBCOMMANDS:\n"@ + sub_lines(
            app.subcommands,
            longest_sub(app.subcommands, app.subcommands.len()),
            app.subcommands.len(),
        )
    } else {
        Seq::empty()
    }
}

/// The help message of the command. `cited` holds the names that matched
/// arguments have asked for, which the usage text takes into account.
pub open spec fn help_text(app: AppView, cited: Seq<Text>) -> Text {
    help_head(app, cited) + flags_section(app) + opts_section(app) + positionals_section(app)
        + subcommands_section(app) + (match app.more_help {
        Some(h) => "\n"@ + h + "\n"@,
        None => Seq::empty(),
    })
}

/// The difference `a - b`, or 0 where `b` is the larger, as the width of a gap.
fn gap_width(a: u128, b: u128) -> (r: usize)
    ensures
        r == clipped(a - b),
{
    if a <= b {
        0
    } else if a - b > 29 {
        29
    } else {
        (a - b) as usize
    }
}

/// The width of the marker of an argument that may repeat.
fn mark_of(b: &ArgBuilder) -> (r: u128)
    ensures
        r == mark_width(b@),
{
    if b.multiple {
        3
    } else {
        0
    }
}

/// The number of characters of `s`.
fn width(s: &str) -> (r: u128)
    ensures
        r == s@.len(),
        r <= usize::MAX,
{
    s.unicode_len() as u128
}

/// Appends `...` to `r` where `multiple` is set.
fn append_mark(r: &mut String, multiple: bool)
    ensures
        final(r)@ == old(r)@ + multiple_mark(multiple),
{
    if multiple {
        r.append("...");
    } else {
        assert(r@ + Seq::<char>::empty() =~= r@);
    }
}

/// Appends the short form of `b`, or the blank that stands for it.
fn append_short(r: &mut String, b: &ArgBuilder)
    ensures
        final(r)@ == old(r)@ + short_column(b@),
{
    match b.short {
        Some(c) => {
            r.append("-");
            push_char(r, c);
            assert(r@ =~= old(r)@ + "-"@.push(c));
        },
        None => {
            r.append("    ");
        },
    }
}

/// Appends the help column of an option or a positional.
fn append_help_entry(r: &mut String, b: &ArgBuilder)
    ensures
        final(r)@ == old(r)@ + help_entry(b@),
{
    match b.help {
        Some(h) => {
            r.append(h);
            if b.possible_vals.len() > 0 {
                r.append(" [values:");
                let ghost base = r@;
                assert(r@ + Seq::<char>::empty() =~= r@);
                let mut i: usize = 0;
                while i < b.possible_vals.len()
                    invariant
                        i <= b.possible_vals.len(),
                        r@ == base + values_text(texts(b.possible_vals@), i as nat),
                    decreases b.possible_vals.len() - i,
                {
                    r.append(" ");
                    r.append(b.possible_vals[i]);
                    assert(r@ =~= base + values_text(texts(b.possible_vals@), (i + 1) as nat));
                    i = i + 1;
                }
                r.append("]");
                assert(r@ =~= old(r)@ + help_entry(b@));
            }
        },
        None => {
            r.append("    ");
        },
    }
}

impl<'a, 'v, 'ab, 'u, 'h, 'ar> App<'a, 'v, 'ab, 'u, 'h, 'ar> {
    /// The spaces that fill a gap of `num` columns. A gap is never wider
    /// than 29 columns.
    pub fn get_spaces(&self, num: usize) -> (r: &'static str)
        ensures
            r@ == gap(num as int),
    {
        let r = match num {
            0 => "",
            1 => " ",
            2 => "  ",
            3 => "   ",
            4 => "    ",
            5 => "     ",
            6 => "      ",
            7 => "       ",
            8 => "        ",
            9 => "         ",
            10 => "          ",
            11 => "           ",
            12 => "            ",
            13 => "             ",
            14 => "              ",
            15 => "               ",
            16 => "                ",
            17 => "                 ",
            18 => "                  ",
            19 => "                   ",
            20 => "                    ",
            21 => "                     ",
            22 => "                      ",
            23 => "                       ",
            24 => "                        ",
            25 => "                         ",
            26 => "                          ",
            27 => "                           ",
            28 => "                            ",
            _ => "                             ",
        };
        proof {
            reveal_strlit("");
            reveal_strlit(" ");
            reveal_strlit("  ");
            reveal_strlit("   ");
            reveal_strlit("    ");
            reveal_strlit("     ");
            reveal_strlit("      ");
            reveal_strlit("       ");
            reveal_strlit("        ");
            reveal_strlit("         ");
            reveal_strlit("          ");
            reveal_strlit("           ");
            reveal_strlit("            ");
            reveal_strlit("             ");
            reveal_strlit("              ");
            reveal_strlit("               ");
            reveal_strlit("                ");
            reveal_strlit("                 ");
            reveal_strlit("                  ");
            reveal_strlit("                   ");
            reveal_strlit("                    ");
            reveal_strlit("                     ");
            reveal_strlit("                      ");
            reveal_strlit("                       ");
            reveal_strlit("                        ");
            reveal_strlit("                         ");
            reveal_strlit("                          ");
            reveal_strlit("                           ");
            reveal_strlit("                            ");
            reveal_strlit("                             ");
            assert(r@ =~= gap(num as int));
        }
        r
    }

    /// The version message: the name the command goes by, with hyphens for
    /// its spaces, and its version.
    pub fn version_text(&self) -> (r: String)
        ensures
            r@ == version_text(self@),
    {
        let name = chars_of(self.bin_or_name());
        let mut r = String::new();
        let mut i: usize = 0;
        while i < name.len()
            invariant
                i <= name.len(),
                r@ == hyphenated(name@).take(i as int),
            decreases name.len() - i,
        {
            let c = if name[i] == ' ' {
                '-'
            } else {
                name[i]
            };
            push_char(&mut r, c);
            assert(r@ =~= hyphenated(name@).take(i + 1));
            i = i + 1;
        }
        assert(r@ =~= hyphenated(name@));
        r.append(" ");
        match self.version {
            Some(v) => {
                r.append(v);
            },
            None => {
                assert(r@ + Seq::<char>::empty() =~= r@);
            },
        }
        r.append("\n");
        r
    }

    /// The width the flags are aligned to.
    fn longest_flag(&self) -> (r: u128)
        ensures
            r == longest_flag(self@.flags, self@.flags.len()),
            r <= usize::MAX + 2,
    {
        let mut r: u128 = 0;
        let mut i: usize = 0;
        while i < self.flags.len()
            invariant
                i <= self.flags.len(),
                r == longest_flag(self@.flags, i as nat),
                r <= usize::MAX + 2,
            decreases self.flags.len() - i,
        {
            match self.flags[i].long {
                Some(l) => {
                    let w = width(l) + 2;
                    if w > r {
                        r = w;
                    }
                },
                None => {},
            }
            i = i + 1;
        }
        r
    }

    /// The width the options are aligned to.
    fn longest_opt(&self) -> (r: u128)
        ensures
            r == longest_opt(self@.opts),
            r <= 2 * usize::MAX + 8,
    {
        let mut long: u128 = 0;
        let mut short: u128 = 0;
        let mut i: usize = 0;
        while i < self.opts.len()
            invariant
                i <= self.opts.len(),
                long == longest_long_opt(self@.opts, i as nat),
                short == longest_short_opt(self@.opts, i as nat),
                long <= 2 * usize::MAX + 8,
                short <= usize::MAX + 7,
            decreases self.opts.len() - i,
        {
            let o = &self.opts[i];
            match o.long {
                Some(l) => {
                    let w = mark_of(o) + width(l) + 5 + width(o.name);
                    if w > long {
                        long = w;
                    }
                },
                None => {},
            }
            match o.short {
                Some(c) => {
                    let w = mark_of(o) + width(o.name) + 4;
                    if w > short {
                        short = w;
                    }
                },
                None => {},
            }
            i = i + 1;
        }
        if long == 0 {
            short
        } else {
            long
        }
    }

    /// The width the positionals are aligned to.
    fn longest_pos(&self) -> (r: u128)
        ensures
            r == longest_pos(self@.positionals, self@.positionals.len()),
            r <= usize::MAX + 3,
    {
        let mut r: u128 = 0;
        let mut i: usize = 0;
        while i < self.positionals.len()
            invariant
                i <= self.positionals.len(),
                r == longest_pos(self@.positionals, i as nat),
                r <= usize::MAX + 3,
            decreases self.positionals.len() - i,
        {
            let p = &self.positionals[i];
            let w = width(p.name) + mark_of(p);
            if w > r {
                r = w;
            }
            i = i + 1;
        }
        r
    }

    /// The width the subcommands are aligned to.
    fn longest_sub(&self) -> (r: u128)
        ensures
            r == longest_sub(self@.subcommands, self@.subcommands.len()),
            r <= usize::MAX,
    {
        let mut r: u128 = 0;
        let mut i: usize = 0;
        while i < self.subcommands.len()
            invariant
                i <= self.subcommands.len(),
                r == longest_sub(self@.subcommands, i as nat),
                r <= usize::MAX,
            decreases self.subcommands.len() - i,
        {
            assert(self@.subcommands[i as int] == self.subcommands@[i as int]@);
            let w = width(self.subcommands[i].name);
            if w > r {
                r = w;
            }
            i = i + 1;
        }
        r
    }

    /// Appends the line of the flag at `i`.
    fn append_flag_line(&self, r: &mut String, i: usize, longest: u128)
        requires
            i < self.flags.len(),
            longest <= usize::MAX + 2,
        ensures
            final(r)@ == old(r)@ + flag_line(self@.flags[i as int], longest as nat),
    {
        let f = &self.flags[i];
        let ghost d = f@;
        r.append("    ");
        append_short(r, f);
        let ghost start = r@;
        match f.long {
            Some(l) => {
                if f.short.is_some() {
                    r.append(", ");
                } else {
                    assert(r@ + Seq::<char>::empty() =~= r@);
                }
                r.append("--");
                r.append(l);
                r.append(self.get_spaces(gap_width(longest + 4, width(l) + 2)));
                assert(r@ =~= start + (comma(d) + "--"@ + l@ + gap(
                    longest + 4 - (l@.len() + 2),
                )));
            },
            None => {
                r.append(self.get_spaces(gap_width(longest + 6, 0)));
            },
        }
        match f.help {
            Some(h) => {
                r.append(h);
            },
            None => {
                r.append("    ");
            },
        }
        r.append("\n");
        assert(r@ =~= old(r)@ + flag_line(d, longest as nat));
    }

    /// Appends the start of the line of the option at `i`.
    fn append_opt_head(&self, r: &mut String, i: usize)
        requires
            i < self.opts.len(),
        ensures
            final(r)@ == old(r)@ + opt_head(self@.opts[i as int]),
    {
        let o = &self.opts[i];
        let ghost d = o@;
        r.append("    ");
        append_short(r, o);
        let ghost start = r@;
        match o.long {
            Some(l) => {
                if o.short.is_some() {
                    r.append(", ");
                } else {
                    assert(r@ + Seq::<char>::empty() =~= r@);
                }
                r.append("--");
                r.append(l);
                r.append(" ");
                assert(r@ =~= start + (comma(d) + "--"@ + l@ + " "@));
            },
            None => {
                r.append(" ");
            },
        }
        r.append("<");
        r.append(o.name);
        r.append(">");
        append_mark(r, o.multiple);
        assert(r@ =~= old(r)@ + opt_head(d));
    }

    /// Appends the line of the option at `i`.
    fn append_opt_line(&self, r: &mut String, i: usize, longest: u128)
        requires
            i < self.opts.len(),
            longest <= 2 * usize::MAX + 8,
        ensures
            final(r)@ == old(r)@ + opt_line(self@.opts[i as int], longest as nat),
    {
        let o = &self.opts[i];
        let ghost d = o@;
        self.append_opt_head(r, i);
        let w = match o.long {
            Some(l) => gap_width(longest, width(l) + width(o.name) + mark_of(o) + 1),
            None => gap_width(longest + 3, width(o.name) + mark_of(o)),
        };
        r.append(self.get_spaces(w));
        append_help_entry(r, o);
        r.append("\n");
        assert(r@ =~= old(r)@ + opt_line(d, longest as nat));
    }

    /// Appends the line of the positional at `i`.
    fn append_pos_line(&self, r: &mut String, i: usize, longest: u128)
        requires
            i < self.positionals.len(),
            longest <= usize::MAX + 3,
        ensures
            final(r)@ == old(r)@ + pos_line(self@.positionals[i as int], longest as nat),
    {
        let p = &self.positionals[i];
        let ghost d = p@;
        r.append("    ");
        r.append(p.name);
        append_mark(r, p.multiple);
        r.append(self.get_spaces(gap_width(longest + 4, width(p.name) + mark_of(p))));
        append_help_entry(r, p);
        r.append("\n");
        assert(r@ =~= old(r)@ + pos_line(d, longest as nat));
    }

    /// Appends the line of the subcommand at `i`.
    fn append_sub_line(&self, r: &mut String, i: usize, longest: u128)
        requires
            i < self.subcommands.len(),
            longest <= usize::MAX,
        ensures
            final(r)@ == old(r)@ + sub_line(self@.subcommands[i as int], longest as nat),
    {
        let sub = &self.subcommands[i];
        r.append("    ");
        r.append(sub.name);
        r.append(self.get_spaces(gap_width(longest + 4, width(sub.name))));
        match sub.about {
            Some(a) => {
                r.append(a);
            },
            None => {
                r.append("    ");
            },
        }
        r.append("\n");
        assert(r@ =~= old(r)@ + sub_line(sub@, longest as nat));
    }

    /// Appends the list of the flags, under its heading.
    fn append_flags(&self, r: &mut String)
        ensures
            final(r)@ == old(r)@ + flags_section(self@),
    {
        if self.flags.len() > 0 {
            let longest = self.longest_flag();
            r.append("\nFLAGS:\n");
            let ghost base = r@;
            assert(r@ + Seq::<char>::empty() =~= r@);
            let mut i: usize = 0;
            while i < self.flags.len()
                invariant
                    i <= self.flags.len(),
                    longest <= usize::MAX + 2,
                    r@ == base + flag_lines(self@.flags, longest as nat, i as nat),
                decreases self.flags.len() - i,
            {
                self.append_flag_line(r, i, longest);
                assert(r@ =~= base + flag_lines(self@.flags, longest as nat, (i + 1) as nat));
                i = i + 1;
            }
            assert(r@ =~= old(r)@ + flags_section(self@));
        } else {
            assert(r@ + Seq::<char>::empty() =~= r@);
        }
    }

    /// Appends the list of the options, under its heading.
    fn append_options(&self, r: &mut String)
        ensures
            final(r)@ == old(r)@ + opts_section(self@),
    {
        if self.opts.len() > 0 {
            let longest = self.longest_opt();
            r.append("\nOPTIONS:\n");
            let ghost base = r@;
            assert(r@ + Seq::<char>::empty() =~= r@);
            let mut i: usize = 0;
            while i < self.opts.len()
                invariant
                    i <= self.opts.len(),
                    longest <= 2 * usize::MAX + 8,
                    r@ == base + opt_lines(self@.opts, longest as nat, i as nat),
                decreases self.opts.len() - i,
            {
                self.append_opt_line(r, i, longest);
                assert(r@ =~= base + opt_lines(self@.opts, longest as nat, (i + 1) as nat));
                i = i + 1;
            }
            assert(r@ =~= old(r)@ + opts_section(self@));
        } else {
            assert(r@ + Seq::<char>::empty() =~= r@);
        }
    }

    /// Appends the list of the positional arguments, under its heading.
    fn append_positional_list(&self, r: &mut String)
        ensures
            final(r)@ == old(r)@ + positionals_section(self@),
    {
        if self.positionals.len() > 0 {
            let longest = self.longest_pos();
            r.append("\nPOSITIONAL ARGUMENTS:\n");
            let ghost base = r@;
            assert(r@ + Seq::<char>::empty() =~= r@);
            let mut i: usize = 0;
            while i < self.positionals.len()
                invariant
                    i <= self.positionals.len(),
                    longest <= usize::MAX + 3,
                    r@ == base + pos_lines(self@.positionals, longest as nat, i as nat),
                decreases self.positionals.len() - i,
            {
                self.append_pos_line(r, i, longest);
                assert(r@ =~= base + pos_lines(self@.positionals, longest as nat, (i + 1) as nat));
                i = i + 1;
            }
            assert(r@ =~= old(r)@ + positionals_section(self@));
        } else {
            assert(r@ + Seq::<char>::empty() =~= r@);
        }
    }

    /// Appends the list of the subcommands, under its heading.
    fn append_subcommands(&self, r: &mut String)
        ensures
            final(r)@ == old(r)@ + subcommands_section(self@),
    {
        if self.subcommands.len() > 0 {
            let longest = self.longest_sub();
            r.append("\nSUBCOMMANDS:\n");
            let ghost base = r@;
            assert(r@ + Seq::<char>::empty() =~= r@);
            let mut i: usize = 0;
            while i < self.subcommands.len()
                invariant
                    i <= self.subcommands.len(),
                    longest <= usize::MAX,
                    r@ == base + sub_lines(self@.subcommands, longest as nat, i as nat),
                decreases self.subcommands.len() - i,
            {
                self.append_sub_line(r, i, longest);
                assert(r@ =~= base + sub_lines(self@.subcommands, longest as nat, (i + 1) as nat));
                i = i + 1;
            }
            assert(r@ =~= old(r)@ + subcommands_section(self@));
        } else {
            assert(r@ + Seq::<char>::empty() =~= r@);
        }
    }

    /// The head of the help message.
    fn help_head(&self, cited: &Vec<&str>) -> (r: String)
        ensures
            r@ == help_head(self@, texts(cited@)),
    {
        let mut r = self.version_text();
        match self.author {
            Some(a) => {
                r.append(a);
                r.append("\n");
                assert(r@ =~= version_text(self@) + (a@ + "\n"@));
            },
            None => {
                assert(r@ + Seq::<char>::empty() =~= r@);
            },
        }
        let ghost with_author = r@;
        match self.about {
            Some(a) => {
                r.append(a);
                r.append("\n");
                assert(r@ =~= with_author + (a@ + "\n"@));
            },
            None => {
                assert(r@ + Seq::<char>::empty() =~= r@);
            },
        }
        r.append("\n");
        let usage = self.create_usage(cited);
        r.append(usage.as_str());
        if self.flags.len() > 0 || self.opts.len() > 0 || self.positionals.len() > 0
            || self.subcommands.len() > 0 {
            r.append("\n");
        } else {
            assert(r@ + Seq::<char>::empty() =~= r@);
        }
        r
    }

    /// The help message of the command. `cited` holds the names that
    /// matched arguments have asked for.
    pub fn help_text(&self, cited: &Vec<&str>) -> (r: String)
        ensures
            r@ == help_text(self@, texts(cited@)),
    {
        let mut r = self.help_head(cited);
        self.append_flags(&mut r);
        self.append_options(&mut r);
        self.append_positional_list(&mut r);
        self.append_subcommands(&mut r);
        let ghost lists = r@;
        match self.more_help {
            Some(h) => {
                r.append("\n");
                r.append(h);
                r.append("\n");
                assert(r@ =~= lists + ("\n"@ + h@ + "\n"@));
            },
            None => {
                assert(r@ + Seq::<char>::empty() =~= r@);
            },
        }
        r
    }
}

} // verus!
