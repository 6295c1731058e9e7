//! The description of a command: its arguments, groups and subcommands.

use vstd::prelude::*;
use crate::text::Text;
use crate::text::str_eq;
use crate::text::str_lt;
use crate::text::text_lt;
use crate::text::slot_of;
use crate::text::ascending;
use crate::text::lemma_slot_of_is;
use crate::names::texts;
use crate::names::distinct;
use crate::names::with;
use crate::names::with_all;
use crate::names::sorted_with_all;
use crate::names::names_add;
use crate::names::names_add_all;
use crate::names::names_add_all_sorted;
use crate::search::first_true;
use crate::search::lemma_first_true_is;
use crate::errors::SchemaError;
use crate::args::arg::Arg;
use crate::args::arg::ArgView;
use crate::args::arg::opt_text;
use crate::args::arg::usage_arg;
use crate::usageparser::usage_lines;
use crate::usageparser::split_usage;
use crate::args::builders::Decl;
use crate::args::builders::ArgBuilder;
use crate::args::builders::decls;
use crate::args::builders::decl_names;
use crate::args::builders::store_formed;
use crate::args::builders::by_name;
use crate::args::builders::by_short;
use crate::args::builders::by_long;
use crate::args::builders::by_index;
use crate::args::builders::put_by_name;
use crate::args::builders::put_by_index;
use crate::args::builders::find_by_name;
use crate::args::builders::find_by_short;
use crate::args::builders::find_by_long;
use crate::args::builders::find_by_index;
use crate::args::builders::store_by_name;
use crate::args::builders::store_by_index;
use crate::args::group::ArgGroup;
use crate::args::group::GroupView;
use crate::args::group::group_views;
use crate::args::matches::SubCommand;

verus! {

/// The model of an [`App`].
pub struct AppView {
    /// The name of the command.
    pub name: Text,
    /// The name the command was called by, once that is known.
    pub bin_name: Option<Text>,
    /// The author line of the help message.
    pub author: Option<Text>,
    /// The version shown by the version message.
    pub version: Option<Text>,
    /// The description line of the help message.
    pub about: Option<Text>,
    /// The text that ends the help message.
    pub more_help: Option<Text>,
    /// The usage line that replaces the generated one.
    pub usage_str: Option<Text>,
    /// The flags, in ascending order of their names.
    pub flags: Seq<Decl>,
    /// The options, in ascending order of their names.
    pub opts: Seq<Decl>,
    /// The positional arguments, in ascending order of their positions.
    pub positionals: Seq<Decl>,
    /// The subcommands, in ascending order of their names.
    pub subcommands: Seq<AppView>,
    /// The groups, in the order in which they came in.
    pub groups: Seq<GroupView>,
    /// Whether `--help` asks for the help message.
    pub needs_long_help: bool,
    /// Whether `--version` asks for the version message.
    pub needs_long_version: bool,
    /// Whether `-h` asks for the help message.
    pub needs_short_help: bool,
    /// Whether `-v` asks for the version message.
    pub needs_short_version: bool,
    /// Whether the subcommand `help` asks for the help message.
    pub needs_subcmd_help: bool,
    /// The names that must be supplied, as far as the declarations say.
    pub required: Seq<Text>,
    /// The names that may not be supplied, as far as the declarations say.
    pub blacklist: Seq<Text>,
}

/// The list that an optional list stands for.
pub open spec fn listed(o: Option<Seq<Text>>) -> Seq<Text> {
    match o {
        Some(v) => v,
        None => Seq::empty(),
    }
}

/// Whether a declaration is one of a positional argument: it has a
/// position, or neither a short nor a long form.
pub open spec fn is_positional(a: ArgView) -> bool {
    a.index is Some || (a.short is None && a.long is None)
}

/// The position of the group called `name`, or `groups.len()`.
pub open spec fn group_by_name(groups: Seq<GroupView>, name: Text) -> int {
    first_true(Seq::new(groups.len(), |i: int| groups[i].name == name))
}

/// The names of a list of commands.
pub open spec fn app_names(subs: Seq<AppView>) -> Seq<Text> {
    Seq::new(subs.len(), |i: int| subs[i].name)
}

/// The position of the subcommand called `name`, or `subs.len()`.
pub open spec fn sub_by_name(subs: Seq<AppView>, name: Text) -> int {
    first_true(Seq::new(subs.len(), |i: int| subs[i].name == name))
}

/// `groups` with the argument `member` in the group called `group`, which
/// is created where it does not exist.
pub open spec fn groups_with_member(groups: Seq<GroupView>, group: Text, member: Text) -> Seq<
    GroupView,
> {
    let at = group_by_name(groups, group);
    if at < groups.len() {
        groups.update(at, GroupView { args: with(groups[at].args, member), ..groups[at] })
    } else {
        groups.push(
            GroupView {
                name: group,
                args: seq![member],
                required: false,
                requires: Seq::empty(),
                conflicts: Seq::empty(),
            },
        )
    }
}

/// `groups` with the group `g`: merged into the group of that name, whose
/// members it joins and whose rules it replaces, or else added at the end.
pub open spec fn groups_with(groups: Seq<GroupView>, g: GroupView) -> Seq<GroupView> {
    let at = group_by_name(groups, g.name);
    if at < groups.len() {
        groups.update(at, GroupView { args: with_all(groups[at].args, g.args), ..g })
    } else {
        groups.push(g)
    }
}

/// The position an argument declared as `a` takes among the positionals of
/// a command that has `count` of them: the one it names, or the next one.
pub open spec fn position_of(a: ArgView, count: nat) -> int {
    match a.index {
        Some(i) => i as int,
        None => (count + 1) as int,
    }
}

/// The registered form of the declaration `a`, at the position `index`.
pub open spec fn registered(a: ArgView, index: u8) -> Decl {
    Decl {
        name: a.name,
        short: a.short,
        long: a.long,
        help: a.help,
        required: a.required,
        multiple: a.multiple,
        index: index,
        blacklist: with_all(Seq::empty(), listed(a.blacklist)),
        requires: with_all(Seq::empty(), listed(a.requires)),
        possible_vals: sorted_with_all(Seq::empty(), listed(a.possible_vals)),
    }
}

impl AppView {
    /// The model of a command that has a name and nothing else.
    pub open spec fn empty(name: Text) -> AppView {
        AppView {
            name: name,
            bin_name: None,
            author: None,
            version: None,
            about: None,
            more_help: None,
            usage_str: None,
            flags: Seq::empty(),
            opts: Seq::empty(),
            positionals: Seq::empty(),
            subcommands: Seq::empty(),
            groups: Seq::empty(),
            needs_long_help: true,
            needs_long_version: true,
            needs_short_help: true,
            needs_short_version: true,
            needs_subcmd_help: true,
            required: Seq::empty(),
            blacklist: Seq::empty(),
        }
    }

    /// Whether an argument called `name` is registered.
    pub open spec fn has_name(self, name: Text) -> bool {
        ||| by_name(self.flags, name) < self.flags.len()
        ||| by_name(self.opts, name) < self.opts.len()
        ||| by_name(self.positionals, name) < self.positionals.len()
    }

    /// Whether an argument with the short form `c` is registered.
    pub open spec fn has_short(self, c: char) -> bool {
        ||| by_short(self.flags, c) < self.flags.len()
        ||| by_short(self.opts, c) < self.opts.len()
    }

    /// Whether an argument with the long form `long` is registered.
    pub open spec fn has_long(self, long: Text) -> bool {
        ||| by_long(self.flags, long) < self.flags.len()
        ||| by_long(self.opts, long) < self.opts.len()
    }

    /// Whether a positional argument with the position `index` is registered.
    pub open spec fn has_index(self, index: int) -> bool {
        by_index(self.positionals, index) < self.positionals.len()
    }

    /// Whether the declaration `a` can be registered, and if not, why.
    ///
    /// A name, a short form and a long form can be used once. A positional
    /// has no short or long form, is not declared to take a value and needs
    /// a free position. A flag is not required and has no possible values.
    pub open spec fn check(self, a: ArgView) -> Result<(), SchemaError> {
        if self.has_name(a.name) {
            Err(SchemaError::DuplicateName)
        } else if a.short is Some && self.has_short(a.short->0) {
            Err(SchemaError::DuplicateShort)
        } else if a.long is Some && self.has_long(a.long->0) {
            Err(SchemaError::DuplicateLong)
        } else if is_positional(a) {
            if a.short is Some || a.long is Some {
                Err(SchemaError::PositionalWithSwitch)
            } else if position_of(a, self.positionals.len()) > u8::MAX {
                Err(SchemaError::NoFreeIndex)
            } else if self.has_index(position_of(a, self.positionals.len())) {
                Err(SchemaError::DuplicateIndex)
            } else if a.takes_value {
                Err(SchemaError::PositionalTakesValue)
            } else {
                Ok(())
            }
        } else if a.takes_value {
            Ok(())
        } else if a.required {
            Err(SchemaError::RequiredFlag)
        } else if a.possible_vals is Some {
            Err(SchemaError::FlagWithValues)
        } else {
            Ok(())
        }
    }

    /// The command with what the declaration `a` says beside its own entry.
    ///
    /// The argument joins its group; a short form `h` or `v` and a long form
    /// `help` or `version` take that form away from the automatic help and
    /// version; and a required argument is noted as such.
    pub open spec fn noting(self, a: ArgView) -> AppView {
        AppView {
            groups: match a.group {
                Some(g) => groups_with_member(self.groups, g, a.name),
                None => self.groups,
            },
            needs_short_help: self.needs_short_help && a.short != Some('h'),
            needs_short_version: self.needs_short_version && a.short != Some('v'),
            needs_long_help: self.needs_long_help && a.long != Some("help"@),
            needs_long_version: self.needs_long_version && a.long != Some("version"@),
            required: if a.required {
                with(self.required, a.name)
            } else {
                self.required
            },
            ..self
        }
    }

    /// The command with the declaration `a` registered: what it says is
    /// noted, and its entry goes to the store of its kind.
    pub open spec fn with_arg(self, a: ArgView) -> AppView {
        let base = self.noting(a);
        if is_positional(a) {
            AppView {
                positionals: put_by_index(
                    self.positionals,
                    registered(a, position_of(a, self.positionals.len()) as u8),
                ),
                ..base
            }
        } else if a.takes_value {
            AppView { opts: put_by_name(self.opts, registered(a, 0)), ..base }
        } else {
            AppView { flags: put_by_name(self.flags, registered(a, 0)), ..base }
        }
    }

    /// Whether the declarations `args` can be registered one after the other.
    pub open spec fn accepts_all(self, args: Seq<ArgView>) -> bool
        decreases args.len(),
    {
        args.len() == 0 || (self.accepts_all(args.drop_last()) && self.with_args(
            args.drop_last(),
        ).check(args.last()) is Ok)
    }

    /// The command with the declarations `args` registered, in order.
    pub open spec fn with_args(self, args: Seq<ArgView>) -> AppView
        decreases args.len(),
    {
        if args.len() == 0 {
            self
        } else {
            self.with_args(args.drop_last()).with_arg(args.last())
        }
    }

    /// The command with the argument that the usage line `u` describes, or
    /// why there is none: the line describes no argument, or the command
    /// cannot take the one it describes.
    pub open spec fn with_usage(self, u: Text) -> Result<AppView, SchemaError> {
        match usage_arg(u) {
            Err(e) => Err(e),
            Ok(a) => match self.check(a) {
                Err(e) => Err(e),
                Ok(_) => Ok(self.with_arg(a)),
            },
        }
    }

    /// The command with the arguments that the first `n` of `lines`
    /// describe, or the first fault among them.
    pub open spec fn with_usages(self, lines: Seq<Text>, n: nat) -> Result<AppView, SchemaError>
        decreases n,
    {
        if n == 0 {
            Ok(self)
        } else {
            match self.with_usages(lines, (n - 1) as nat) {
                Err(e) => Err(e),
                Ok(app) => app.with_usage(lines[n - 1]),
            }
        }
    }

    /// The command with the group `g`.
    ///
    /// The rules of a required group hold from the start: its name and what
    /// it requires are required, and what it conflicts with is excluded.
    pub open spec fn with_group(self, g: GroupView) -> AppView {
        AppView {
            required: if g.required {
                with_all(with(self.required, g.name), g.requires)
            } else {
                self.required
            },
            blacklist: if g.required {
                with_all(self.blacklist, g.conflicts)
            } else {
                self.blacklist
            },
            groups: groups_with(self.groups, g),
            ..self
        }
    }

    /// The command with the groups `gs`, in order.
    pub open spec fn with_groups(self, gs: Seq<GroupView>) -> AppView
        decreases gs.len(),
    {
        if gs.len() == 0 {
            self
        } else {
            self.with_groups(gs.drop_last()).with_group(gs.last())
        }
    }

    /// The command with the subcommand `sub`, which takes the place of a
    /// subcommand of the same name. A subcommand called `help` takes the
    /// place of the automatic one.
    pub open spec fn with_subcommand(self, sub: AppView) -> AppView {
        AppView {
            needs_subcmd_help: self.needs_subcmd_help && sub.name != "help"@,
            subcommands: put_sub(self.subcommands, sub),
            ..self
        }
    }

    /// The command with the subcommands `subs`, in order.
    pub open spec fn with_subcommands(self, subs: Seq<AppView>) -> AppView
        decreases subs.len(),
    {
        if subs.len() == 0 {
            self
        } else {
            self.with_subcommands(subs.drop_last()).with_subcommand(subs.last())
        }
    }
}

/// Whether `d` is one of the arguments of `p`.
pub open spec fn declared(p: AppView, d: Decl) -> bool {
    ||| exists|k: int| 0 <= k < p.flags.len() && #[trigger] p.flags[k] == d
    ||| exists|k: int| 0 <= k < p.opts.len() && #[trigger] p.opts[k] == d
    ||| exists|k: int| 0 <= k < p.positionals.len() && #[trigger] p.positionals[k] == d
}

/// No two arguments of `p` have one name.
pub open spec fn named_apart(p: AppView) -> bool {
    forall|d1: Decl, d2: Decl|
        #[trigger] declared(p, d1) && #[trigger] declared(p, d2) && d1.name == d2.name ==> d1
            == d2
}

/// No two groups of `p` have one name.
pub open spec fn groups_apart(p: AppView) -> bool {
    forall|i: int, j: int|
        0 <= i < j < p.groups.len() ==> (#[trigger] p.groups[i]).name != (
        #[trigger] p.groups[j]).name
}

/// The names of `p` tell its arguments apart, and its groups.
pub open spec fn sound(p: AppView) -> bool {
    named_apart(p) && groups_apart(p)
}

/// The names of all arguments of `p`: of its flags, its options and its
/// positionals, in this order.
pub open spec fn all_names(p: AppView) -> Seq<Text> {
    decl_names(p.flags) + decl_names(p.opts) + decl_names(p.positionals)
}

/// The positions of `pos` ascend.
pub open spec fn ascending_indices(pos: Seq<Decl>) -> bool {
    forall|i: int, j: int|
        0 <= i < j < pos.len() ==> (#[trigger] pos[i]).index < (#[trigger] pos[j]).index
}

/// Whether `p` is a command as the methods of [`App`] build it: no two of
/// its arguments have one name, nor two of its groups; no name is twice
/// among those it requires or excludes, nor among those an argument
/// requires or excludes; its flags, options and subcommands are kept in
/// ascending order of their names, its positionals in ascending order of
/// their positions, and the possible values of an argument in ascending
/// order; and its subcommands are such commands themselves.
#[verifier::opaque]
pub open spec fn well_formed(p: AppView) -> bool
    decreases p,
{
    &&& distinct(all_names(p))
    &&& groups_apart(p)
    &&& distinct(p.required)
    &&& distinct(p.blacklist)
    &&& store_formed(p.flags)
    &&& store_formed(p.opts)
    &&& store_formed(p.positionals)
    &&& ascending(decl_names(p.flags))
    &&& ascending(decl_names(p.opts))
    &&& ascending_indices(p.positionals)
    &&& ascending(app_names(p.subcommands))
    &&& forall|i: int| 0 <= i < p.subcommands.len() ==> well_formed(#[trigger] p.subcommands[i])
}

/// A list of commands kept by name, with `sub` in it: in place of the
/// command of that name, or else where the name belongs.
pub open spec fn put_sub(subs: Seq<AppView>, sub: AppView) -> Seq<AppView> {
    if sub_by_name(subs, sub.name) < subs.len() {
        subs.update(sub_by_name(subs, sub.name), sub)
    } else {
        subs.insert(slot_of(app_names(subs), sub.name) as int, sub)
    }
}

/// The description of a command line program: its name and texts, the
/// arguments it takes, their groups, and its subcommands.
///
/// A description is built up with the methods of this type and then used to
/// parse an argument vector with [`App::get_matches`].
pub struct App<'a, 'v, 'ab, 'u, 'h, 'ar> {
    pub(crate) name: &'ar str,
    pub(crate) author: Option<&'a str>,
    pub(crate) version: Option<&'v str>,
    pub(crate) about: Option<&'ab str>,
    pub(crate) more_help: Option<&'h str>,
    pub(crate) flags: Vec<ArgBuilder<'ar>>,
    pub(crate) opts: Vec<ArgBuilder<'ar>>,
    pub(crate) positionals: Vec<ArgBuilder<'ar>>,
    pub(crate) subcommands: Vec<App<'a, 'v, 'ab, 'u, 'h, 'ar>>,
    pub(crate) needs_long_help: bool,
    pub(crate) needs_long_version: bool,
    pub(crate) needs_short_help: bool,
    pub(crate) needs_short_version: bool,
    pub(crate) needs_subcmd_help: bool,
    pub(crate) required: Vec<&'ar str>,
    pub(crate) blacklist: Vec<&'ar str>,
    pub(crate) usage_str: Option<&'u str>,
    pub(crate) bin_name: Option<String>,
    pub(crate) groups: Vec<ArgGroup<'ar, 'ar>>,
}

/// The models of a list of commands.
pub open(crate) spec fn app_views(subs: Seq<App>) -> Seq<AppView>
    decreases subs,
{
    Seq::new(
        subs.len(),
        |i: int|
            if 0 <= i < subs.len() {
                subs[i].view()
            } else {
                arbitrary()
            },
    )
}

/// The position of the group called `name`.
pub fn find_group(groups: &Vec<ArgGroup>, name: &str) -> (r: Option<usize>)
    ensures
        match r {
            Some(i) => i < groups.len() && i == group_by_name(group_views(groups@), name@),
            None => group_by_name(group_views(groups@), name@) == groups.len(),
        },
{
    let ghost hits = Seq::new(groups.len() as nat, |i: int| group_views(groups@)[i].name == name@);
    let mut i: usize = 0;
    while i < groups.len()
        invariant
            i <= groups.len(),
            hits == Seq::new(groups.len() as nat, |i: int| group_views(groups@)[i].name == name@),
            forall|j: int| 0 <= j < i ==> !hits[j],
        decreases groups.len() - i,
    {
        if str_eq(groups[i].name, name) {
            proof {
                lemma_first_true_is(hits, i as int);
            }
            return Some(i);
        }
        i = i + 1;
    }
    proof {
        lemma_first_true_is(hits, i as int);
    }
    None
}

/// Puts the argument `member` into the group called `group`, which is
/// created where it does not exist.
fn add_member<'ar>(groups: &mut Vec<ArgGroup<'ar, 'ar>>, group: &'ar str, member: &'ar str)
    ensures
        group_views(final(groups)@) == groups_with_member(
            group_views(old(groups)@),
            group@,
            member@,
        ),
{
    match find_group(groups, group) {
        Some(i) => {
            let mut g = groups.remove(i);
            names_add(&mut g.args, member);
            groups.insert(i, g);
            assert(group_views(groups@) =~= groups_with_member(
                group_views(old(groups)@),
                group@,
                member@,
            ));
        },
        None => {
            let mut args: Vec<&'ar str> = Vec::new();
            args.push(member);
            let g = ArgGroup {
                name: group,
                args: args,
                required: false,
                requires: Vec::new(),
                conflicts: Vec::new(),
            };
            proof {
                assert(texts(g.args@) =~= seq![member@]);
                assert(texts(g.requires@) =~= Seq::<Text>::empty());
                assert(texts(g.conflicts@) =~= Seq::<Text>::empty());
            }
            groups.push(g);
            assert(group_views(groups@) =~= group_views(old(groups)@).push(g@));
        },
    }
}

/// Puts the group `g` into `groups`: merged into the group of that name,
/// or else at the end.
fn merge_group<'ar>(groups: &mut Vec<ArgGroup<'ar, 'ar>>, g: ArgGroup<'ar, 'ar>)
    ensures
        group_views(final(groups)@) == groups_with(group_views(old(groups)@), g@),
{
    match find_group(groups, g.name) {
        Some(i) => {
            let before = groups.remove(i);
            let mut args = before.args;
            names_add_all(&mut args, &g.args);
            let merged = ArgGroup {
                name: g.name,
                args: args,
                required: g.required,
                requires: g.requires,
                conflicts: g.conflicts,
            };
            groups.insert(i, merged);
            assert(group_views(groups@) =~= groups_with(group_views(old(groups)@), g@));
        },
        None => {
            groups.push(g);
            assert(group_views(groups@) =~= group_views(old(groups)@).push(g@));
        },
    }
}

/// The list without repetition of the names of an optional list.
fn collected<'ar>(list: &Option<Vec<&'ar str>>) -> (r: Vec<&'ar str>)
    ensures
        texts(r@) == with_all(Seq::empty(), listed(crate::args::arg::opt_texts(*list))),
{
    let mut r: Vec<&'ar str> = Vec::new();
    assert(texts(r@) =~= Seq::<Text>::empty());
    match list {
        Some(v) => {
            names_add_all(&mut r, v);
        },
        None => {},
    }
    r
}

/// The ascending list without repetition of the names of an optional list.
fn collected_sorted<'ar>(list: &Option<Vec<&'ar str>>) -> (r: Vec<&'ar str>)
    ensures
        texts(r@) == sorted_with_all(Seq::empty(), listed(crate::args::arg::opt_texts(*list))),
{
    let mut r: Vec<&'ar str> = Vec::new();
    assert(texts(r@) =~= Seq::<Text>::empty());
    match list {
        Some(v) => {
            names_add_all_sorted(&mut r, v);
        },
        None => {},
    }
    r
}

impl<'a, 'v, 'ab, 'u, 'h, 'ar> App<'a, 'v, 'ab, 'u, 'h, 'ar> {
    /// The model of the command.
    pub open(crate) spec fn view(&self) -> AppView
        decreases self,
    {
        AppView {
            name: self.name@,
            bin_name: match self.bin_name {
                Some(b) => Some(b@),
                None => None,
            },
            author: opt_text(self.author),
            version: opt_text(self.version),
            about: opt_text(self.about),
            more_help: opt_text(self.more_help),
            usage_str: opt_text(self.usage_str),
            flags: decls(self.flags@),
            opts: decls(self.opts@),
            positionals: decls(self.positionals@),
            subcommands: app_views(self.subcommands@),
            groups: group_views(self.groups@),
            needs_long_help: self.needs_long_help,
            needs_long_version: self.needs_long_version,
            needs_short_help: self.needs_short_help,
            needs_short_version: self.needs_short_version,
            needs_subcmd_help: self.needs_subcmd_help,
            required: texts(self.required@),
            blacklist: texts(self.blacklist@),
        }
    }

    /// Creates the description of a command called `n`, with no arguments.
    /// The name is shown in the version and help messages.
    pub fn new(n: &'ar str) -> (app: App<'a, 'v, 'ab, 'u, 'h, 'ar>)
        ensures
            app@ == AppView::empty(n@),
            well_formed(app@),
    {
        proof {
            crate::laws::schema::lemma_empty_well_formed(n@);
        }
        let app = App {
            name: n,
            author: None,
            about: None,
            more_help: None,
            version: None,
            flags: Vec::new(),
            opts: Vec::new(),
            positionals: Vec::new(),
            subcommands: Vec::new(),
            needs_long_version: true,
            needs_long_help: true,
            needs_short_help: true,
            needs_subcmd_help: true,
            needs_short_version: true,
            required: Vec::new(),
            usage_str: None,
            blacklist: Vec::new(),
            bin_name: None,
            groups: Vec::new(),
        };
        proof {
            let v = app@;
            let e = AppView::empty(n@);
            assert(v.flags =~= e.flags);
            assert(v.opts =~= e.opts);
            assert(v.positionals =~= e.positionals);
            assert(v.subcommands =~= e.subcommands);
            assert(v.groups =~= e.groups);
            assert(v.required =~= e.required);
            assert(v.blacklist =~= e.blacklist);
        }
        app
    }

    /// Whether an argument called `name` is registered.
    pub fn has_name(&self, name: &str) -> (r: bool)
        ensures
            r == self@.has_name(name@),
    {
        find_by_name(&self.flags, name).is_some() || find_by_name(&self.opts, name).is_some()
            || find_by_name(&self.positionals, name).is_some()
    }

    /// Whether an argument with the short form `c` is registered.
    pub fn has_short(&self, c: char) -> (r: bool)
        ensures
            r == self@.has_short(c),
    {
        find_by_short(&self.flags, c).is_some() || find_by_short(&self.opts, c).is_some()
    }

    /// Whether an argument with the long form `long` is registered.
    pub fn has_long(&self, long: &str) -> (r: bool)
        ensures
            r == self@.has_long(long@),
    {
        find_by_long(&self.flags, long).is_some() || find_by_long(&self.opts, long).is_some()
    }

    /// Tells whether the declaration `a` can be registered, and if not, why.
    pub fn check_arg(&self, a: &Arg) -> (r: Result<(), SchemaError>)
        ensures
            r == self@.check(a@),
    {
        if self.has_name(a.name) {
            return Err(SchemaError::DuplicateName);
        }
        match a.short {
            Some(s) => {
                if self.has_short(s) {
                    return Err(SchemaError::DuplicateShort);
                }
            },
            None => {},
        }
        match a.long {
            Some(l) => {
                if self.has_long(l) {
                    return Err(SchemaError::DuplicateLong);
                }
            },
            None => {},
        }
        if a.index.is_some() || (a.short.is_none() && a.long.is_none()) {
            if a.short.is_some() || a.long.is_some() {
                return Err(SchemaError::PositionalWithSwitch);
            }
            let slot: usize = match a.index {
                Some(i) => i as usize,
                None => {
                    if self.positionals.len() >= 255 {
                        return Err(SchemaError::NoFreeIndex);
                    }
                    self.positionals.len() + 1
                },
            };
            if find_by_index(&self.positionals, slot).is_some() {
                Err(SchemaError::DuplicateIndex)
            } else if a.takes_value {
                Err(SchemaError::PositionalTakesValue)
            } else {
                Ok(())
            }
        } else if a.takes_value {
            Ok(())
        } else if a.required {
            Err(SchemaError::RequiredFlag)
        } else if a.possible_vals.is_some() {
            Err(SchemaError::FlagWithValues)
        } else {
            Ok(())
        }
    }

    /// Notes what the declaration `a` says beside its own entry.
    fn note(self, a: &Arg<'ar, 'ar, 'ar, 'ar, 'ar, 'ar>) -> (app: App<'a, 'v, 'ab, 'u, 'h, 'ar>)
        ensures
            app@ == self@.noting(a@),
    {
        let mut app = self;
        match a.group {
            Some(grp) => {
                add_member(&mut app.groups, grp, a.name);
            },
            None => {},
        }
        let short_h = match a.short {
            Some(s) => s == 'h',
            None => false,
        };
        let short_v = match a.short {
            Some(s) => s == 'v',
            None => false,
        };
        let long_help = match a.long {
            Some(l) => str_eq(l, "help"),
            None => false,
        };
        let long_version = match a.long {
            Some(l) => str_eq(l, "version"),
            None => false,
        };
        app.needs_short_help = app.needs_short_help && !short_h;
        app.needs_short_version = app.needs_short_version && !short_v;
        app.needs_long_help = app.needs_long_help && !long_help;
        app.needs_long_version = app.needs_long_version && !long_version;
        if a.required {
            names_add(&mut app.required, a.name);
        }
        app
    }

    /// Registers the declaration `a`, which [`App::check_arg`] accepts.
    ///
    /// The declaration becomes a positional argument when it has a position
    /// or neither a short nor a long form, an option when it takes a value,
    /// and a flag otherwise.
    pub fn arg(self, a: Arg<'ar, 'ar, 'ar, 'ar, 'ar, 'ar>) -> (app: App<'a, 'v, 'ab, 'u, 'h, 'ar>)
        requires
            self@.check(a@) is Ok,
        ensures
            app@ == self@.with_arg(a@),
            well_formed(self@) ==> well_formed(app@),
    {
        proof {
            if well_formed(self@) {
                crate::laws::schema::lemma_with_arg_well_formed(self@, a@);
            }
        }
        let mut app = self.note(&a);
        let positional = a.index.is_some() || (a.short.is_none() && a.long.is_none());
        let index: u8 = if positional {
            match a.index {
                Some(i) => i,
                None => (app.positionals.len() + 1) as u8,
            }
        } else {
            0
        };
        let b = ArgBuilder {
            name: a.name,
            short: a.short,
            long: a.long,
            help: a.help,
            required: a.required,
            multiple: a.multiple,
            index: index,
            blacklist: collected(&a.blacklist),
            requires: collected(&a.requires),
            possible_vals: collected_sorted(&a.possible_vals),
        };
        assert(b@ == registered(a@, index));
        if positional {
            store_by_index(&mut app.positionals, b);
        } else if a.takes_value {
            store_by_name(&mut app.opts, b);
        } else {
            store_by_name(&mut app.flags, b);
        }
        app
    }

    /// Registers the declaration `a`, or tells why it cannot be registered.
    pub fn try_arg(self, a: Arg<'ar, 'ar, 'ar, 'ar, 'ar, 'ar>) -> (r: Result<
        App<'a, 'v, 'ab, 'u, 'h, 'ar>,
        SchemaError,
    >)
        ensures
            built(r) == match self@.check(a@) {
                Ok(_) => Ok(self@.with_arg(a@)),
                Err(e) => Err(e),
            },
            well_formed(self@) && r is Ok ==> well_formed(r->Ok_0@),
    {
        match self.check_arg(&a) {
            Ok(_) => Ok(self.arg(a)),
            Err(e) => Err(e),
        }
    }

    /// Registers the argument that the usage line `usage` describes, or
    /// tells why it cannot be registered.
    pub fn try_arg_from_usage(self, usage: &'ar str) -> (r: Result<
        App<'a, 'v, 'ab, 'u, 'h, 'ar>,
        SchemaError,
    >)
        ensures
            built(r) == self@.with_usage(usage@),
            well_formed(self@) && r is Ok ==> well_formed(r->Ok_0@),
    {
        match Arg::try_from_usage(usage) {
            Ok(a) => self.try_arg(a),
            Err(e) => Err(e),
        }
    }

    /// Registers the argument that the usage line `usage` describes. The
    /// line has to describe an argument that the command can take, which
    /// [`App::try_arg_from_usage`] tells.
    pub fn arg_from_usage(self, usage: &'ar str) -> (app: App<'a, 'v, 'ab, 'u, 'h, 'ar>)
        requires
            self@.with_usage(usage@) is Ok,
        ensures
            Ok::<AppView, SchemaError>(app@) == self@.with_usage(usage@),
            well_formed(self@) ==> well_formed(app@),
    {
        self.try_arg_from_usage(usage).unwrap()
    }

    /// Registers the arguments that the lines of `usage` describe, one
    /// line for each, or tells the first fault among them. Blanks around a
    /// line do not count.
    pub fn try_args_from_usage(self, usage: &'ar str) -> (r: Result<
        App<'a, 'v, 'ab, 'u, 'h, 'ar>,
        SchemaError,
    >)
        ensures
            built(r) == self@.with_usages(usage_lines(usage@), usage_lines(usage@).len()),
            well_formed(self@) && r is Ok ==> well_formed(r->Ok_0@),
    {
        let lines = split_usage(usage);
        let ghost all = usage_lines(usage@);
        let ghost start = self@;
        let mut app = self;
        let mut i: usize = 0;
        while i < lines.len()
            invariant
                i <= lines.len(),
                texts(lines@) == all,
                all == usage_lines(usage@),
                start == self@,
                start.with_usages(all, i as nat) == Ok::<AppView, SchemaError>(app@),
                well_formed(start) ==> well_formed(app@),
            decreases lines.len() - i,
        {
            assert(all[i as int] == lines@[i as int]@);
            let ghost cur = app@;
            let step = app.try_arg_from_usage(lines[i]);
            assert(start.with_usages(all, (i + 1) as nat) == cur.with_usage(all[i as int]));
            match step {
                Ok(next) => {
                    app = next;
                },
                Err(e) => {
                    proof {
                        lemma_usage_fault(start, all, (i + 1) as nat, all.len());
                    }
                    return Err(e);
                },
            }
            i = i + 1;
        }
        Ok(app)
    }

    /// Registers the arguments that the lines of `usage` describe. Each
    /// line has to describe an argument that the command can take, which
    /// [`App::try_args_from_usage`] tells.
    pub fn args_from_usage(self, usage: &'ar str) -> (app: App<'a, 'v, 'ab, 'u, 'h, 'ar>)
        requires
            self@.with_usages(usage_lines(usage@), usage_lines(usage@).len()) is Ok,
        ensures
            Ok::<AppView, SchemaError>(app@) == self@.with_usages(
                usage_lines(usage@),
                usage_lines(usage@).len(),
            ),
            well_formed(self@) ==> well_formed(app@),
    {
        self.try_args_from_usage(usage).unwrap()
    }

    /// Registers the declarations `args`, one after the other.
    pub fn args(self, args: Vec<Arg<'ar, 'ar, 'ar, 'ar, 'ar, 'ar>>) -> (app: App<
        'a,
        'v,
        'ab,
        'u,
        'h,
        'ar,
    >)
        requires
            self@.accepts_all(arg_views(args@)),
        ensures
            app@ == self@.with_args(arg_views(args@)),
            well_formed(self@) ==> well_formed(app@),
    {
        let mut app = self;
        let ghost all = arg_views(args@);
        let ghost start = self@;
        for a in it: args
            invariant
                it.seq() == args@,
                all == arg_views(args@),
                start.accepts_all(all),
                app@ == start.with_args(all.take(it.index() as int)),
                well_formed(start) ==> well_formed(app@),
        {
            proof {
                let i = it.index() as int;
                lemma_accepts_prefix(start, all, i + 1);
                let t = all.take(i + 1);
                assert(t.drop_last() =~= all.take(i));
                assert(t.last() == all[i]);
            }
            app = app.arg(a);
        }
        proof {
            assert(all.take(all.len() as int) =~= all);
        }
        app
    }

    /// Adds the group `group` to the command.
    ///
    /// Of the arguments of a group at most one may be used; a required group
    /// asks for exactly one. A group that the command has already, because
    /// arguments were put into it, takes the members of both.
    pub fn arg_group(self, group: ArgGroup<'ar, 'ar>) -> (app: App<'a, 'v, 'ab, 'u, 'h, 'ar>)
        ensures
            app@ == self@.with_group(group@),
            well_formed(self@) ==> well_formed(app@),
    {
        proof {
            if well_formed(self@) {
                crate::laws::schema::lemma_with_group_well_formed(self@, group@);
            }
        }
        let mut app = self;
        if group.required {
            names_add(&mut app.required, group.name);
            names_add_all(&mut app.required, &group.requires);
            names_add_all(&mut app.blacklist, &group.conflicts);
        }
        merge_group(&mut app.groups, group);
        app
    }

    /// Adds the groups `groups` to the command, one after the other.
    pub fn arg_groups(self, groups: Vec<ArgGroup<'ar, 'ar>>) -> (app: App<'a, 'v, 'ab, 'u, 'h, 'ar>)
        ensures
            app@ == self@.with_groups(group_views(groups@)),
            well_formed(self@) ==> well_formed(app@),
    {
        let mut app = self;
        let ghost all = group_views(groups@);
        let ghost start = self@;
        for g in it: groups
            invariant
                it.seq() == groups@,
                all == group_views(groups@),
                app@ == start.with_groups(all.take(it.index() as int)),
                well_formed(start) ==> well_formed(app@),
        {
            proof {
                let i = it.index() as int;
                let t = all.take(i + 1);
                assert(t.drop_last() =~= all.take(i));
                assert(t.last() == all[i]);
            }
            app = app.arg_group(g);
        }
        proof {
            assert(all.take(all.len() as int) =~= all);
        }
        app
    }

    /// Adds the subcommand `subcmd` to the command. A subcommand has
    /// arguments, a version and a usage of its own, and may have
    /// subcommands in turn.
    pub fn subcommand(self, subcmd: App<'a, 'v, 'ab, 'u, 'h, 'ar>) -> (app: App<
        'a,
        'v,
        'ab,
        'u,
        'h,
        'ar,
    >)
        ensures
            app@ == self@.with_subcommand(subcmd@),
            well_formed(self@) && well_formed(subcmd@) ==> well_formed(app@),
    {
        proof {
            if well_formed(self@) && well_formed(subcmd@) {
                crate::laws::schema::lemma_with_subcommand_well_formed(self@, subcmd@);
            }
        }
        let mut app = self;
        if str_eq(subcmd.name, "help") {
            app.needs_subcmd_help = false;
        }
        put_subcommand(&mut app.subcommands, subcmd);
        app
    }

    /// Adds the subcommands `subcmds` to the command, one after the other.
    pub fn subcommands(self, subcmds: Vec<App<'a, 'v, 'ab, 'u, 'h, 'ar>>) -> (app: App<
        'a,
        'v,
        'ab,
        'u,
        'h,
        'ar,
    >)
        ensures
            app@ == self@.with_subcommands(app_views(subcmds@)),
            well_formed(self@) && (forall|i: int|
                0 <= i < subcmds.len() ==> well_formed(#[trigger] app_views(subcmds@)[i]))
                ==> well_formed(app@),
    {
        let mut app = self;
        let ghost all = app_views(subcmds@);
        let ghost start = self@;
        for sub in it: subcmds
            invariant
                it.seq() == subcmds@,
                all == app_views(subcmds@),
                app@ == start.with_subcommands(all.take(it.index() as int)),
                well_formed(start) && (forall|i: int|
                    0 <= i < all.len() ==> well_formed(#[trigger] all[i])) ==> well_formed(app@),
        {
            proof {
                let i = it.index() as int;
                let t = all.take(i + 1);
                assert(t.drop_last() =~= all.take(i));
                assert(t.last() == all[i]);
            }
            app = app.subcommand(sub);
        }
        proof {
            assert(all.take(all.len() as int) =~= all);
        }
        app
    }

    /// Sets the author line of the help message.
    pub fn author(self, a: &'a str) -> (app: App<'a, 'v, 'ab, 'u, 'h, 'ar>)
        ensures
            app@ == (AppView { author: Some(a@), ..self@ }),
            well_formed(self@) ==> well_formed(app@),
    {
        proof {
            lemma_texts_keep_form(self@, AppView { author: Some(a@), ..self@ });
        }
        let mut app = self;
        app.author = Some(a);
        app
    }

    /// Sets the line of the help message that says what the program does.
    pub fn about(self, a: &'ab str) -> (app: App<'a, 'v, 'ab, 'u, 'h, 'ar>)
        ensures
            app@ == (AppView { about: Some(a@), ..self@ }),
            well_formed(self@) ==> well_formed(app@),
    {
        proof {
            lemma_texts_keep_form(self@, AppView { about: Some(a@), ..self@ });
        }
        let mut app = self;
        app.about = Some(a);
        app
    }

    /// Sets the text that is shown after the generated help message.
    pub fn after_help(self, h: &'h str) -> (app: App<'a, 'v, 'ab, 'u, 'h, 'ar>)
        ensures
            app@ == (AppView { more_help: Some(h@), ..self@ }),
            well_formed(self@) ==> well_formed(app@),
    {
        proof {
            lemma_texts_keep_form(self@, AppView { more_help: Some(h@), ..self@ });
        }
        let mut app = self;
        app.more_help = Some(h);
        app
    }

    /// Sets the version shown by the version and help messages.
    pub fn version(self, v: &'v str) -> (app: App<'a, 'v, 'ab, 'u, 'h, 'ar>)
        ensures
            app@ == (AppView { version: Some(v@), ..self@ }),
            well_formed(self@) ==> well_formed(app@),
    {
        proof {
            lemma_texts_keep_form(self@, AppView { version: Some(v@), ..self@ });
        }
        let mut app = self;
        app.version = Some(v);
        app
    }

    /// Sets the usage line, from the program's name on, that replaces the
    /// generated one. The heading of the usage text stays.
    pub fn usage(self, u: &'u str) -> (app: App<'a, 'v, 'ab, 'u, 'h, 'ar>)
        ensures
            app@ == (AppView { usage_str: Some(u@), ..self@ }),
            well_formed(self@) ==> well_formed(app@),
    {
        proof {
            lemma_texts_keep_form(self@, AppView { usage_str: Some(u@), ..self@ });
        }
        let mut app = self;
        app.usage_str = Some(u);
        app
    }
}

/// The models of a list of declarations.
pub open spec fn arg_views(v: Seq<Arg>) -> Seq<ArgView> {
    Seq::new(v.len(), |i: int| v[i]@)
}

/// Declarations that can be registered one after the other can be
/// registered up to any point.
pub proof fn lemma_accepts_prefix(app: AppView, args: Seq<ArgView>, n: int)
    requires
        app.accepts_all(args),
        0 <= n <= args.len(),
    ensures
        app.accepts_all(args.take(n)),
        n > 0 ==> app.with_args(args.take(n - 1)).check(args[n - 1]) is Ok,
    decreases args.len(),
{
    if n == args.len() {
        assert(args.take(n) =~= args);
        if n > 0 {
            assert(args.take(n - 1) =~= args.drop_last());
        }
    } else {
        lemma_accepts_prefix(app, args.drop_last(), n);
        assert(args.drop_last().take(n) =~= args.take(n));
        if n > 0 {
            assert(args.drop_last().take(n - 1) =~= args.take(n - 1));
        }
    }
}

/// The position of the subcommand called `name`.
pub fn find_subcommand(subs: &Vec<App>, name: &str) -> (r: Option<usize>)
    ensures
        match r {
            Some(i) => i < subs.len() && i == sub_by_name(app_views(subs@), name@),
            None => sub_by_name(app_views(subs@), name@) == subs.len(),
        },
{
    let ghost hits = Seq::new(subs.len() as nat, |i: int| app_views(subs@)[i].name == name@);
    let mut i: usize = 0;
    while i < subs.len()
        invariant
            i <= subs.len(),
            hits == Seq::new(subs.len() as nat, |i: int| app_views(subs@)[i].name == name@),
            forall|j: int| 0 <= j < i ==> !hits[j],
        decreases subs.len() - i,
    {
        if str_eq(subs[i].name, name) {
            proof {
                lemma_first_true_is(hits, i as int);
            }
            return Some(i);
        }
        i = i + 1;
    }
    proof {
        lemma_first_true_is(hits, i as int);
    }
    None
}

/// Puts `sub` into a list of commands kept by name: in place of the command
/// of that name, or else where the name belongs.
pub(crate) fn put_subcommand<'a, 'v, 'ab, 'u, 'h, 'ar>(
    subs: &mut Vec<App<'a, 'v, 'ab, 'u, 'h, 'ar>>,
    sub: App<'a, 'v, 'ab, 'u, 'h, 'ar>,
)
    ensures
        app_views(final(subs)@) == put_sub(app_views(old(subs)@), sub@),
{
    match find_subcommand(subs, sub.name) {
        Some(i) => {
            subs.set(i, sub);
            assert(app_views(subs@) =~= app_views(old(subs)@).update(i as int, sub@));
        },
        None => {
            let mut i: usize = 0;
            while i < subs.len() && str_lt(subs[i].name, sub.name)
                invariant
                    i <= subs.len(),
                    subs@ == old(subs)@,
                    forall|j: int|
                        0 <= j < i ==> text_lt(#[trigger] app_names(app_views(subs@))[j], sub.name@),
                decreases subs.len() - i,
            {
                i = i + 1;
            }
            proof {
                lemma_slot_of_is(app_names(app_views(subs@)), sub.name@, i as nat);
            }
            subs.insert(i, sub);
            assert(app_views(subs@) =~= app_views(old(subs)@).insert(i as int, sub@));
        },
    }
}

/// The model of the result of building a command.
pub open(crate) spec fn built(r: Result<App, SchemaError>) -> Result<AppView, SchemaError> {
    match r {
        Ok(app) => Ok(app@),
        Err(e) => Err(e),
    }
}

/// A fault among the first `n` usage lines is the fault of any longer list.
pub proof fn lemma_usage_fault(app: AppView, lines: Seq<Text>, n: nat, m: nat)
    requires
        n <= m <= lines.len(),
        app.with_usages(lines, n) is Err,
    ensures
        app.with_usages(lines, m) == app.with_usages(lines, n),
    decreases m,
{
    if n < m {
        lemma_usage_fault(app, lines, n, (m - 1) as nat);
    }
}

/// A command that differs from a well formed one only in its texts is
/// well formed.
pub proof fn lemma_texts_keep_form(a: AppView, b: AppView)
    requires
        b.flags == a.flags,
        b.opts == a.opts,
        b.positionals == a.positionals,
        b.subcommands == a.subcommands,
        b.groups == a.groups,
        b.required == a.required,
        b.blacklist == a.blacklist,
    ensures
        well_formed(a) ==> well_formed(b),
{
    reveal(well_formed);
    assert(all_names(b) == all_names(a));
}

impl<'n, 'a> SubCommand<'n, 'a> {
    /// Creates the description of a subcommand called `name`. A subcommand
    /// is described as a command is.
    pub fn new<'au, 'v, 'ab, 'u, 'h, 'ar>(name: &'ar str) -> (app: App<'au, 'v, 'ab, 'u, 'h, 'ar>)
        ensures
            app@ == AppView::empty(name@),
            well_formed(app@),
    {
        App::new(name)
    }
}

} // verus!
