//! What is done to a command before its arguments are parsed.
//!
//! The positions of the positional arguments are checked, a required
//! positional makes those before it required, and the automatic help and
//! version arguments are added.

use vstd::prelude::*;
use crate::text::Text;
use crate::names::texts;
use crate::names::with_all;
use crate::names::names_add;
use crate::search::last_true;
use crate::search::lemma_last_true;
use crate::search::lemma_last_true_is;
use crate::errors::SchemaError;
use crate::args::builders::Decl;
use crate::args::builders::ArgBuilder;
use crate::args::builders::decls;
use crate::args::builders::decl_names;
use crate::args::builders::put_by_name;
use crate::args::builders::store_by_name;
use crate::app::App;
use crate::app::AppView;
use crate::app::put_sub;
use crate::app::put_subcommand;

verus! {

/// The positions run from 1 without a gap.
pub open spec fn contiguous(pos: Seq<Decl>) -> bool {
    forall|i: int| 0 <= i < pos.len() ==> (#[trigger] pos[i]).index == i + 1
}

/// No positional but the last collects values.
pub open spec fn multiple_last(pos: Seq<Decl>) -> bool {
    forall|i: int| 0 <= i < pos.len() - 1 ==> !(#[trigger] pos[i]).multiple
}

/// Whether the positionals of one command are in order, and if not, why.
pub open spec fn check_positionals(pos: Seq<Decl>) -> Result<(), SchemaError> {
    if !contiguous(pos) {
        Err(SchemaError::PositionalGap)
    } else if !multiple_last(pos) {
        Err(SchemaError::MultipleNotLast)
    } else {
        Ok(())
    }
}

/// The first fault among the positionals of the first `n` of `subs`, taking
/// each with its own subcommands.
pub open spec fn subs_preflight(subs: Seq<AppView>, n: nat) -> Result<(), SchemaError>
    decreases subs, n,
{
    if n == 0 || n > subs.len() {
        Ok(())
    } else {
        match subs_preflight(subs, (n - 1) as nat) {
            Err(e) => Err(e),
            Ok(_) => subs[n - 1].preflight(),
        }
    }
}

/// The highest position in `pos` of a required positional, or `-1`.
pub open spec fn last_required(pos: Seq<Decl>) -> int {
    last_true(Seq::new(pos.len(), |i: int| pos[i].required))
}

/// `pos` with every positional before the last required one made required.
pub open spec fn prefix_required(pos: Seq<Decl>) -> Seq<Decl> {
    Seq::new(
        pos.len(),
        |i: int|
            if i < last_required(pos) {
                Decl { required: true, ..pos[i] }
            } else {
                pos[i]
            },
    )
}

/// The names of the positionals before the last required one.
pub open spec fn prefix_names(pos: Seq<Decl>) -> Seq<Text> {
    if last_required(pos) > 0 {
        decl_names(pos).take(last_required(pos))
    } else {
        Seq::empty()
    }
}

/// The flag that asks for the help message.
pub open spec fn help_flag(short: bool) -> Decl {
    Decl {
        name: "hclap_help"@,
        short: if short {
            Some('h')
        } else {
            None
        },
        long: Some("help"@),
        help: Some("Prints help information"@),
        required: false,
        multiple: false,
        index: 0,
        blacklist: Seq::empty(),
        requires: Seq::empty(),
        possible_vals: Seq::empty(),
    }
}

/// The flag that asks for the version message.
pub open spec fn version_flag(short: bool) -> Decl {
    Decl {
        name: "vclap_version"@,
        short: if short {
            Some('v')
        } else {
            None
        },
        long: Some("version"@),
        help: Some("Prints version information"@),
        required: false,
        multiple: false,
        index: 0,
        blacklist: Seq::empty(),
        requires: Seq::empty(),
        possible_vals: Seq::empty(),
    }
}

/// The subcommand that asks for the help message.
pub open spec fn help_subcommand() -> AppView {
    AppView { about: Some("Prints this message"@), ..AppView::empty("help"@) }
}

impl AppView {
    /// Whether the positionals of the command and of all its subcommands
    /// are in order, and if not, the first fault.
    pub open spec fn preflight(self) -> Result<(), SchemaError>
        decreases self, 0nat,
    {
        match check_positionals(self.positionals) {
            Err(e) => Err(e),
            Ok(_) => subs_preflight(self.subcommands, self.subcommands.len()),
        }
    }

    /// The command with the rule of the required prefix applied: where a
    /// positional is required, all before it are required too.
    pub open spec fn propagated(self) -> AppView {
        AppView {
            positionals: prefix_required(self.positionals),
            required: with_all(self.required, prefix_names(self.positionals)),
            ..self
        }
    }

    /// The command with the automatic arguments: the help flag and the
    /// version flag, unless the command has a `--help` or a `--version` of
    /// its own, each with its short form unless that is taken; and the
    /// subcommand `help`, where the command has subcommands and none of
    /// that name.
    pub open spec fn injected(self) -> AppView {
        let with_help = if self.needs_long_help {
            put_by_name(self.flags, help_flag(self.needs_short_help))
        } else {
            self.flags
        };
        let with_version = if self.needs_long_version {
            put_by_name(with_help, version_flag(self.needs_short_version))
        } else {
            with_help
        };
        AppView {
            flags: with_version,
            subcommands: if self.needs_subcmd_help && self.subcommands.len() > 0 {
                put_sub(self.subcommands, help_subcommand())
            } else {
                self.subcommands
            },
            ..self
        }
    }

    /// The command as the parser sees it: with the required prefix applied
    /// and the automatic arguments added.
    pub open spec fn prepared(self) -> AppView {
        self.propagated().injected()
    }
}

/// After the rule of the required prefix, every positional before a
/// required one is required, and its name is among the required names.
pub proof fn lemma_required_prefix(app: AppView, i: int, j: int)
    requires
        0 <= i < j < app.positionals.len(),
        app.positionals[j].required,
    ensures
        app.propagated().positionals[i].required,
        app.propagated().positionals[i].name == app.positionals[i].name,
        app.propagated().positionals[j].required,
        app.propagated().required.contains(app.positionals[i].name),
{
    let pos = app.positionals;
    let hits = Seq::new(pos.len(), |k: int| pos[k].required);
    lemma_last_true(hits);
    assert(hits[j]);
    assert(j <= last_required(pos));
    let names = prefix_names(pos);
    assert(names[i] == pos[i].name);
    crate::names::lemma_with_all(app.required, names, pos[i].name);
}

/// Whether the positional at `i` is required.
fn is_required(pos: &Vec<ArgBuilder>, i: usize) -> (r: bool)
    requires
        i < pos.len(),
    ensures
        r == decls(pos@)[i as int].required,
{
    pos[i].required
}

/// The highest position in `pos` of a required positional.
fn find_last_required(pos: &Vec<ArgBuilder>) -> (r: Option<usize>)
    ensures
        match r {
            Some(i) => i < pos.len() && i == last_required(decls(pos@)),
            None => last_required(decls(pos@)) == -1,
        },
{
    let ghost hits = Seq::new(pos.len() as nat, |i: int| decls(pos@)[i].required);
    let mut i: usize = pos.len();
    while i > 0
        invariant
            i <= pos.len(),
            hits == Seq::new(pos.len() as nat, |i: int| decls(pos@)[i].required),
            forall|j: int| i <= j < pos.len() ==> !hits[j],
        decreases i,
    {
        i = i - 1;
        if is_required(pos, i) {
            proof {
                lemma_last_true_is(hits, i as int);
            }
            return Some(i);
        }
    }
    proof {
        lemma_last_true_is(hits, -1);
    }
    None
}

impl<'a, 'v, 'ab, 'u, 'h, 'ar> App<'a, 'v, 'ab, 'u, 'h, 'ar> {
    /// Tells whether the positionals of this one command are in order.
    fn check_positionals(&self) -> (r: Result<(), SchemaError>)
        ensures
            r == check_positionals(self@.positionals),
    {
        let ghost pos = self@.positionals;
        let mut i: usize = 0;
        while i < self.positionals.len()
            invariant
                i <= self.positionals.len(),
                pos == self@.positionals,
                forall|j: int| 0 <= j < i ==> (#[trigger] pos[j]).index == j + 1,
            decreases self.positionals.len() - i,
        {
            let at: usize = self.positionals[i].index as usize;
            if at != i + 1 {
                assert(pos[i as int].index != i + 1);
                return Err(SchemaError::PositionalGap);
            }
            i = i + 1;
        }
        let mut k: usize = 1;
        while k < self.positionals.len()
            invariant
                1 <= k,
                pos == self@.positionals,
                contiguous(pos),
                forall|j: int| 0 <= j < k - 1 && j < pos.len() - 1 ==> !(#[trigger] pos[j]).multiple,
            decreases self.positionals.len() - k,
        {
            if self.positionals[k - 1].multiple {
                assert(pos[k - 1].multiple);
                return Err(SchemaError::MultipleNotLast);
            }
            k = k + 1;
        }
        Ok(())
    }

    /// Tells whether the positional arguments of the command and of all its
    /// subcommands are in order: their positions run from 1 without a gap,
    /// and none but the last collects values.
    pub fn verify_positionals(&self) -> (r: Result<(), SchemaError>)
        ensures
            r == self@.preflight(),
        decreases self,
    {
        match self.check_positionals() {
            Err(e) => {
                return Err(e);
            },
            Ok(_) => {},
        }
        let ghost subs = self@.subcommands;
        let mut i: usize = 0;
        while i < self.subcommands.len()
            invariant
                i <= self.subcommands.len(),
                subs == self@.subcommands,
                check_positionals(self@.positionals) is Ok,
                subs_preflight(subs, i as nat) is Ok,
            decreases self.subcommands.len() - i,
        {
            assert(subs[i as int] == self.subcommands@[i as int]@);
            let fault = self.subcommands[i].verify_positionals();
            assert(subs_preflight(subs, (i + 1) as nat) == fault);
            match fault {
                Err(e) => {
                    proof {
                        lemma_first_fault(subs, (i + 1) as nat, subs.len());
                        assert(self@.preflight() == subs_preflight(subs, subs.len()));
                    }
                    return Err(e);
                },
                Ok(_) => {},
            }
            i = i + 1;
        }
        assert(self@.preflight() == subs_preflight(subs, subs.len()));
        assert(self@.preflight() is Ok);
        assert(self@.preflight()->Ok_0 == ());
        Ok(())
    }

    /// Applies the rule of the required prefix.
    pub(crate) fn propagate(self) -> (app: App<'a, 'v, 'ab, 'u, 'h, 'ar>)
        ensures
            app@ == self@.propagated(),
    {
        let mut app = self;
        let last = find_last_required(&app.positionals);
        match last {
            Some(l) => {
                let ghost before = decls(app.positionals@);
                let ghost required = texts(app.required@);
                let mut i: usize = 0;
                while i < l
                    invariant
                        i <= l,
                        l < app.positionals.len(),
                        l == last_required(before),
                        before.len() == app.positionals.len(),
                        forall|j: int|
                            0 <= j < before.len() ==> (#[trigger] decls(app.positionals@)[j]) == if j
                                < i {
                                Decl { required: true, ..before[j] }
                            } else {
                                before[j]
                            },
                        texts(app.required@) == with_all(required, decl_names(before).take(i as int)),
                        app@ == (AppView {
                            positionals: decls(app.positionals@),
                            required: texts(app.required@),
                            ..self@
                        }),
                    decreases l - i,
                {
                    let ghost stored = decls(app.positionals@);
                    let mut b = app.positionals.remove(i);
                    assert(b@ == stored[i as int]);
                    b.required = true;
                    let name = b.name;
                    app.positionals.insert(i, b);
                    names_add(&mut app.required, name);
                    proof {
                        let now = decls(app.positionals@);
                        assert forall|j: int| 0 <= j < before.len() implies (#[trigger] now[j]) == if j
                            < i + 1 {
                            Decl { required: true, ..before[j] }
                        } else {
                            before[j]
                        } by {
                            if j != i {
                                assert(now[j] == stored[j]);
                            }
                        }
                        let t = decl_names(before).take(i + 1);
                        assert(t.drop_last() =~= decl_names(before).take(i as int));
                        assert(t.last() == before[i as int].name);
                    }
                    i = i + 1;
                }
                proof {
                    assert(decls(app.positionals@) =~= prefix_required(before));
                    if l == 0 {
                        assert(decl_names(before).take(0) =~= Seq::<Text>::empty());
                    }
                }
            },
            None => {
                proof {
                    assert(decls(app.positionals@) =~= prefix_required(decls(app.positionals@)));
                }
            },
        }
        app
    }

    /// Adds the automatic help and version flags and the automatic
    /// subcommand `help`, as far as the command has not taken their names.
    pub(crate) fn create_help_and_version(self) -> (app: App<'a, 'v, 'ab, 'u, 'h, 'ar>)
        ensures
            app@ == self@.injected(),
    {
        let mut app = self;
        if app.needs_long_help {
            let arg = ArgBuilder {
                name: "hclap_help",
                short: if app.needs_short_help {
                    Some('h')
                } else {
                    None
                },
                long: Some("help"),
                help: Some("Prints help information"),
                required: false,
                multiple: false,
                index: 0,
                blacklist: Vec::new(),
                requires: Vec::new(),
                possible_vals: Vec::new(),
            };
            proof {
                assert(arg@.blacklist =~= Seq::<Text>::empty());
                assert(arg@.requires =~= Seq::<Text>::empty());
                assert(arg@.possible_vals =~= Seq::<Text>::empty());
            }
            store_by_name(&mut app.flags, arg);
        }
        if app.needs_long_version {
            let arg = ArgBuilder {
                name: "vclap_version",
                short: if app.needs_short_version {
                    Some('v')
                } else {
                    None
                },
                long: Some("version"),
                help: Some("Prints version information"),
                required: false,
                multiple: false,
                index: 0,
                blacklist: Vec::new(),
                requires: Vec::new(),
                possible_vals: Vec::new(),
            };
            proof {
                assert(arg@.blacklist =~= Seq::<Text>::empty());
                assert(arg@.requires =~= Seq::<Text>::empty());
                assert(arg@.possible_vals =~= Seq::<Text>::empty());
            }
            store_by_name(&mut app.flags, arg);
        }
        if app.needs_subcmd_help && app.subcommands.len() > 0 {
            let help = App::new("help").about("Prints this message");
            put_subcommand(&mut app.subcommands, help);
        }
        app
    }
}

/// A fault among the first `n` subcommands is the fault of any longer list.
pub proof fn lemma_first_fault(subs: Seq<AppView>, n: nat, m: nat)
    requires
        n <= m <= subs.len(),
        subs_preflight(subs, n) is Err,
    ensures
        subs_preflight(subs, m) == subs_preflight(subs, n),
    decreases m,
{
    if n < m {
        lemma_first_fault(subs, n, (m - 1) as nat);
    }
}

} // verus!
