//! Registered arguments and the stores that hold them.
//!
//! A command keeps its flags, its options and its positional arguments in
//! three stores. The entries of all three have one shape, in which the
//! fields a kind does not use are empty.

use vstd::prelude::*;
use vstd::string::StringExecFns;
use crate::text::Text;
use crate::text::push_char;
use crate::text::str_eq;
use crate::text::str_lt;
use crate::text::text_lt;
use crate::text::slot_of;
use crate::text::lemma_slot_of_is;
use crate::names::texts;
use crate::names::distinct;
use crate::text::ascending;
use crate::args::arg::opt_text;
use crate::search::first_true;
use crate::search::lemma_first_true_is;

verus! {

/// The model of a registered argument.
pub struct Decl {
    /// The unique name of the argument.
    pub name: Text,
    /// The single-character form; none for a positional.
    pub short: Option<char>,
    /// The word form; none for a positional.
    pub long: Option<Text>,
    /// The text shown in the help message.
    pub help: Option<Text>,
    /// Whether the argument must be supplied; never for a flag.
    pub required: bool,
    /// Whether the argument may occur more than once.
    pub multiple: bool,
    /// The 1-based position of a positional; 0 for a flag or an option.
    pub index: u8,
    /// Names that may not be used together with this argument.
    pub blacklist: Seq<Text>,
    /// Names that must be used together with this argument.
    pub requires: Seq<Text>,
    /// The accepted values; empty where any value is accepted, and for a flag.
    pub possible_vals: Seq<Text>,
}

/// Whether the lists of `d` are as a command keeps them: what it excludes
/// and what it requires without repetition, its possible values in
/// ascending order.
pub open spec fn decl_formed(d: Decl) -> bool {
    &&& distinct(d.blacklist)
    &&& distinct(d.requires)
    &&& ascending(d.possible_vals)
}

/// Whether the lists of every entry of `store` are as a command keeps them.
pub open spec fn store_formed(store: Seq<Decl>) -> bool {
    forall|i: int| 0 <= i < store.len() ==> decl_formed(#[trigger] store[i])
}

/// How a flag is shown in messages: `--long`, or `-s` where it has no long form.
pub open spec fn flag_form(d: Decl) -> Text {
    match d.long {
        Some(l) => "--"@ + l,
        None => match d.short {
            Some(c) => "-"@.push(c),
            None => d.name,
        },
    }
}

/// The marker that follows the name of an argument that may repeat.
pub open spec fn multiple_mark(multiple: bool) -> Text {
    if multiple {
        "..."@
    } else {
        Seq::empty()
    }
}

/// How an option is shown in messages: `--long <name>` or `-s <name>`,
/// followed by `...` where it may repeat.
pub open spec fn opt_form(d: Decl) -> Text {
    flag_form(d) + " <"@ + d.name + ">"@ + multiple_mark(d.multiple)
}

/// How a positional is shown in messages: `<name>` where it is required,
/// `[name]` where it is not, followed by `...` where it collects values.
pub open spec fn pos_form(d: Decl) -> Text {
    (if d.required {
        "<"@
    } else {
        "["@
    }) + d.name + (if d.required {
        ">"@
    } else {
        "]"@
    }) + multiple_mark(d.multiple)
}

/// The names of a store, in its order.
pub open spec fn decl_names(store: Seq<Decl>) -> Seq<Text> {
    Seq::new(store.len(), |i: int| store[i].name)
}

/// The position of the entry called `name`, or `store.len()`.
pub open spec fn by_name(store: Seq<Decl>, name: Text) -> int {
    first_true(Seq::new(store.len(), |i: int| store[i].name == name))
}

/// The position of the first entry with the short form `c`, or `store.len()`.
pub open spec fn by_short(store: Seq<Decl>, c: char) -> int {
    first_true(Seq::new(store.len(), |i: int| store[i].short == Some(c)))
}

/// The position of the first entry with the long form `long`, or `store.len()`.
pub open spec fn by_long(store: Seq<Decl>, long: Text) -> int {
    first_true(Seq::new(store.len(), |i: int| store[i].long == Some(long)))
}

/// The position of the first entry with the index `index`, or `store.len()`.
pub open spec fn by_index(store: Seq<Decl>, index: int) -> int {
    first_true(Seq::new(store.len(), |i: int| store[i].index == index))
}

/// Where an entry with the index `index` belongs in a store of positionals:
/// before the first entry whose index is not smaller.
pub open spec fn index_slot(store: Seq<Decl>, index: int) -> int {
    first_true(Seq::new(store.len(), |i: int| store[i].index >= index))
}

/// A store kept by name, with `d` in it: in place of the entry of that name,
/// or else where the name belongs.
pub open spec fn put_by_name(store: Seq<Decl>, d: Decl) -> Seq<Decl> {
    if by_name(store, d.name) < store.len() {
        store.update(by_name(store, d.name), d)
    } else {
        store.insert(slot_of(decl_names(store), d.name) as int, d)
    }
}

/// A store kept by index, with `d` in it where its index belongs.
pub open spec fn put_by_index(store: Seq<Decl>, d: Decl) -> Seq<Decl> {
    store.insert(index_slot(store, d.index as int), d)
}

/// A registered argument: a flag, an option or a positional, according to
/// the store that holds it.
pub struct ArgBuilder<'n> {
    /// The unique name of the argument.
    pub name: &'n str,
    /// The single-character form; none for a positional.
    pub short: Option<char>,
    /// The word form; none for a positional.
    pub long: Option<&'n str>,
    /// The text shown in the help message.
    pub help: Option<&'n str>,
    /// Whether the argument must be supplied; never for a flag.
    pub required: bool,
    /// Whether the argument may occur more than once.
    pub multiple: bool,
    /// The 1-based position of a positional; 0 for a flag or an option.
    pub index: u8,
    /// Names that may not be used together with this argument.
    pub blacklist: Vec<&'n str>,
    /// Names that must be used together with this argument.
    pub requires: Vec<&'n str>,
    /// The accepted values, in ascending order; empty where any is accepted.
    pub possible_vals: Vec<&'n str>,
}

impl<'n> View for ArgBuilder<'n> {
    type V = Decl;

    open spec fn view(&self) -> Decl {
        Decl {
            name: self.name@,
            short: self.short,
            long: opt_text(self.long),
            help: opt_text(self.help),
            required: self.required,
            multiple: self.multiple,
            index: self.index,
            blacklist: texts(self.blacklist@),
            requires: texts(self.requires@),
            possible_vals: texts(self.possible_vals@),
        }
    }
}

/// The models of a store.
pub open spec fn decls(v: Seq<ArgBuilder>) -> Seq<Decl> {
    Seq::new(v.len(), |i: int| v[i]@)
}

/// Appends `...` to `r` where `multiple` is set.
fn append_mark(r: &mut String, multiple: bool)
    ensures
        final(r)@ == old(r)@ + multiple_mark(multiple),
{
    if multiple {
        r.append("...");
    } else {
        assert(r@ + Seq::<char>::empty() =~= r@);
    }
}

impl<'n> ArgBuilder<'n> {
    /// How the argument is shown in messages when it is a flag.
    pub fn flag_form(&self) -> (r: String)
        ensures
            r@ == flag_form(self@),
    {
        match self.long {
            Some(l) => {
                let mut r = String::from_str("--");
                r.append(l);
                r
            },
            None => match self.short {
                Some(c) => {
                    let mut r = String::from_str("-");
                    push_char(&mut r, c);
                    r
                },
                None => String::from_str(self.name),
            },
        }
    }

    /// How the argument is shown in messages when it is an option.
    pub fn opt_form(&self) -> (r: String)
        ensures
            r@ == opt_form(self@),
    {
        let mut r = self.flag_form();
        r.append(" <");
        r.append(self.name);
        r.append(">");
        append_mark(&mut r, self.multiple);
        r
    }

    /// How the argument is shown in messages when it is a positional.
    pub fn pos_form(&self) -> (r: String)
        ensures
            r@ == pos_form(self@),
    {
        let mut r = String::from_str(if self.required {
            "<"
        } else {
            "["
        });
        r.append(self.name);
        r.append(if self.required {
            ">"
        } else {
            "]"
        });
        append_mark(&mut r, self.multiple);
        r
    }
}

/// The position of the entry called `name`.
pub fn find_by_name(store: &Vec<ArgBuilder>, name: &str) -> (r: Option<usize>)
    ensures
        match r {
            Some(i) => i < store.len() && i == by_name(decls(store@), name@),
            None => by_name(decls(store@), name@) == store.len(),
        },
{
    let ghost hits = Seq::new(store.len() as nat, |i: int| decls(store@)[i].name == name@);
    let mut i: usize = 0;
    while i < store.len()
        invariant
            i <= store.len(),
            hits == Seq::new(store.len() as nat, |i: int| decls(store@)[i].name == name@),
            forall|j: int| 0 <= j < i ==> !hits[j],
        decreases store.len() - i,
    {
        if str_eq(store[i].name, name) {
            proof {
                lemma_first_true_is(hits, i as int);
            }
            return Some(i);
        }
        i = i + 1;
    }
    proof {
        lemma_first_true_is(hits, i as int);
    }
    None
}

/// The position of the first entry with the short form `c`.
pub fn find_by_short(store: &Vec<ArgBuilder>, c: char) -> (r: Option<usize>)
    ensures
        match r {
            Some(i) => i < store.len() && i == by_short(decls(store@), c),
            None => by_short(decls(store@), c) == store.len(),
        },
{
    let ghost hits = Seq::new(store.len() as nat, |i: int| decls(store@)[i].short == Some(c));
    let mut i: usize = 0;
    while i < store.len()
        invariant
            i <= store.len(),
            hits == Seq::new(store.len() as nat, |i: int| decls(store@)[i].short == Some(c)),
            forall|j: int| 0 <= j < i ==> !hits[j],
        decreases store.len() - i,
    {
        let hit = match store[i].short {
            Some(s) => s == c,
            None => false,
        };
        if hit {
            proof {
                lemma_first_true_is(hits, i as int);
            }
            return Some(i);
        }
        i = i + 1;
    }
    proof {
        lemma_first_true_is(hits, i as int);
    }
    None
}

/// The position of the first entry with the long form `long`.
pub fn find_by_long(store: &Vec<ArgBuilder>, long: &str) -> (r: Option<usize>)
    ensures
        match r {
            Some(i) => i < store.len() && i == by_long(decls(store@), long@),
            None => by_long(decls(store@), long@) == store.len(),
        },
{
    let ghost hits = Seq::new(store.len() as nat, |i: int| decls(store@)[i].long == Some(long@));
    let mut i: usize = 0;
    while i < store.len()
        invariant
            i <= store.len(),
            hits == Seq::new(store.len() as nat, |i: int| decls(store@)[i].long == Some(long@)),
            forall|j: int| 0 <= j < i ==> !hits[j],
        decreases store.len() - i,
    {
        let hit = match store[i].long {
            Some(l) => str_eq(l, long),
            None => false,
        };
        if hit {
            proof {
                lemma_first_true_is(hits, i as int);
            }
            return Some(i);
        }
        i = i + 1;
    }
    proof {
        lemma_first_true_is(hits, i as int);
    }
    None
}

/// The position of the first entry with the index `index`.
pub fn find_by_index(store: &Vec<ArgBuilder>, index: usize) -> (r: Option<usize>)
    ensures
        match r {
            Some(i) => i < store.len() && i == by_index(decls(store@), index as int),
            None => by_index(decls(store@), index as int) == store.len(),
        },
{
    let ghost hits = Seq::new(store.len() as nat, |i: int| decls(store@)[i].index == index as int);
    let mut i: usize = 0;
    while i < store.len()
        invariant
            i <= store.len(),
            hits == Seq::new(store.len() as nat, |i: int| decls(store@)[i].index == index as int),
            forall|j: int| 0 <= j < i ==> !hits[j],
        decreases store.len() - i,
    {
        let at: usize = store[i].index as usize;
        if at == index {
            proof {
                lemma_first_true_is(hits, i as int);
            }
            return Some(i);
        }
        i = i + 1;
    }
    proof {
        lemma_first_true_is(hits, i as int);
    }
    None
}

/// Puts `b` into a store kept by name: in place of the entry of that name,
/// or else where the name belongs.
pub fn store_by_name<'n>(store: &mut Vec<ArgBuilder<'n>>, b: ArgBuilder<'n>)
    ensures
        decls(final(store)@) == put_by_name(decls(old(store)@), b@),
{
    match find_by_name(store, b.name) {
        Some(i) => {
            store.set(i, b);
            assert(decls(store@) =~= decls(old(store)@).update(i as int, b@));
        },
        None => {
            let mut i: usize = 0;
            while i < store.len() && str_lt(store[i].name, b.name)
                invariant
                    i <= store.len(),
                    store@ == old(store)@,
                    forall|j: int|
                        0 <= j < i ==> text_lt(#[trigger] decl_names(decls(store@))[j], b.name@),
                decreases store.len() - i,
            {
                i = i + 1;
            }
            proof {
                lemma_slot_of_is(decl_names(decls(store@)), b.name@, i as nat);
            }
            store.insert(i, b);
            assert(decls(store@) =~= decls(old(store)@).insert(i as int, b@));
        },
    }
}

/// Puts `b` into a store kept by index, where its index belongs.
pub fn store_by_index<'n>(store: &mut Vec<ArgBuilder<'n>>, b: ArgBuilder<'n>)
    ensures
        decls(final(store)@) == put_by_index(decls(old(store)@), b@),
{
    let ghost hits = Seq::new(
        store.len() as nat,
        |i: int| decls(store@)[i].index >= b.index as int,
    );
    let mut i: usize = 0;
    while i < store.len() && store[i].index < b.index
        invariant
            i <= store.len(),
            store@ == old(store)@,
            hits == Seq::new(store.len() as nat, |i: int| decls(store@)[i].index >= b.index as int),
            forall|j: int| 0 <= j < i ==> !hits[j],
        decreases store.len() - i,
    {
        i = i + 1;
    }
    proof {
        lemma_first_true_is(hits, i as int);
    }
    store.insert(i, b);
    assert(decls(store@) =~= decls(old(store)@).insert(i as int, b@));
}

} // verus!
