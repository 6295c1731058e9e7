//! What a parse found: the matched arguments and the matched subcommand.

use vstd::prelude::*;
use crate::text::Text;
use crate::text::str_eq;
use crate::names::owned_texts;
use crate::search::first_true;
use crate::search::lemma_first_true_is;

verus! {

/// The model of a [`MatchedArg`].
pub struct EntryView {
    /// The name of the matched argument.
    pub name: Text,
    /// How often it was supplied.
    pub occurrences: nat,
    /// The values it was given, in order; none for a flag.
    pub values: Option<Seq<Text>>,
}

/// The model of an [`ArgMatches`].
pub struct MatchesView {
    /// The matched arguments, in the order of their first occurrence.
    pub args: Seq<EntryView>,
    /// The matched subcommand: its name and its own matches.
    pub subcommand: Option<(Text, Box<MatchesView>)>,
    /// The usage text of the command that produced the matches.
    pub usage: Option<Text>,
}

/// For each entry, whether it is the entry of `name`.
pub open spec fn name_hits(args: Seq<EntryView>, name: Text) -> Seq<bool> {
    Seq::new(args.len(), |i: int| args[i].name == name)
}

/// The position of the entry of `name`, or `args.len()` when it has none.
pub open spec fn entry_index(args: Seq<EntryView>, name: Text) -> int {
    first_true(name_hits(args, name))
}

/// Whether `name` was matched.
pub open spec fn has_entry(args: Seq<EntryView>, name: Text) -> bool {
    entry_index(args, name) < args.len()
}

/// The count that follows `n`: one more, but never more than a `u32` holds.
pub open spec fn bumped(n: nat) -> nat {
    if n < u32::MAX {
        n + 1
    } else {
        n
    }
}

impl MatchesView {
    /// The matches of a command for which nothing was supplied yet.
    pub open spec fn empty() -> MatchesView {
        MatchesView { args: Seq::empty(), subcommand: None, usage: None }
    }

    /// Whether `name` was matched.
    pub open spec fn is_present(self, name: Text) -> bool {
        has_entry(self.args, name)
    }

    /// How often `name` was supplied; 0 when it was not matched.
    pub open spec fn occurrences_of(self, name: Text) -> nat {
        if has_entry(self.args, name) {
            self.args[entry_index(self.args, name)].occurrences
        } else {
            0
        }
    }

    /// The values `name` was given, where it was matched and has values.
    pub open spec fn values_of(self, name: Text) -> Option<Seq<Text>> {
        if has_entry(self.args, name) {
            self.args[entry_index(self.args, name)].values
        } else {
            None
        }
    }

    /// The first value `name` was given, where it has one.
    pub open spec fn value_of(self, name: Text) -> Option<Text> {
        match self.values_of(name) {
            Some(vals) => if vals.len() > 0 {
                Some(vals[0])
            } else {
                None
            },
            None => None,
        }
    }

    /// The name of the matched subcommand.
    pub open spec fn subcommand_name(self) -> Option<Text> {
        match self.subcommand {
            Some(sub) => Some(sub.0),
            None => None,
        }
    }

    /// The matches of the matched subcommand; what a command without
    /// arguments matches, where there is none.
    pub open spec fn subcommand_found(self) -> MatchesView {
        match self.subcommand {
            Some(sub) => *sub.1,
            None => MatchesView::empty(),
        }
    }

    /// The matches of the subcommand `name`, where that is the one matched.
    pub open spec fn subcommand_matches(self, name: Text) -> Option<MatchesView> {
        match self.subcommand {
            Some(sub) => if sub.0 == name {
                Some(*sub.1)
            } else {
                None
            },
            None => None,
        }
    }
}

/// One matched argument.
pub struct MatchedArg<'a> {
    /// The name of the argument.
    pub name: &'a str,
    /// How often it was supplied.
    pub occurrences: u32,
    /// The values it was given, in order; none for a flag.
    pub values: Option<Vec<String>>,
}

impl<'a> View for MatchedArg<'a> {
    type V = EntryView;

    open spec fn view(&self) -> EntryView {
        EntryView {
            name: self.name@,
            occurrences: self.occurrences as nat,
            values: match self.values {
                Some(v) => Some(owned_texts(v@)),
                None => None,
            },
        }
    }
}

/// The models of a list of matched arguments.
pub open spec fn entry_views(v: Seq<MatchedArg>) -> Seq<EntryView> {
    Seq::new(v.len(), |i: int| v[i]@)
}

/// The position of the entry of `name` in `args`.
pub fn find_entry(args: &Vec<MatchedArg>, name: &str) -> (r: Option<usize>)
    ensures
        match r {
            Some(i) => i < args.len() && i == entry_index(entry_views(args@), name@),
            None => !has_entry(entry_views(args@), name@),
        },
{
    let ghost hits = name_hits(entry_views(args@), name@);
    let mut i: usize = 0;
    while i < args.len()
        invariant
            i <= args.len(),
            hits == name_hits(entry_views(args@), name@),
            forall|j: int| 0 <= j < i ==> !hits[j],
        decreases args.len() - i,
    {
        if str_eq(args[i].name, name) {
            proof {
                lemma_first_true_is(hits, i as int);
            }
            return Some(i);
        }
        i = i + 1;
    }
    proof {
        lemma_first_true_is(hits, i as int);
    }
    None
}

/// A matched subcommand: its name and what was matched for it.
pub struct SubCommand<'n, 'a> {
    /// The name of the subcommand.
    pub name: &'n str,
    /// The matches of the subcommand.
    pub matches: ArgMatches<'n, 'a>,
}

/// The result of a successful parse.
///
/// It tells for every argument whether and how often it was supplied and
/// with which values, and holds the matches of the subcommand, if one was
/// used.
pub struct ArgMatches<'n, 'a> {
    /// The matched arguments, in the order of their first occurrence.
    pub args: Vec<MatchedArg<'a>>,
    /// The matched subcommand.
    pub subcommand: Option<Box<SubCommand<'n, 'a>>>,
    /// The usage text of the command that produced the matches.
    pub usage: Option<String>,
}

impl<'n, 'a> View for ArgMatches<'n, 'a> {
    type V = MatchesView;

    open spec fn view(&self) -> MatchesView
        decreases self,
    {
        MatchesView {
            args: entry_views(self.args@),
            subcommand: match self.subcommand {
                Some(sub) => Some((sub.name@, Box::new(sub.matches.view()))),
                None => None,
            },
            usage: match self.usage {
                Some(u) => Some(u@),
                None => None,
            },
        }
    }
}

impl<'n, 'a> ArgMatches<'n, 'a> {
    /// The matches of a command for which nothing was supplied yet.
    pub fn new() -> (m: ArgMatches<'n, 'a>)
        ensures
            m@ == MatchesView::empty(),
    {
        let m = ArgMatches { args: Vec::new(), subcommand: None, usage: None };
        assert(entry_views(m.args@) =~= Seq::<EntryView>::empty());
        m
    }

    /// Whether the argument called `name` was supplied.
    pub fn is_present(&self, name: &str) -> (r: bool)
        ensures
            r == self@.is_present(name@),
    {
        find_entry(&self.args, name).is_some()
    }

    /// How often the argument called `name` was supplied.
    pub fn occurrences_of(&self, name: &str) -> (r: u32)
        ensures
            r == self@.occurrences_of(name@),
    {
        match find_entry(&self.args, name) {
            Some(i) => self.args[i].occurrences,
            None => 0,
        }
    }

    /// The values the argument called `name` was given.
    pub fn values_of<'s>(&'s self, name: &str) -> (r: Option<&'s Vec<String>>)
        ensures
            match r {
                Some(v) => self@.values_of(name@) == Some(owned_texts(v@)),
                None => self@.values_of(name@) is None,
            },
    {
        match find_entry(&self.args, name) {
            Some(i) => match &self.args[i].values {
                Some(v) => Some(v),
                None => None,
            },
            None => None,
        }
    }

    /// The first value the argument called `name` was given.
    pub fn value_of<'s>(&'s self, name: &str) -> (r: Option<&'s str>)
        ensures
            match r {
                Some(v) => self@.value_of(name@) == Some(v@),
                None => self@.value_of(name@) is None,
            },
    {
        match self.values_of(name) {
            Some(v) => if v.len() > 0 {
                Some(v[0].as_str())
            } else {
                None
            },
            None => None,
        }
    }

    /// The name of the subcommand that was used.
    pub fn subcommand_name(&self) -> (r: Option<&'n str>)
        ensures
            match r {
                Some(n) => self@.subcommand_name() == Some(n@),
                None => self@.subcommand_name() is None,
            },
    {
        match &self.subcommand {
            Some(sub) => Some(sub.name),
            None => None,
        }
    }

    /// The matches of the subcommand called `name`, where that is the one
    /// that was used.
    pub fn subcommand_matches<'s>(&'s self, name: &str) -> (r: Option<&'s ArgMatches<'n, 'a>>)
        ensures
            match r {
                Some(m) => self@.subcommand_matches(name@) == Some(m@),
                None => self@.subcommand_matches(name@) is None,
            },
    {
        match &self.subcommand {
            Some(sub) => if str_eq(sub.name, name) {
                Some(&sub.matches)
            } else {
                None
            },
            None => None,
        }
    }

    /// The usage text of the command that produced the matches.
    pub fn usage<'s>(&'s self) -> (r: Option<&'s str>)
        ensures
            match r {
                Some(u) => self@.usage == Some(u@),
                None => self@.usage is None,
            },
    {
        match &self.usage {
            Some(u) => Some(u.as_str()),
            None => None,
        }
    }
}

} // verus!
