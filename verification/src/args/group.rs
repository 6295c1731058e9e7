//! Groups of arguments.
//!
//! A group names a family of arguments of which at most one may be used.
//! A required group asks for exactly one of them.

use vstd::prelude::*;
use crate::text::Text;
use crate::names::texts;
use crate::names::with;
use crate::names::with_all;
use crate::names::names_add;
use crate::names::names_add_all;

verus! {

/// The model of an [`ArgGroup`].
pub struct GroupView {
    /// The unique name of the group.
    pub name: Text,
    /// The names of its members, without repetition.
    pub args: Seq<Text>,
    /// Whether one of the members must be supplied.
    pub required: bool,
    /// Names that must be supplied whenever a member is.
    pub requires: Seq<Text>,
    /// Names that may not be used together with a member.
    pub conflicts: Seq<Text>,
}

/// The model of a group that has a name and nothing else.
pub open spec fn empty_group(n: Text) -> GroupView {
    GroupView {
        name: n,
        args: Seq::empty(),
        required: false,
        requires: Seq::empty(),
        conflicts: Seq::empty(),
    }
}

/// A named family of arguments of which at most one may be used.
pub struct ArgGroup<'n, 'ar> {
    /// The unique name of the group.
    pub name: &'n str,
    /// The names of its members, without repetition.
    pub args: Vec<&'ar str>,
    /// Whether one of the members must be supplied.
    pub required: bool,
    /// Names that must be supplied whenever a member is.
    pub requires: Vec<&'ar str>,
    /// Names that may not be used together with a member.
    pub conflicts: Vec<&'ar str>,
}

impl<'n, 'ar> View for ArgGroup<'n, 'ar> {
    type V = GroupView;

    open spec fn view(&self) -> GroupView {
        GroupView {
            name: self.name@,
            args: texts(self.args@),
            required: self.required,
            requires: texts(self.requires@),
            conflicts: texts(self.conflicts@),
        }
    }
}

/// The models of a list of groups.
pub open spec fn group_views(v: Seq<ArgGroup>) -> Seq<GroupView> {
    Seq::new(v.len(), |i: int| v[i]@)
}

impl<'n, 'ar> ArgGroup<'n, 'ar> {
    /// Creates a group with the unique name `n` and no members.
    pub fn with_name(n: &'n str) -> (g: ArgGroup<'n, 'ar>)
        ensures
            g@ == empty_group(n@),
    {
        let g = ArgGroup {
            name: n,
            args: Vec::new(),
            required: false,
            requires: Vec::new(),
            conflicts: Vec::new(),
        };
        assert(texts(g.args@) =~= Seq::<Text>::empty());
        assert(texts(g.requires@) =~= Seq::<Text>::empty());
        assert(texts(g.conflicts@) =~= Seq::<Text>::empty());
        g
    }

    /// Makes the argument called `n` a member.
    pub fn add(self, n: &'ar str) -> (g: ArgGroup<'n, 'ar>)
        ensures
            g@ == (GroupView { args: with(self@.args, n@), ..self@ }),
    {
        let mut g = self;
        names_add(&mut g.args, n);
        g
    }

    /// Makes each argument of `ns` a member.
    pub fn add_all(self, ns: Vec<&'ar str>) -> (g: ArgGroup<'n, 'ar>)
        ensures
            g@ == (GroupView { args: with_all(self@.args, texts(ns@)), ..self@ }),
    {
        let mut g = self;
        names_add_all(&mut g.args, &ns);
        g
    }

    /// Sets whether one member of the group must be supplied.
    pub fn required(self, r: bool) -> (g: ArgGroup<'n, 'ar>)
        ensures
            g@ == (GroupView { required: r, ..self@ }),
    {
        let mut g = self;
        g.required = r;
        g
    }

    /// Names one argument that must be supplied whenever a member is.
    pub fn requires_arg(self, n: &'ar str) -> (g: ArgGroup<'n, 'ar>)
        ensures
            g@ == (GroupView { requires: with(self@.requires, n@), ..self@ }),
    {
        let mut g = self;
        names_add(&mut g.requires, n);
        g
    }

    /// Names arguments that must be supplied whenever a member is.
    pub fn requires_all(self, ns: Vec<&'ar str>) -> (g: ArgGroup<'n, 'ar>)
        ensures
            g@ == (GroupView { requires: with_all(self@.requires, texts(ns@)), ..self@ }),
    {
        let mut g = self;
        names_add_all(&mut g.requires, &ns);
        g
    }

    /// Names one argument that may not be used together with a member.
    pub fn conflicts_with(self, n: &'ar str) -> (g: ArgGroup<'n, 'ar>)
        ensures
            g@ == (GroupView { conflicts: with(self@.conflicts, n@), ..self@ }),
    {
        let mut g = self;
        names_add(&mut g.conflicts, n);
        g
    }

    /// Names arguments that may not be used together with a member.
    pub fn conflicts_with_all(self, ns: Vec<&'ar str>) -> (g: ArgGroup<'n, 'ar>)
        ensures
            g@ == (GroupView { conflicts: with_all(self@.conflicts, texts(ns@)), ..self@ }),
    {
        let mut g = self;
        names_add_all(&mut g.conflicts, &ns);
        g
    }
}

} // verus!
