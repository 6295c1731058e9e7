//! Ordered sets of names.
//!
//! The parser keeps the names that are still required, the names that are
//! excluded and the names that some match has asked for. Each is a list
//! without repetition, in the order in which the names came in.

use vstd::prelude::*;
use crate::text::Text;
use crate::text::str_eq;
use crate::text::str_lt;
use crate::text::slot_of;
use crate::text::lemma_slot_of_is;
use crate::text::ascending;
use crate::text::lemma_slot_keeps_ascending;

verus! {

/// The texts of a list of string slices.
pub open spec fn texts(v: Seq<&str>) -> Seq<Text> {
    Seq::new(v.len(), |i: int| v[i]@)
}

/// The texts of a list of owned strings.
pub open spec fn owned_texts(v: Seq<String>) -> Seq<Text> {
    Seq::new(v.len(), |i: int| v[i]@)
}

/// `s` with `x`, which goes to the end unless `s` has it already.
pub open spec fn with(s: Seq<Text>, x: Text) -> Seq<Text> {
    if s.contains(x) {
        s
    } else {
        s.push(x)
    }
}

/// `s` with each of `xs`, taken in order.
pub open spec fn with_all(s: Seq<Text>, xs: Seq<Text>) -> Seq<Text>
    decreases xs.len(),
{
    if xs.len() == 0 {
        s
    } else {
        with(with_all(s, xs.drop_last()), xs.last())
    }
}

/// `s` with every occurrence of `x` taken out.
pub open spec fn without(s: Seq<Text>, x: Text) -> Seq<Text>
    decreases s.len(),
{
    if s.len() == 0 {
        s
    } else if s.last() == x {
        without(s.drop_last(), x)
    } else {
        without(s.drop_last(), x).push(s.last())
    }
}

/// `s` with every occurrence of each of `xs` taken out.
pub open spec fn without_all(s: Seq<Text>, xs: Seq<Text>) -> Seq<Text>
    decreases xs.len(),
{
    if xs.len() == 0 {
        s
    } else {
        without(without_all(s, xs.drop_last()), xs.last())
    }
}

/// `s`, kept in ascending order, with `x` at its place unless `s` has it already.
pub open spec fn sorted_with(s: Seq<Text>, x: Text) -> Seq<Text> {
    if s.contains(x) {
        s
    } else {
        s.insert(slot_of(s, x) as int, x)
    }
}

/// `s`, kept in ascending order, with each of `xs` at its place.
pub open spec fn sorted_with_all(s: Seq<Text>, xs: Seq<Text>) -> Seq<Text>
    decreases xs.len(),
{
    if xs.len() == 0 {
        s
    } else {
        sorted_with(sorted_with_all(s, xs.drop_last()), xs.last())
    }
}

/// No name occurs twice in `s`.
pub open spec fn distinct(s: Seq<Text>) -> bool {
    forall|i: int, j: int| 0 <= i < j < s.len() ==> #[trigger] s[i] != #[trigger] s[j]
}

/// `with` adds exactly `x`.
pub proof fn lemma_with(s: Seq<Text>, x: Text, y: Text)
    ensures
        with(s, x).contains(y) <==> (s.contains(y) || y == x),
{
    if !s.contains(x) {
        let t = s.push(x);
        if s.contains(y) {
            let i = choose|i: int| 0 <= i < s.len() && s[i] == y;
            assert(t[i] == y);
        }
        if y == x {
            assert(t[s.len() as int] == y);
        }
    }
}

/// `with_all` adds exactly the names of `xs`.
pub proof fn lemma_with_all(s: Seq<Text>, xs: Seq<Text>, y: Text)
    ensures
        with_all(s, xs).contains(y) <==> (s.contains(y) || xs.contains(y)),
    decreases xs.len(),
{
    if xs.len() > 0 {
        let front = xs.drop_last();
        lemma_with_all(s, front, y);
        lemma_with(with_all(s, front), xs.last(), y);
        if front.contains(y) {
            let i = choose|i: int| 0 <= i < front.len() && front[i] == y;
            assert(xs[i] == y);
        }
        if xs.contains(y) && y != xs.last() {
            let i = choose|i: int| 0 <= i < xs.len() && xs[i] == y;
            assert(front[i] == y);
        }
        if y == xs.last() {
            assert(xs[xs.len() - 1] == y);
        }
    }
}

/// `without` takes out exactly `x`.
pub proof fn lemma_without(s: Seq<Text>, x: Text, y: Text)
    ensures
        without(s, x).contains(y) <==> (s.contains(y) && y != x),
    decreases s.len(),
{
    if s.len() > 0 {
        let front = s.drop_last();
        lemma_without(front, x, y);
        if front.contains(y) {
            let i = choose|i: int| 0 <= i < front.len() && front[i] == y;
            assert(s[i] == y);
        }
        if s.contains(y) && y != s.last() {
            let i = choose|i: int| 0 <= i < s.len() && s[i] == y;
            assert(front[i] == y);
        }
        if y == s.last() {
            assert(s[s.len() - 1] == y);
        }
        if s.last() != x {
            let w = without(front, x);
            let t = w.push(s.last());
            if w.contains(y) {
                let i = choose|i: int| 0 <= i < w.len() && w[i] == y;
                assert(t[i] == y);
            }
            if y == s.last() {
                assert(t[w.len() as int] == y);
            }
        }
    }
}

/// `without_all` takes out exactly the names of `xs`.
pub proof fn lemma_without_all(s: Seq<Text>, xs: Seq<Text>, y: Text)
    ensures
        without_all(s, xs).contains(y) <==> (s.contains(y) && !xs.contains(y)),
    decreases xs.len(),
{
    if xs.len() > 0 {
        let front = xs.drop_last();
        lemma_without_all(s, front, y);
        lemma_without(without_all(s, front), xs.last(), y);
        if front.contains(y) {
            let i = choose|i: int| 0 <= i < front.len() && front[i] == y;
            assert(xs[i] == y);
        }
        if xs.contains(y) && y != xs.last() {
            let i = choose|i: int| 0 <= i < xs.len() && xs[i] == y;
            assert(front[i] == y);
        }
        if y == xs.last() {
            assert(xs[xs.len() - 1] == y);
        }
    }
}

/// A list without repetition stays one when a name is added.
pub proof fn lemma_with_distinct(s: Seq<Text>, x: Text)
    requires
        distinct(s),
    ensures
        distinct(with(s, x)),
{
    if !s.contains(x) {
        let t = s.push(x);
        assert forall|i: int, j: int| 0 <= i < j < t.len() implies #[trigger] t[i] != #[trigger] t[j] by {
            if j == s.len() {
                assert(s[i] == t[i]);
                assert(s.contains(t[i]));
            } else {
                assert(s[i] == t[i] && s[j] == t[j]);
            }
        }
    }
}

/// A list without repetition stays one when names are added.
pub proof fn lemma_with_all_distinct(s: Seq<Text>, xs: Seq<Text>)
    requires
        distinct(s),
    ensures
        distinct(with_all(s, xs)),
    decreases xs.len(),
{
    if xs.len() > 0 {
        lemma_with_all_distinct(s, xs.drop_last());
        lemma_with_distinct(with_all(s, xs.drop_last()), xs.last());
    }
}

/// A list without repetition stays one when a name is taken out.
pub proof fn lemma_without_distinct(s: Seq<Text>, x: Text)
    requires
        distinct(s),
    ensures
        distinct(without(s, x)),
    decreases s.len(),
{
    if s.len() > 0 {
        let front = s.drop_last();
        assert(distinct(front)) by {
            assert forall|i: int, j: int| 0 <= i < j < front.len() implies #[trigger] front[i]
                != #[trigger] front[j] by {
                assert(front[i] == s[i] && front[j] == s[j]);
            }
        }
        lemma_without_distinct(front, x);
        if s.last() != x {
            let w = without(front, x);
            lemma_without(front, x, s.last());
            assert(!front.contains(s.last())) by {
                if front.contains(s.last()) {
                    let i = choose|i: int| 0 <= i < front.len() && front[i] == s.last();
                    assert(s[i] != s[s.len() - 1]);
                }
            }
            assert(with(w, s.last()) == w.push(s.last()));
            lemma_with_distinct(w, s.last());
        }
    }
}

/// A list without repetition stays one when names are taken out.
pub proof fn lemma_without_all_distinct(s: Seq<Text>, xs: Seq<Text>)
    requires
        distinct(s),
    ensures
        distinct(without_all(s, xs)),
    decreases xs.len(),
{
    if xs.len() > 0 {
        lemma_without_all_distinct(s, xs.drop_last());
        lemma_without_distinct(without_all(s, xs.drop_last()), xs.last());
    }
}

/// An ascending list stays one when names are put at their places.
pub proof fn lemma_sorted_with_all_ascending(s: Seq<Text>, xs: Seq<Text>)
    requires
        ascending(s),
    ensures
        ascending(sorted_with_all(s, xs)),
    decreases xs.len(),
{
    if xs.len() > 0 {
        lemma_sorted_with_all_ascending(s, xs.drop_last());
        let t = sorted_with_all(s, xs.drop_last());
        if !t.contains(xs.last()) {
            lemma_slot_keeps_ascending(t, xs.last());
        }
    }
}

/// The texts of a list with one more slice.
pub proof fn lemma_texts_push(v: Seq<&str>, x: &str)
    ensures
        texts(v.push(x)) == texts(v).push(x@),
{
    assert(texts(v.push(x)) =~= texts(v).push(x@));
}

/// Whether `x` is among `v`.
pub fn names_contain(v: &Vec<&str>, x: &str) -> (r: bool)
    ensures
        r == texts(v@).contains(x@),
{
    let mut i: usize = 0;
    while i < v.len()
        invariant
            i <= v.len(),
            forall|j: int| 0 <= j < i ==> texts(v@)[j] != x@,
        decreases v.len() - i,
    {
        if str_eq(v[i], x) {
            assert(texts(v@)[i as int] == x@);
            return true;
        }
        i = i + 1;
    }
    false
}

/// Adds `x` to `v` unless it is there already.
pub fn names_add<'a>(v: &mut Vec<&'a str>, x: &'a str)
    ensures
        texts(final(v)@) == with(texts(old(v)@), x@),
{
    if !names_contain(v, x) {
        proof {
            lemma_texts_push(v@, x);
        }
        v.push(x);
    }
}

/// Adds each of `xs` to `v`, in order.
pub fn names_add_all<'a>(v: &mut Vec<&'a str>, xs: &Vec<&'a str>)
    ensures
        texts(final(v)@) == with_all(texts(old(v)@), texts(xs@)),
{
    let mut i: usize = 0;
    while i < xs.len()
        invariant
            i <= xs.len(),
            texts(v@) == with_all(texts(old(v)@), texts(xs@).take(i as int)),
        decreases xs.len() - i,
    {
        proof {
            let t = texts(xs@).take(i + 1);
            assert(t.drop_last() =~= texts(xs@).take(i as int));
            assert(t.last() == xs@[i as int]@);
        }
        names_add(v, xs[i]);
        i = i + 1;
    }
    proof {
        assert(texts(xs@).take(xs.len() as int) =~= texts(xs@));
    }
}

/// Takes every occurrence of `x` out of `v`.
pub fn names_drop<'a>(v: &mut Vec<&'a str>, x: &str)
    ensures
        texts(final(v)@) == without(texts(old(v)@), x@),
{
    let mut out: Vec<&'a str> = Vec::new();
    let mut i: usize = 0;
    while i < v.len()
        invariant
            i <= v.len(),
            texts(out@) == without(texts(v@).take(i as int), x@),
        decreases v.len() - i,
    {
        proof {
            let t = texts(v@).take(i + 1);
            assert(t.drop_last() =~= texts(v@).take(i as int));
            assert(t.last() == v@[i as int]@);
            if v@[i as int]@ != x@ {
                lemma_texts_push(out@, v@[i as int]);
            }
        }
        if !str_eq(v[i], x) {
            out.push(v[i]);
        }
        i = i + 1;
    }
    proof {
        assert(texts(v@).take(v.len() as int) =~= texts(v@));
    }
    *v = out;
}

/// Takes every occurrence of each of `xs` out of `v`.
pub fn names_drop_all<'a>(v: &mut Vec<&'a str>, xs: &Vec<&'a str>)
    ensures
        texts(final(v)@) == without_all(texts(old(v)@), texts(xs@)),
{
    let mut i: usize = 0;
    while i < xs.len()
        invariant
            i <= xs.len(),
            texts(v@) == without_all(texts(old(v)@), texts(xs@).take(i as int)),
        decreases xs.len() - i,
    {
        proof {
            let t = texts(xs@).take(i + 1);
            assert(t.drop_last() =~= texts(xs@).take(i as int));
            assert(t.last() == xs@[i as int]@);
        }
        names_drop(v, xs[i]);
        i = i + 1;
    }
    proof {
        assert(texts(xs@).take(xs.len() as int) =~= texts(xs@));
    }
}

/// Where `x` belongs in `v`, which is kept in ascending order.
pub fn names_slot(v: &Vec<&str>, x: &str) -> (at: usize)
    ensures
        at == slot_of(texts(v@), x@),
        at <= v.len(),
{
    let mut i: usize = 0;
    while i < v.len() && str_lt(v[i], x)
        invariant
            i <= v.len(),
            forall|j: int| 0 <= j < i ==> crate::text::text_lt(#[trigger] texts(v@)[j], x@),
        decreases v.len() - i,
    {
        i = i + 1;
    }
    proof {
        lemma_slot_of_is(texts(v@), x@, i as nat);
    }
    i
}

/// Puts `x` at its place in `v`, which is kept in ascending order, unless
/// it is there already.
pub fn names_add_sorted<'a>(v: &mut Vec<&'a str>, x: &'a str)
    ensures
        texts(final(v)@) == sorted_with(texts(old(v)@), x@),
{
    if !names_contain(v, x) {
        let at = names_slot(v, x);
        v.insert(at, x);
        assert(texts(v@) =~= texts(old(v)@).insert(at as int, x@));
    }
}

/// Puts each of `xs` at its place in `v`, which is kept in ascending order.
pub fn names_add_all_sorted<'a>(v: &mut Vec<&'a str>, xs: &Vec<&'a str>)
    ensures
        texts(final(v)@) == sorted_with_all(texts(old(v)@), texts(xs@)),
{
    let mut i: usize = 0;
    while i < xs.len()
        invariant
            i <= xs.len(),
            texts(v@) == sorted_with_all(texts(old(v)@), texts(xs@).take(i as int)),
        decreases xs.len() - i,
    {
        proof {
            let t = texts(xs@).take(i + 1);
            assert(t.drop_last() =~= texts(xs@).take(i as int));
            assert(t.last() == xs@[i as int]@);
        }
        names_add_sorted(v, xs[i]);
        i = i + 1;
    }
    proof {
        assert(texts(xs@).take(xs.len() as int) =~= texts(xs@));
    }
}

/// A copy of `v`.
pub fn names_copy<'a>(v: &Vec<&'a str>) -> (r: Vec<&'a str>)
    ensures
        r@ == v@,
{
    let mut r: Vec<&'a str> = Vec::new();
    let mut i: usize = 0;
    while i < v.len()
        invariant
            i <= v.len(),
            r@ == v@.take(i as int),
        decreases v.len() - i,
    {
        r.push(v[i]);
        i = i + 1;
    }
    r
}

} // verus!
