//! Text primitives shared by the schema, the parser and the renderer.
//!
//! Every string the library handles is modelled as a sequence of characters.
//! The functions here relate `&str` and `String` values to that model.

use vstd::prelude::*;

verus! {

/// The mathematical model of a string: its characters in order.
pub type Text = Seq<char>;

/// The number of `'-'` characters `t` starts with.
pub open spec fn leading_dashes(t: Text) -> nat
    decreases t.len(),
{
    if t.len() > 0 && t[0] == '-' {
        1 + leading_dashes(t.drop_first())
    } else {
        0
    }
}

/// `t` without the dashes it starts with.
pub open spec fn without_dashes(t: Text) -> Text {
    t.skip(leading_dashes(t) as int)
}

/// The position of the first `c` in `t` at or after `from`, or `t.len()` when there is none.
pub open spec fn find_from(t: Text, c: char, from: int) -> int
    decreases t.len() - from,
{
    if from < 0 || from >= t.len() {
        t.len() as int
    } else if t[from] == c {
        from
    } else {
        find_from(t, c, from + 1)
    }
}

/// `n` space characters.
pub open spec fn spaces(n: nat) -> Text {
    Seq::new(n, |i: int| ' ')
}

/// Lexicographic order on texts, by code point: the order of `str`.
pub open spec fn text_lt(a: Text, b: Text) -> bool
    decreases a.len(),
{
    if b.len() == 0 {
        false
    } else if a.len() == 0 {
        true
    } else if a[0] != b[0] {
        (a[0] as u32) < (b[0] as u32)
    } else {
        text_lt(a.drop_first(), b.drop_first())
    }
}

/// Where `name` belongs in `keys`, a sequence kept in ascending order: the
/// number of keys at the front that are smaller than `name`.
pub open spec fn slot_of(keys: Seq<Text>, name: Text) -> nat
    decreases keys.len(),
{
    if keys.len() > 0 && text_lt(keys[0], name) {
        1 + slot_of(keys.drop_first(), name)
    } else {
        0
    }
}

/// `keys` is strictly ascending.
pub open spec fn ascending(keys: Seq<Text>) -> bool {
    forall|i: int, j: int| 0 <= i < j < keys.len() ==> text_lt(#[trigger] keys[i], #[trigger] keys[j])
}

/// `n` characters at the front of `t` are dashes and the next one, if any, is not.
pub proof fn lemma_leading_dashes(t: Text, n: nat)
    requires
        n <= t.len(),
        forall|i: int| 0 <= i < n ==> t[i] == '-',
        n == t.len() || t[n as int] != '-',
    ensures
        leading_dashes(t) == n,
    decreases n,
{
    if n > 0 {
        let rest = t.drop_first();
        assert forall|i: int| 0 <= i < n - 1 implies rest[i] == '-' by {
            assert(rest[i] == t[i + 1]);
        }
        assert(n - 1 == rest.len() || rest[n - 1] == t[n as int]);
        lemma_leading_dashes(rest, (n - 1) as nat);
    }
}

/// `find_from` is the only position with the properties of `lemma_find_from`.
pub proof fn lemma_find_from_is(t: Text, c: char, from: int, at: int)
    requires
        0 <= from <= at <= t.len(),
        forall|i: int| from <= i < at ==> t[i] != c,
        at < t.len() ==> t[at] == c,
    ensures
        find_from(t, c, from) == at,
    decreases at - from,
{
    if from < at {
        lemma_find_from_is(t, c, from + 1, at);
    }
}

/// No text is smaller than itself.
pub proof fn lemma_text_lt_irreflexive(a: Text)
    ensures
        !text_lt(a, a),
    decreases a.len(),
{
    if a.len() > 0 {
        lemma_text_lt_irreflexive(a.drop_first());
    }
}

/// The order is transitive.
pub proof fn lemma_text_lt_transitive(a: Text, b: Text, c: Text)
    requires
        text_lt(a, b),
        text_lt(b, c),
    ensures
        text_lt(a, c),
    decreases a.len(),
{
    if a.len() > 0 && b.len() > 0 && c.len() > 0 {
        if a[0] == b[0] && b[0] == c[0] {
            lemma_text_lt_transitive(a.drop_first(), b.drop_first(), c.drop_first());
        }
    }
}

/// Of two different texts one is smaller than the other.
pub proof fn lemma_text_lt_total(a: Text, b: Text)
    ensures
        text_lt(a, b) || text_lt(b, a) || a == b,
    decreases a.len(),
{
    if a.len() > 0 && b.len() > 0 {
        if a[0] == b[0] {
            lemma_text_lt_total(a.drop_first(), b.drop_first());
            if a.drop_first() == b.drop_first() {
                assert(a =~= seq![a[0]] + a.drop_first());
                assert(b =~= seq![b[0]] + b.drop_first());
            }
        } else {
            vstd::utf8::char_u32_cast(a[0], a[0] as u32);
            vstd::utf8::char_u32_cast(b[0], b[0] as u32);
        }
    } else if a.len() == 0 && b.len() == 0 {
        assert(a =~= b);
    }
}

/// What `slot_of` returns: every key before the slot is smaller than `name`,
/// and the key at the slot, if any, is not.
pub proof fn lemma_slot_of(keys: Seq<Text>, name: Text)
    ensures
        slot_of(keys, name) <= keys.len(),
        forall|i: int| 0 <= i < slot_of(keys, name) ==> text_lt(#[trigger] keys[i], name),
        slot_of(keys, name) < keys.len() ==> !text_lt(keys[slot_of(keys, name) as int], name),
    decreases keys.len(),
{
    if keys.len() > 0 && text_lt(keys[0], name) {
        let rest = keys.drop_first();
        lemma_slot_of(rest, name);
        assert forall|i: int| 0 <= i < slot_of(keys, name) implies text_lt(#[trigger] keys[i], name) by {
            if i > 0 {
                assert(keys[i] == rest[i - 1]);
            }
        }
        if slot_of(keys, name) < keys.len() {
            assert(keys[slot_of(keys, name) as int] == rest[slot_of(rest, name) as int]);
        }
    }
}

/// `slot_of` is the only position with the properties of `lemma_slot_of`.
pub proof fn lemma_slot_of_is(keys: Seq<Text>, name: Text, at: nat)
    requires
        at <= keys.len(),
        forall|i: int| 0 <= i < at ==> text_lt(#[trigger] keys[i], name),
        at < keys.len() ==> !text_lt(keys[at as int], name),
    ensures
        slot_of(keys, name) == at,
    decreases at,
{
    if at > 0 {
        let rest = keys.drop_first();
        assert(text_lt(keys[0], name));
        assert forall|i: int| 0 <= i < at - 1 implies text_lt(#[trigger] rest[i], name) by {
            assert(rest[i] == keys[i + 1]);
        }
        if at - 1 < rest.len() {
            assert(rest[at - 1] == keys[at as int]);
        }
        lemma_slot_of_is(rest, name, (at - 1) as nat);
    }
}

/// In an ascending sequence every key from the slot on is at least `name`:
/// placing a new `name` at its slot keeps the sequence ascending.
pub proof fn lemma_slot_keeps_ascending(keys: Seq<Text>, name: Text)
    requires
        ascending(keys),
        !keys.contains(name),
    ensures
        ascending(keys.insert(slot_of(keys, name) as int, name)),
{
    lemma_slot_of(keys, name);
    let at = slot_of(keys, name) as int;
    let out = keys.insert(at, name);
    assert forall|i: int, j: int| 0 <= i < j < out.len() implies text_lt(
        #[trigger] out[i],
        #[trigger] out[j],
    ) by {
        if j == at {
            assert(out[i] == keys[i]);
        } else if i == at {
            // name < keys[at] <= keys[j - 1]
            assert(out[j] == keys[j - 1]);
            assert(keys.contains(keys[at]));
            lemma_text_lt_total(keys[at], name);
            if j - 1 > at {
                assert(text_lt(keys[at], keys[j - 1]));
                lemma_text_lt_transitive(name, keys[at], keys[j - 1]);
            }
        } else {
            let oi = if i < at { i } else { i - 1 };
            let oj = if j < at { j } else { j - 1 };
            assert(out[i] == keys[oi]);
            assert(out[j] == keys[oj]);
        }
    }
}

/// `str`'s `==`: two string slices are equal exactly when they hold the same
/// characters in the same order.
#[verifier::external_body]
pub(crate) fn str_eq(a: &str, b: &str) -> (r: bool)
    ensures
        r == (a@ == b@),
{
    a == b
}

/// `String::push`: appends one character to the end of the string.
#[verifier::external_body]
pub(crate) fn push_char(s: &mut String, c: char)
    ensures
        final(s)@ == old(s)@.push(c),
{
    s.push(c)
}

/// The characters of `s` as a vector.
pub fn chars_of(s: &str) -> (v: Vec<char>)
    ensures
        v@ == s@,
{
    let mut v: Vec<char> = Vec::new();
    for c in it: s.chars()
        invariant
            v@ == it.seq().take(it.index() as int),
            it.seq() == s@,
    {
        v.push(c);
    }
    v
}

/// `s` without the dashes it starts with.
pub fn trim_dashes<'a>(s: &'a str) -> (r: &'a str)
    ensures
        r@ == without_dashes(s@),
{
    let chars = chars_of(s);
    let n = chars.len();
    let mut i: usize = 0;
    while i < n && chars[i] == '-'
        invariant
            n == chars.len(),
            i <= n,
            forall|j: int| 0 <= j < i ==> chars[j] == '-',
        decreases n - i,
    {
        i = i + 1;
    }
    proof {
        lemma_leading_dashes(s@, i as nat);
    }
    s.substring_char(i, n)
}

/// The position of the first `c` in `chars` at or after `from`, or the length
/// when there is none.
pub fn find_char(chars: &Vec<char>, c: char, from: usize) -> (at: usize)
    requires
        from <= chars.len(),
    ensures
        at == find_from(chars@, c, from as int),
        from <= at <= chars.len(),
{
    let n = chars.len();
    let mut i: usize = from;
    while i < n && chars[i] != c
        invariant
            n == chars.len(),
            from <= i <= n,
            forall|j: int| from <= j < i ==> chars[j] != c,
        decreases n - i,
    {
        i = i + 1;
    }
    proof {
        lemma_find_from_is(chars@, c, from as int, i as int);
    }
    i
}

/// Whether `a` comes before `b` in the order of `str`.
pub fn str_lt(a: &str, b: &str) -> (r: bool)
    ensures
        r == text_lt(a@, b@),
{
    let x = chars_of(a);
    let y = chars_of(b);
    let mut i: usize = 0;
    proof {
        assert(x@.skip(0) =~= x@);
        assert(y@.skip(0) =~= y@);
    }
    while i < x.len() && i < y.len() && x[i] == y[i]
        invariant
            i <= x.len(),
            i <= y.len(),
            text_lt(x@, y@) == text_lt(x@.skip(i as int), y@.skip(i as int)),
        decreases x.len() - i,
    {
        proof {
            let xs = x@.skip(i as int);
            let ys = y@.skip(i as int);
            assert(xs.drop_first() =~= x@.skip(i + 1));
            assert(ys.drop_first() =~= y@.skip(i + 1));
            assert(xs[0] == ys[0]);
        }
        i = i + 1;
    }
    if i >= y.len() {
        false
    } else if i >= x.len() {
        true
    } else {
        let cx: u32 = x[i] as u32;
        let cy: u32 = y[i] as u32;
        cx < cy
    }
}

} // verus!
