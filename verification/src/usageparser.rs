//! The small language in which one line describes one argument.
//!
//! A line such as `-c --config=[file]... 'Sets the configuration'` is cut
//! into tokens: names in angle or square brackets, a short form after one
//! dash, a long form after two, three dots for an argument that may
//! repeat, and a help text after a single quote.

use vstd::prelude::*;
use crate::text::Text;
use crate::text::chars_of;
use crate::text::find_from;
use crate::text::find_char;
use crate::search::first_true;
use crate::search::last_true;
use crate::search::lemma_first_true_is;
use crate::search::lemma_last_true_is;

verus! {

/// The model of a [`UsageToken`].
pub enum TokenView {
    /// A name in brackets; angle brackets make the argument required.
    Name(Text, bool),
    /// A short form.
    Short(char),
    /// A long form.
    Long(Text),
    /// The help text.
    Help(Text),
    /// The marker of an argument that may repeat.
    Multiple,
}

/// One token of a usage line.
pub enum UsageToken<'u> {
    /// A name in brackets; angle brackets make the argument required.
    Name(&'u str, bool),
    /// A short form.
    Short(char),
    /// A long form.
    Long(&'u str),
    /// The help text.
    Help(&'u str),
    /// The marker of an argument that may repeat.
    Multiple,
}

impl<'u> View for UsageToken<'u> {
    type V = TokenView;

    open spec fn view(&self) -> TokenView {
        match self {
            UsageToken::Name(n, r) => TokenView::Name(n@, *r),
            UsageToken::Short(c) => TokenView::Short(*c),
            UsageToken::Long(l) => TokenView::Long(l@),
            UsageToken::Help(h) => TokenView::Help(h@),
            UsageToken::Multiple => TokenView::Multiple,
        }
    }
}

/// The models of a list of tokens.
pub open spec fn token_views(v: Seq<UsageToken>) -> Seq<TokenView> {
    Seq::new(v.len(), |i: int| v[i]@)
}

/// Whether `c` ends a long form.
pub open spec fn ends_long(c: char) -> bool {
    c == ' ' || c == '=' || c == '.'
}

/// Whether `c` stands between tokens and means nothing itself.
pub open spec fn is_filler(c: char) -> bool {
    c == ' ' || c == '=' || c == ']' || c == '>' || c == '\t'
}

/// The place where the long form that starts at `from` ends: the first
/// space, equals sign or dot, or the end of the line.
pub open spec fn long_end(u: Text, from: int) -> int
    decreases u.len() - from,
{
    if from < 0 || from >= u.len() {
        u.len() as int
    } else if ends_long(u[from]) {
        from
    } else {
        long_end(u, from + 1)
    }
}

/// The place where the help text that starts after the quote at `i` ends:
/// before a quote that ends the line, or at the end of the line.
pub open spec fn help_end(u: Text, i: int) -> int {
    if u.len() - 1 > i && u[u.len() - 1] == '\'' {
        u.len() - 1
    } else {
        u.len() as int
    }
}

/// The tokens of the line `u` from the place `i` on.
///
/// A name runs from its opening bracket to the closing one of its kind, or
/// to the end. A help text runs from its quote to the end and is the last
/// token. Blanks, equals signs and closing brackets between the tokens are
/// passed over. Anything else ends the tokens.
pub open spec fn tokens_from(u: Text, i: int) -> Seq<TokenView>
    decreases u.len() - i,
{
    if i < 0 || i >= u.len() {
        Seq::empty()
    } else if u[i] == '<' || u[i] == '[' {
        let close = if u[i] == '<' {
            '>'
        } else {
            ']'
        };
        let end = find_from(u, close, i + 1);
        let rest = if i < end < u.len() {
            tokens_from(u, end + 1)
        } else {
            Seq::empty()
        };
        seq![TokenView::Name(u.subrange(i + 1, end), u[i] == '<')] + rest
    } else if u[i] == '\'' {
        seq![TokenView::Help(u.subrange(i + 1, help_end(u, i)))]
    } else if u[i] == '-' {
        if i + 1 >= u.len() || u[i + 1] == ' ' {
            Seq::empty()
        } else if u[i + 1] == '-' {
            let end = long_end(u, i + 2);
            if i + 2 < end <= u.len() {
                seq![TokenView::Long(u.subrange(i + 2, end))] + tokens_from(u, end)
            } else {
                Seq::empty()
            }
        } else {
            seq![TokenView::Short(u[i + 1])] + tokens_from(u, i + 2)
        }
    } else if u[i] == '.' {
        if i + 2 < u.len() && u[i + 1] == '.' && u[i + 2] == '.' {
            seq![TokenView::Multiple] + tokens_from(u, i + 3)
        } else {
            Seq::empty()
        }
    } else if is_filler(u[i]) {
        tokens_from(u, i + 1)
    } else {
        Seq::empty()
    }
}

/// The tokens of the usage line `u`.
pub open spec fn tokens_of(u: Text) -> Seq<TokenView> {
    tokens_from(u, 0)
}

/// What `long_end` finds.
pub proof fn lemma_long_end_is(u: Text, from: int, at: int)
    requires
        0 <= from <= at <= u.len(),
        forall|i: int| from <= i < at ==> !ends_long(u[i]),
        at < u.len() ==> ends_long(u[at]),
    ensures
        long_end(u, from) == at,
    decreases at - from,
{
    if from < at {
        lemma_long_end_is(u, from + 1, at);
    }
}

/// Whether `c` is a blank: a space, a tab, or one of the characters that
/// end or feed a line.
pub open spec fn is_blank(c: char) -> bool {
    c == ' ' || c == '\t' || c == '\n' || c == '\r' || c == '\x0b' || c == '\x0c'
}

/// For each character of `t`, whether it is not a blank.
pub open spec fn ink(t: Text) -> Seq<bool> {
    Seq::new(t.len(), |i: int| !is_blank(t[i]))
}

/// `t` without the blanks at its start and at its end.
pub open spec fn trimmed(t: Text) -> Text {
    if first_true(ink(t)) < t.len() {
        t.subrange(first_true(ink(t)), last_true(ink(t)) + 1)
    } else {
        Seq::empty()
    }
}

/// The lines of `t` from the place `from` on, each without the line feed
/// that ends it. A line feed at the very end starts no further line.
pub open spec fn lines_from(t: Text, from: int) -> Seq<Text>
    decreases t.len() - from,
{
    if from < 0 || from >= t.len() {
        Seq::empty()
    } else {
        let end = find_from(t, '\n', from);
        let rest = if from <= end < t.len() {
            lines_from(t, end + 1)
        } else {
            Seq::empty()
        };
        seq![t.subrange(from, end)] + rest
    }
}

/// The usage lines of `t`: its lines, each without the blanks around it.
pub open spec fn usage_lines(t: Text) -> Seq<Text> {
    lines_from(t, 0).map_values(|l: Text| trimmed(l))
}

/// Whether `c` is a blank.
fn blank(c: char) -> (r: bool)
    ensures
        r == is_blank(c),
{
    c == ' ' || c == '\t' || c == '\n' || c == '\r' || c == '\x0b' || c == '\x0c'
}

/// The part of `s` from the place `from` to the place `to`, without the
/// blanks at its start and at its end.
pub fn trim_part<'a>(s: &'a str, chars: &Vec<char>, from: usize, to: usize) -> (r: &'a str)
    requires
        chars@ == s@,
        from <= to <= chars.len(),
    ensures
        r@ == trimmed(s@.subrange(from as int, to as int)),
{
    let ghost part = s@.subrange(from as int, to as int);
    let ghost hits = ink(part);
    let mut a: usize = from;
    while a < to && blank(chars[a])
        invariant
            from <= a <= to,
            to <= chars.len(),
            chars@ == s@,
            part == s@.subrange(from as int, to as int),
            hits == ink(part),
            forall|j: int| 0 <= j < a - from ==> !hits[j],
        decreases to - a,
    {
        a = a + 1;
    }
    proof {
        lemma_first_true_is(hits, a - from);
    }
    if a == to {
        return s.substring_char(a, a);
    }
    let mut b: usize = to;
    while b > a + 1 && blank(chars[b - 1])
        invariant
            from <= a < b <= to,
            to <= chars.len(),
            chars@ == s@,
            part == s@.subrange(from as int, to as int),
            hits == ink(part),
            hits[a - from],
            forall|j: int| b - from <= j < to - from ==> !hits[j],
        decreases b,
    {
        b = b - 1;
    }
    proof {
        lemma_last_true_is(hits, b - from - 1);
        assert(part.subrange(a - from, b - from) =~= s@.subrange(a as int, b as int));
    }
    s.substring_char(a, b)
}

/// The usage lines of `s`.
pub fn split_usage<'a>(s: &'a str) -> (r: Vec<&'a str>)
    ensures
        crate::names::texts(r@) == usage_lines(s@),
{
    let chars = chars_of(s);
    let mut r: Vec<&'a str> = Vec::new();
    let mut i: usize = 0;
    let ghost f = |l: Text| trimmed(l);
    assert(crate::names::texts(r@) =~= Seq::<Text>::empty().map_values(f));
    assert(Seq::<Text>::empty() + lines_from(s@, 0) =~= lines_from(s@, 0));
    let ghost mut done: Seq<Text> = Seq::empty();
    while i < chars.len()
        invariant
            i <= chars.len(),
            chars@ == s@,
            f == (|l: Text| trimmed(l)),
            crate::names::texts(r@) == done.map_values(f),
            lines_from(s@, 0) == done + lines_from(s@, i as int),
        decreases chars.len() - i,
    {
        let end = find_char(&chars, '\n', i);
        let line = trim_part(s, &chars, i, end);
        proof {
            let raw = s@.subrange(i as int, end as int);
            crate::names::lemma_texts_push(r@, line);
            assert(done.push(raw).map_values(f) =~= done.map_values(f).push(trimmed(raw)));
            assert(done.push(raw) + lines_from(s@, end + 1) =~= done + lines_from(s@, i as int));
            done = done.push(raw);
        }
        r.push(line);
        if end == chars.len() {
            proof {
                assert(done + lines_from(s@, end + 1) =~= done);
            }
            return r;
        }
        i = end + 1;
    }
    proof {
        assert(done + Seq::<Text>::empty() =~= done);
    }
    r
}

/// The character of `chars` at the place `i`.
fn char_at(chars: &Vec<char>, i: usize) -> (c: char)
    requires
        i < chars.len(),
    ensures
        c == chars[i as int],
{
    chars[i]
}

/// The place where the long form that starts at `from` ends.
fn find_long_end(chars: &Vec<char>, from: usize) -> (end: usize)
    requires
        from <= chars.len(),
    ensures
        end == long_end(chars@, from as int),
        from <= end <= chars.len(),
{
    let n = chars.len();
    let mut end: usize = from;
    while end < n && !(chars[end] == ' ' || chars[end] == '=' || chars[end] == '.')
        invariant
            from <= end <= n,
            n == chars.len(),
            forall|j: int| from <= j < end ==> !ends_long(chars@[j]),
        decreases n - end,
    {
        end = end + 1;
    }
    proof {
        lemma_long_end_is(chars@, from as int, end as int);
    }
    end
}

/// Cuts the usage line `u` into its tokens.
pub fn tokenize<'u>(u: &'u str) -> (r: Vec<UsageToken<'u>>)
    ensures
        token_views(r@) == tokens_of(u@),
{
    let chars = chars_of(u);
    let n = chars.len();
    let mut r: Vec<UsageToken<'u>> = Vec::new();
    let mut i: usize = 0;
    let mut done = false;
    assert(token_views(r@) + tokens_from(u@, 0) =~= tokens_from(u@, 0));
    while i < n && !done
        invariant
            i <= n,
            n == chars.len(),
            chars@ == u@,
            !done ==> tokens_of(u@) == token_views(r@) + tokens_from(u@, i as int),
            done ==> tokens_of(u@) == token_views(r@),
        decreases
                n - i + if done {
                    0int
                } else {
                    1int
                },
    {
        let c = chars[i];
        let ghost before = token_views(r@);
        let ghost rest = tokens_from(u@, i as int);
        if c == '<' || c == '[' {
            let close = if c == '<' {
                '>'
            } else {
                ']'
            };
            let end = find_char(&chars, close, i + 1);
            let name = u.substring_char(i + 1, end);
            r.push(UsageToken::Name(name, c == '<'));
            assert(token_views(r@) =~= before.push(TokenView::Name(name@, c == '<')));
            if end == n {
                assert(token_views(r@) =~= before + rest);
                done = true;
            } else {
                assert(token_views(r@) + tokens_from(u@, end + 1) =~= before + rest);
                i = end + 1;
            }
        } else if c == '\'' {
            let end = if n - 1 > i && chars[n - 1] == '\'' {
                n - 1
            } else {
                n
            };
            let help = u.substring_char(i + 1, end);
            r.push(UsageToken::Help(help));
            assert(token_views(r@) =~= before.push(TokenView::Help(help@)));
            assert(token_views(r@) =~= before + rest);
            done = true;
        } else if c == '-' {
            if n - i < 2 || chars[i + 1] == ' ' {
                assert(before + rest =~= before);
                done = true;
            } else if chars[i + 1] == '-' {
                let end = find_long_end(&chars, i + 2);
                if end > i + 2 {
                    let long = u.substring_char(i + 2, end);
                    r.push(UsageToken::Long(long));
                    assert(token_views(r@) =~= before.push(TokenView::Long(long@)));
                    assert(token_views(r@) + tokens_from(u@, end as int) =~= before + rest);
                    i = end;
                } else {
                    assert(before + rest =~= before);
                    done = true;
                }
            } else {
                let short = char_at(&chars, i + 1);
                r.push(UsageToken::Short(short));
                assert(token_views(r@) =~= before.push(TokenView::Short(short)));
                assert(token_views(r@) + tokens_from(u@, i + 2) =~= before + rest);
                i = i + 2;
            }
        } else if c == '.' {
            if n - i > 2 && chars[i + 1] == '.' && chars[i + 2] == '.' {
                r.push(UsageToken::Multiple);
                assert(token_views(r@) =~= before.push(TokenView::Multiple));
                assert(token_views(r@) + tokens_from(u@, i + 3) =~= before + rest);
                i = i + 3;
            } else {
                assert(before + rest =~= before);
                done = true;
            }
        } else if c == ' ' || c == '=' || c == ']' || c == '>' || c == '\t' {
            i = i + 1;
        } else {
            assert(before + rest =~= before);
            done = true;
        }
    }
    proof {
        if !done {
            assert(token_views(r@) + tokens_from(u@, i as int) =~= token_views(r@));
        }
    }
    r
}

} // verus!
