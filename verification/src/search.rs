//! Finding the first item of a list that has some property.
//!
//! The stores of a command are searched from the front. What is searched for
//! is given as a list of truth values, one for each item.

use vstd::prelude::*;

verus! {

/// The position of the first `true` in `hits`, or `hits.len()` when there is none.
pub open spec fn first_true(hits: Seq<bool>) -> int
    decreases hits.len(),
{
    if hits.len() == 0 {
        0
    } else if hits[0] {
        0
    } else {
        1 + first_true(hits.drop_first())
    }
}

/// The position of the last `true` in `hits`, or `-1` when there is none.
pub open spec fn last_true(hits: Seq<bool>) -> int
    decreases hits.len(),
{
    if hits.len() == 0 {
        -1
    } else if hits.last() {
        hits.len() - 1
    } else {
        last_true(hits.drop_last())
    }
}

/// What `first_true` returns: nothing before it holds, and it holds itself
/// unless it is the length.
pub proof fn lemma_first_true(hits: Seq<bool>)
    ensures
        0 <= first_true(hits) <= hits.len(),
        forall|i: int| 0 <= i < first_true(hits) ==> !hits[i],
        first_true(hits) < hits.len() ==> hits[first_true(hits)],
    decreases hits.len(),
{
    if hits.len() > 0 && !hits[0] {
        let rest = hits.drop_first();
        lemma_first_true(rest);
        assert forall|i: int| 0 <= i < first_true(hits) implies !hits[i] by {
            if i > 0 {
                assert(hits[i] == rest[i - 1]);
            }
        }
        if first_true(hits) < hits.len() {
            assert(hits[first_true(hits)] == rest[first_true(rest)]);
        }
    }
}

/// `first_true` is the only position with the properties of `lemma_first_true`.
pub proof fn lemma_first_true_is(hits: Seq<bool>, at: int)
    requires
        0 <= at <= hits.len(),
        forall|i: int| 0 <= i < at ==> !hits[i],
        at < hits.len() ==> hits[at],
    ensures
        first_true(hits) == at,
    decreases at,
{
    if at > 0 {
        let rest = hits.drop_first();
        assert(!hits[0]);
        assert forall|i: int| 0 <= i < at - 1 implies !rest[i] by {
            assert(rest[i] == hits[i + 1]);
        }
        if at - 1 < rest.len() {
            assert(rest[at - 1] == hits[at]);
        }
        lemma_first_true_is(rest, at - 1);
    }
}

/// What `last_true` returns: nothing after it holds, and it holds itself
/// unless it is `-1`.
pub proof fn lemma_last_true(hits: Seq<bool>)
    ensures
        -1 <= last_true(hits) < hits.len(),
        forall|i: int| last_true(hits) < i < hits.len() ==> !hits[i],
        0 <= last_true(hits) ==> hits[last_true(hits)],
    decreases hits.len(),
{
    if hits.len() > 0 && !hits.last() {
        let front = hits.drop_last();
        lemma_last_true(front);
        assert forall|i: int| last_true(hits) < i < hits.len() implies !hits[i] by {
            if i < hits.len() - 1 {
                assert(hits[i] == front[i]);
            }
        }
        if 0 <= last_true(hits) {
            assert(hits[last_true(hits)] == front[last_true(front)]);
        }
    }
}

/// `last_true` is the only position with the properties of `lemma_last_true`.
pub proof fn lemma_last_true_is(hits: Seq<bool>, at: int)
    requires
        -1 <= at < hits.len(),
        forall|i: int| at < i < hits.len() ==> !hits[i],
        0 <= at ==> hits[at],
    ensures
        last_true(hits) == at,
    decreases hits.len(),
{
    if hits.len() > 0 && at < hits.len() - 1 {
        let front = hits.drop_last();
        assert(!hits[hits.len() - 1]);
        assert forall|i: int| at < i < front.len() implies !front[i] by {
            assert(front[i] == hits[i]);
        }
        if 0 <= at {
            assert(front[at] == hits[at]);
        }
        lemma_last_true_is(front, at);
    }
}

} // verus!
