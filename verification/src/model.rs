//! The mathematical model of splitting.
//!
//! Texts are modelled as sequences of characters, so every position is a
//! character position. `first_match` gives the position of the first
//! occurrence of a delimiter in a text, and `split_elems` gives the full
//! ordered sequence of elements that splitting produces. The executable
//! splitter is specified entirely in terms of these functions.

use vstd::prelude::*;

verus! {

/// Holds when the delimiter `d` occupies exactly the characters of `s` at
/// positions `[i, i + d.len())`.
pub open spec fn match_at(d: Seq<char>, s: Seq<char>, i: int) -> bool {
    0 <= i && i + d.len() <= s.len() && s.subrange(i, i + d.len()) == d
}

/// Holds when the delimiter `d` occurs somewhere in `s`.
pub open spec fn occurs_in(d: Seq<char>, s: Seq<char>) -> bool {
    exists|i: int| match_at(d, s, i)
}

/// The position of the first occurrence of `d` in `s`, or `None` when `d`
/// does not occur. An empty delimiter never matches, so splitting on it
/// yields the whole text as a single element.
pub open spec fn first_match(d: Seq<char>, s: Seq<char>) -> Option<int>
    decreases s.len(),
{
    if d.len() == 0 {
        None
    } else if s.len() < d.len() {
        None
    } else if s.subrange(0, d.len() as int) == d {
        Some(0int)
    } else {
        match first_match(d, s.subrange(1, s.len() as int)) {
            Some(i) => Some(i + 1),
            None => None,
        }
    }
}

/// A match of `d` inside the suffix of `s` that starts at `e` is a match of
/// `d` inside `s`, shifted by `e`.
pub proof fn lemma_shift_match(d: Seq<char>, s: Seq<char>, e: int, j: int)
    requires
        0 <= e <= s.len(),
        0 <= j,
    ensures
        match_at(d, s.subrange(e, s.len() as int), j) == match_at(d, s, e + j),
{
    let t = s.subrange(e, s.len() as int);
    if j + d.len() <= t.len() {
        assert(t.subrange(j, j + d.len()) =~= s.subrange(e + j, e + j + d.len()));
    }
}

/// What `first_match` returns: the position of a match that no earlier
/// position matches, or `None` exactly when no position matches at all
/// (in particular when the delimiter is empty).
pub proof fn lemma_first_match(d: Seq<char>, s: Seq<char>)
    ensures
        match first_match(d, s) {
            Some(i) => {
                &&& d.len() >= 1
                &&& match_at(d, s, i)
                &&& forall|j: int| 0 <= j < i ==> !match_at(d, s, j)
            },
            None => d.len() == 0 || forall|j: int| !match_at(d, s, j),
        },
    decreases s.len(),
{
    if d.len() == 0 {
    } else if s.len() < d.len() {
    } else if s.subrange(0, d.len() as int) == d {
    } else {
        let t = s.subrange(1, s.len() as int);
        lemma_first_match(d, t);
        match first_match(d, t) {
            Some(i) => {
                lemma_shift_match(d, s, 1, i);
                assert forall|j: int| 0 <= j < i + 1 implies !match_at(d, s, j) by {
                    if j >= 1 {
                        lemma_shift_match(d, s, 1, j - 1);
                    }
                }
            },
            None => {
                assert forall|j: int| !match_at(d, s, j) by {
                    if j >= 1 {
                        lemma_shift_match(d, s, 1, j - 1);
                    }
                }
            },
        }
    }
}

/// The converse direction: a match that no earlier position matches is
/// exactly what `first_match` reports.
pub proof fn lemma_first_match_at(d: Seq<char>, s: Seq<char>, i: int)
    requires
        d.len() >= 1,
        match_at(d, s, i),
        forall|j: int| 0 <= j < i ==> !match_at(d, s, j),
    ensures
        first_match(d, s) == Some(i),
    decreases s.len(),
{
    if i == 0 {
    } else {
        assert(!match_at(d, s, 0));
        assert(s.subrange(0, d.len() as int) != d);
        let t = s.subrange(1, s.len() as int);
        lemma_shift_match(d, s, 1, i - 1);
        assert forall|j: int| 0 <= j < i - 1 implies !match_at(d, t, j) by {
            lemma_shift_match(d, s, 1, j);
        }
        lemma_first_match_at(d, t, i - 1);
        assert(first_match(d, t) == Some(i - 1));
    }
}

/// The ordered sequence of elements that splitting `s` on `d` produces:
/// the text before each occurrence of `d`, then, once `d` no longer
/// occurs, the rest of the text as the final element.
pub open spec fn split_elems(d: Seq<char>, s: Seq<char>) -> Seq<Seq<char>>
    decreases s.len()
        via split_elems_decreases
{
    match first_match(d, s) {
        None => seq![s],
        Some(i) => seq![s.subrange(0, i)] + split_elems(
            d,
            s.subrange(i + d.len(), s.len() as int),
        ),
    }
}

#[via_fn]
proof fn split_elems_decreases(d: Seq<char>, s: Seq<char>) {
    lemma_first_match(d, s);
}

/// Splitting always yields at least one element.
pub proof fn lemma_split_len(d: Seq<char>, s: Seq<char>)
    ensures
        split_elems(d, s).len() >= 1,
{
    lemma_first_match(d, s);
}

/// The elements joined back together, with `d` inserted between each pair
/// of consecutive elements.
pub open spec fn join_with(parts: Seq<Seq<char>>, d: Seq<char>) -> Seq<char>
    decreases parts.len(),
{
    if parts.len() == 0 {
        Seq::empty()
    } else if parts.len() == 1 {
        parts[0]
    } else {
        parts[0] + d + join_with(parts.skip(1), d)
    }
}

} // verus!
