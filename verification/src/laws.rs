//! The general laws of splitting, stated and proved over the model.

use crate::model::{first_match, join_with, lemma_first_match, lemma_shift_match, lemma_split_len,
    match_at, occurs_in, split_elems};
use vstd::prelude::*;

verus! {

/// Splitting the empty text on any non-empty delimiter yields exactly one
/// element, the empty text.
pub proof fn lemma_split_empty_text(d: Seq<char>)
    requires
        d.len() >= 1,
    ensures
        split_elems(d, Seq::<char>::empty()) == seq![Seq::<char>::empty()],
{
}

/// Round-trip law: for every non-empty delimiter, joining the produced
/// elements in order, with the delimiter inserted between consecutive
/// elements, reconstructs the text exactly.
pub proof fn lemma_split_join(d: Seq<char>, t: Seq<char>)
    requires
        d.len() >= 1,
    ensures
        join_with(split_elems(d, t), d) == t,
    decreases t.len(),
{
    lemma_first_match(d, t);
    match first_match(d, t) {
        None => {
        },
        Some(i) => {
            let pre = t.subrange(0, i);
            let rest = t.subrange(i + d.len(), t.len() as int);
            lemma_split_join(d, rest);
            lemma_split_len(d, rest);
            let parts = split_elems(d, t);
            assert(parts == seq![pre] + split_elems(d, rest));
            assert(parts.skip(1) =~= split_elems(d, rest));
            assert(pre + d + rest =~= t);
        },
    }
}

/// Splitting on a delimiter that does not occur in the text yields exactly
/// one element, the whole text.
pub proof fn lemma_split_absent(d: Seq<char>, t: Seq<char>)
    requires
        !occurs_in(d, t),
    ensures
        split_elems(d, t) == seq![t],
{
    lemma_first_match(d, t);
    if let Some(i) = first_match(d, t) {
        assert(match_at(d, t, i));
        assert(occurs_in(d, t));
    }
}

/// Trailing-empty-element law: when the text ends with the delimiter, and
/// no two occurrences of the delimiter in the text overlap, the last
/// produced element is empty. (When occurrences may overlap, an earlier
/// match can consume part of the trailing one and the final element need
/// not be empty.)
pub proof fn lemma_split_trailing(d: Seq<char>, t: Seq<char>)
    requires
        d.len() >= 1,
        d.len() <= t.len(),
        t.subrange(t.len() - d.len(), t.len() as int) == d,
        forall|i: int, j: int|
            match_at(d, t, i) && match_at(d, t, j) && i < j ==> i + d.len() <= j,
    ensures
        split_elems(d, t).last() == Seq::<char>::empty(),
    decreases t.len(),
{
    let dl = d.len() as int;
    let m = t.len() - dl;
    assert(match_at(d, t, m));
    lemma_first_match(d, t);
    match first_match(d, t) {
        None => {
            assert(!match_at(d, t, m));
        },
        Some(i) => {
            assert(i <= m);
            let e = i + dl;
            let rest = t.subrange(e, t.len() as int);
            lemma_split_len(d, rest);
            assert(split_elems(d, t) == seq![t.subrange(0, i)] + split_elems(d, rest));
            if i == m {
                assert(rest =~= Seq::<char>::empty());
                assert(first_match(d, rest) is None);
                assert(split_elems(d, t).last() == rest);
            } else {
                assert(e <= m);
                assert(rest.len() >= dl);
                assert(rest.subrange(rest.len() - dl, rest.len() as int) =~= t.subrange(
                    m,
                    t.len() as int,
                ));
                assert forall|i2: int, j2: int|
                    match_at(d, rest, i2) && match_at(d, rest, j2) && i2 < j2 implies i2 + d.len()
                    <= j2 by {
                    lemma_shift_match(d, t, e, i2);
                    lemma_shift_match(d, t, e, j2);
                }
                lemma_split_trailing(d, rest);
            }
        },
    }
}

} // verus!
