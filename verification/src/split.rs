//! The delimiter abstraction and the splitting iterator.

use crate::model::{first_match, lemma_first_match, lemma_first_match_at, lemma_split_len,
    match_at, split_elems};
use vstd::prelude::*;

verus! {

/// The capability of locating the next occurrence of a delimiter in a text:
/// `find_next` reports the half-open character range `[start, end)` of the
/// first occurrence, or `None` when there is none. The delimiter itself is
/// modelled by `delim`, its character sequence.
pub trait Delimiter: Sized {
    /// The characters that one occurrence of this delimiter occupies.
    spec fn delim(&self) -> Seq<char>;

    /// Locate the first occurrence of this delimiter in `s`, as the
    /// character range it occupies.
    fn find_next(&self, s: &str) -> (r: Option<(usize, usize)>)
        ensures
            match r {
                Some(p) => first_match(self.delim(), s@) == Some(p.0 as int) && p.1 == p.0
                    + self.delim().len(),
                None => first_match(self.delim(), s@) is None,
            },
    ;
}

/// A single character as a delimiter. One occurrence occupies exactly one
/// character position, found by scanning character by character.
impl Delimiter for char {
    open spec fn delim(&self) -> Seq<char> {
        seq![*self]
    }

    fn find_next(&self, s: &str) -> (r: Option<(usize, usize)>) {
        let n: usize = s.unicode_len();
        let mut i: usize = 0;
        while i < n
            invariant
                n == s@.len(),
                i <= n,
                forall|j: int| 0 <= j < i ==> s@[j] != *self,
            decreases n - i,
        {
            if s.get_char(i) == *self {
                proof {
                    assert(s@.subrange(i as int, i + 1) =~= seq![*self]);
                    assert forall|j: int| 0 <= j < i implies !match_at(seq![*self], s@, j) by {
                        assert(s@.subrange(j, j + 1)[0] == s@[j]);
                    }
                    lemma_first_match_at(seq![*self], s@, i as int);
                }
                return Some((i, i + 1));
            }
            i += 1;
        }
        proof {
            assert forall|j: int| !match_at(seq![*self], s@, j) by {
                if 0 <= j && j + 1 <= s@.len() {
                    assert(s@.subrange(j, j + 1)[0] == s@[j]);
                }
            }
            lemma_first_match(seq![*self], s@);
        }
        None
    }
}

/// A literal text span as a delimiter. One occurrence occupies as many
/// character positions as the literal has characters. An empty literal
/// never matches, so splitting on it yields the whole text as a single
/// element.
impl<'d> Delimiter for &'d str {
    open spec fn delim(&self) -> Seq<char> {
        (*self)@
    }

    fn find_next(&self, s: &str) -> (r: Option<(usize, usize)>) {
        let m: usize = self.unicode_len();
        let n: usize = s.unicode_len();
        if m == 0 || n < m {
            return None;
        }
        let mut i: usize = 0;
        while i <= n - m
            invariant
                m == (*self)@.len(),
                n == s@.len(),
                1 <= m <= n,
                i <= n - m + 1,
                forall|j: int| 0 <= j < i ==> !match_at((*self)@, s@, j),
            decreases n - m - i + 1,
        {
            if matches_at(s, self, i) {
                proof {
                    lemma_first_match_at((*self)@, s@, i as int);
                }
                return Some((i, i + m));
            }
            i += 1;
        }
        proof {
            lemma_first_match((*self)@, s@);
        }
        None
    }
}

/// The splitting iterator: a lazy state machine that holds the not yet
/// scanned remainder of the input and the delimiter, and on each pull
/// yields the next element. Once the remainder is gone the iterator is
/// permanently exhausted. Every yielded element is a borrowed sub-span of
/// the original input; nothing is copied.
pub struct StrSplit<'haystack, D> {
    /// The part of the input that has not been scanned yet; `None` once
    /// the iterator is exhausted.
    remainder: Option<&'haystack str>,
    /// The delimiter that marks the split points.
    delimiter: D,
}

impl<'haystack, D: Delimiter> StrSplit<'haystack, D> {
    /// The elements still to be yielded, in order: all of them right after
    /// construction, none once the iterator is exhausted.
    pub closed spec fn pending(self) -> Seq<Seq<char>> {
        match self.remainder {
            Some(rem) => split_elems(self.delimiter.delim(), rem@),
            None => Seq::empty(),
        }
    }

    /// Creates a splitter over `haystack` that is about to yield every
    /// element of the split.
    pub fn new(haystack: &'haystack str, delimiter: D) -> (sp: Self)
        ensures
            sp.pending() == split_elems(delimiter.delim(), haystack@),
    {
        Self { remainder: Some(haystack), delimiter }
    }

    /// Pulls the next element. While elements are pending this yields the
    /// first of them and keeps the rest pending; once none are pending it
    /// yields `None`, and keeps doing so on every further pull.
    pub fn next(&mut self) -> (r: Option<&'haystack str>)
        ensures
            match r {
                Some(elem) => {
                    &&& old(self).pending().len() > 0
                    &&& elem@ == old(self).pending()[0]
                    &&& final(self).pending() == old(self).pending().skip(1)
                },
                None => {
                    &&& old(self).pending().len() == 0
                    &&& final(self).pending().len() == 0
                },
            },
    {
        match self.remainder {
            None => None,
            Some(rem) => {
                let ghost d = self.delimiter.delim();
                proof {
                    lemma_first_match(d, rem@);
                }
                match self.delimiter.find_next(rem) {
                    Some((delim_start, delim_end)) => {
                        let until_delimiter = rem.substring_char(0, delim_start);
                        let rem_len = rem.unicode_len();
                        let rest = rem.substring_char(delim_end, rem_len);
                        self.remainder = Some(rest);
                        proof {
                            assert(self.pending() =~= old(self).pending().skip(1));
                        }
                        Some(until_delimiter)
                    },
                    None => {
                        self.remainder = None;
                        proof {
                            assert(old(self).pending() =~= seq![rem@]);
                        }
                        Some(rem)
                    },
                }
            },
        }
    }

    /// Pulls until exhaustion and collects every yielded element, in
    /// order, into an owned vector.
    pub fn collect_all(&mut self) -> (r: Vec<&'haystack str>)
        ensures
            r@.len() == old(self).pending().len(),
            forall|k: int| 0 <= k < r@.len() ==> r@[k]@ == old(self).pending()[k],
            final(self).pending().len() == 0,
    {
        let mut out: Vec<&'haystack str> = Vec::new();
        loop
            invariant
                out@.len() + self.pending().len() == old(self).pending().len(),
                forall|k: int| 0 <= k < out@.len() ==> out@[k]@ == old(self).pending()[k],
                forall|k: int|
                    0 <= k < self.pending().len() ==> self.pending()[k] == old(self).pending()[out@.len()
                        + k],
            decreases self.pending().len(),
        {
            match self.next() {
                Some(elem) => {
                    out.push(elem);
                },
                None => {
                    return out;
                },
            }
        }
    }
}

/// The text before the first occurrence of the character `c` in `s`: the
/// first element of splitting `s` on `c`. The split always yields at least
/// one element, so this never fails; when `c` is absent the result is all
/// of `s`, and when `c` leads the input the result is empty.
pub fn until_char<'a>(s: &'a str, c: char) -> (r: &'a str)
    ensures
        r@ == split_elems(seq![c], s@)[0],
{
    let mut splitter = StrSplit::new(s, c);
    proof {
        lemma_split_len(seq![c], s@);
    }
    match splitter.next() {
        Some(elem) => elem,
        None => unreached(),
    }
}

/// Whether the characters of `s` starting at position `i` are exactly the
/// characters of `d`.
fn matches_at(s: &str, d: &str, i: usize) -> (r: bool)
    requires
        i + d@.len() <= s@.len(),
    ensures
        r == match_at(d@, s@, i as int),
{
    let m: usize = d.unicode_len();
    let n: usize = s.unicode_len();
    let mut k: usize = 0;
    while k < m
        invariant
            m == d@.len(),
            n == s@.len(),
            i + m <= n,
            k <= m,
            forall|l: int| 0 <= l < k ==> s@[i + l] == d@[l],
        decreases m - k,
    {
        if s.get_char(i + k) != d.get_char(k) {
            proof {
                assert(s@.subrange(i as int, i + m)[k as int] == s@[i + k]);
            }
            return false;
        }
        k += 1;
    }
    proof {
        assert(s@.subrange(i as int, i + m) =~= d@);
    }
    true
}

} // verus!
