//! Building an owned sequence from given elements.

use vstd::prelude::*;

verus! {

/// Collects the given elements, in order, into a new owned growable vector.
/// With no elements the result is empty.
pub fn avec<T: Copy>(elems: &[T]) -> (r: Vec<T>)
    ensures
        r@ == elems@,
{
    let mut vs: Vec<T> = Vec::new();
    let mut i: usize = 0;
    while i < elems.len()
        invariant
            i <= elems@.len(),
            vs@ == elems@.subrange(0, i as int),
        decreases elems@.len() - i,
    {
        vs.push(elems[i]);
        proof {
            assert(vs@ =~= elems@.subrange(0, i + 1));
        }
        i += 1;
    }
    proof {
        assert(vs@ =~= elems@);
    }
    vs
}

} // verus!
