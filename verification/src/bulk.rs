//! Bulk append of a slice onto a growable vector.

use vstd::prelude::*;

verus! {

/// Appends every element of `rhs` to the end of `lhs`, in order.
pub fn concat<T: Copy>(lhs: &mut Vec<T>, rhs: &[T])
    ensures
        final(lhs)@ == old(lhs)@ + rhs@,
{
    let mut i: usize = 0;
    while i < rhs.len()
        invariant
            i <= rhs.len(),
            lhs@ == old(lhs)@ + rhs@.take(i as int),
        decreases rhs.len() - i,
    {
        lhs.push(rhs[i]);
        proof {
            assert(rhs@.take(i + 1 as int) == rhs@.take(i as int).push(rhs@[i as int]));
        }
        i = i + 1;
    }
    proof {
        assert(rhs@.take(rhs@.len() as int) == rhs@);
    }
}

} // verus!
