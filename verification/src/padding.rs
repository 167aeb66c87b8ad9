//! Width of the zero-padded index used in new file names.

use vstd::prelude::*;
use crate::text::dec_digits;

verus! {

/// Padding width for a directory whose matching-file count is `total`:
/// five digits normally, seven once the count itself needs five digits.
pub open spec fn spec_padding_width(total: nat) -> nat {
    if dec_digits(total).len() >= 5 {
        7
    } else {
        5
    }
}

/// The decimal rendering of `n` has at least five digits exactly when
/// `n` is at least ten thousand.
proof fn lemma_digits_small(n: nat)
    ensures
        n < 10 ==> dec_digits(n).len() == 1,
        10 <= n < 100 ==> dec_digits(n).len() == 2,
        100 <= n < 1000 ==> dec_digits(n).len() == 3,
        1000 <= n < 10000 ==> dec_digits(n).len() == 4,
        n >= 10000 ==> dec_digits(n).len() >= 5,
    decreases n,
{
    if n >= 10 {
        lemma_digits_small(n / 10);
    }
}

/// Computes the zero-padding width for a pass over a directory with
/// `total` matching files.
pub fn padding_width(total: usize) -> (width: usize)
    ensures
        width == spec_padding_width(total as nat),
        total < 10000 ==> width == 5,
        total >= 10000 ==> width == 7,
{
    proof {
        lemma_digits_small(total as nat);
    }
    if total < 10000 {
        5
    } else {
        7
    }
}

} // verus!
