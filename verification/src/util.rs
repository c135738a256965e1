//! Numbers as text with points between the thousands.

use vstd::prelude::*;
use crate::format::{append_signed, signed};

verus! {

/// A whole number with a point between the thousands: `-12.345`.
pub fn dec_format(x: i128) -> (r: String)
    ensures
        r@ == signed(x as int, '.'),
{
    proof {
        reveal_strlit(".");
    }
    let mut r = String::new();
    append_signed(&mut r, x, ".");
    assert(r@ =~= signed(x as int, '.'));
    r
}

} // verus!
