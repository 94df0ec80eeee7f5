//! Numbers as a database row holds them: in 64 bits with a sign.
use vstd::prelude::*;

verus! {

/// An unsigned number in the same 64 bits, read with a sign.
pub open spec fn signed_value(n: u64) -> int {
    if n <= i64::MAX {
        n as int
    } else {
        n - u64::MAX - 1
    }
}

/// An unsigned number in the same 64 bits, read with a sign.
pub fn signed(n: u64) -> (r: i64)
    ensures
        r == signed_value(n),
{
    if n <= i64::MAX as u64 {
        n as i64
    } else {
        -((u64::MAX - n) as i64) - 1
    }
}

/// A number that fits counts as it is, and one that does not wraps round to a negative one.
pub proof fn numbers_with_a_sign(n: u64)
    ensures
        n <= 0x7fff_ffff_ffff_ffff ==> signed_value(n) == n,
        n > 0x7fff_ffff_ffff_ffff ==> signed_value(n) == n - 0x1_0000_0000_0000_0000 && signed_value(
            n,
        ) < 0,
{
}

} // verus!
