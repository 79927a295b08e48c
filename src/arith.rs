use primitive_types::U256;
use vstd::prelude::*;

verus! {

/// The largest value a 256-bit unsigned integer holds, plus one.
pub open spec fn u256_bound() -> int {
    0x1_0000_0000_0000_0000_0000_0000_0000_0000_0000_0000_0000_0000_0000_0000_0000_0000int
}

/// Relies on primitive_types::U256: `a * b * c` is formed exactly in 256 bits, `checked_mul`
/// giving `None` on overflow; `/` divides with floor (its divisors here are never zero); and
/// `u128::try_from` fails unless the quotient fits in 128 bits.
#[verifier::external_body]
pub(crate) fn mul_div(a: u128, b: u128, c: u128, d: u128, e: u128) -> (r: Option<u128>)
    requires
        d > 0,
        e > 0,
    ensures
        r is Some <==> (a * b * c < u256_bound() && a * b * c / (d as int) / (e as int)
            <= u128::MAX),
        r is Some ==> r->0 == a * b * c / (d as int) / (e as int),
{
    let p = U256::from(a).checked_mul(U256::from(b))?.checked_mul(U256::from(c))?;
    u128::try_from(p / U256::from(d) / U256::from(e)).ok()
}

} // verus!
