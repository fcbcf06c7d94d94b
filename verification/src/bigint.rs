//! Signed integers of any size, in two's complement bytes.

use crate::bytes::{base256, le_number};
use num_bigint::BigInt;
use vstd::prelude::*;

verus! {

/// The integer whose two's complement bytes are `s`, least significant first.
/// No bytes stand for zero.
pub open spec fn signed_number(s: Seq<u8>) -> int {
    if s.len() > 0 && s.last() >= 128 {
        le_number(s) - base256(s.len())
    } else {
        le_number(s) as int
    }
}

/// The sum of two `num_bigint::BigInt`s, taken from and given as the bytes of
/// `from_signed_bytes_le` and `to_signed_bytes_le`: the sum of the two integers.
#[verifier::external_body]
pub(crate) fn bigint_add(a: &Vec<u8>, b: &Vec<u8>) -> (sum: Vec<u8>)
    ensures
        signed_number(sum@) == signed_number(a@) + signed_number(b@),
{
    (BigInt::from_signed_bytes_le(a) + BigInt::from_signed_bytes_le(b)).to_signed_bytes_le()
}

/// `<` of two `num_bigint::BigInt`s, taken from the bytes of
/// `from_signed_bytes_le`: whether the first integer is the smaller one.
#[verifier::external_body]
pub(crate) fn bigint_less(a: &Vec<u8>, b: &Vec<u8>) -> (less: bool)
    ensures
        less == (signed_number(a@) < signed_number(b@)),
{
    BigInt::from_signed_bytes_le(a) < BigInt::from_signed_bytes_le(b)
}

/// `u64::try_from` of a `num_bigint::BigInt`, taken from the bytes of
/// `from_signed_bytes_le`: the integer itself where 64 bits without a sign hold
/// it, and nothing elsewhere.
#[verifier::external_body]
pub(crate) fn bigint_to_u64(a: &Vec<u8>) -> (n: Option<u64>)
    ensures
        n == (if 0 <= signed_number(a@) <= u64::MAX {
            Some(signed_number(a@) as u64)
        } else {
            None
        }),
{
    u64::try_from(&BigInt::from_signed_bytes_le(a)).ok()
}

} // verus!
