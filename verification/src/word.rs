//! 256-bit words, as the chain hands them out: 32 bytes, big-endian.

use alloy::primitives::{I256, U256};
use vstd::prelude::*;

verus! {

use crate::bytes::be_nat;
use crate::text::decimal;

/// The signed number that a word stands for, in two's complement.
pub open spec fn signed_value(word: Seq<u8>) -> int {
    let n = be_nat(word) as int;
    if word[0] < 0x80 {
        n
    } else {
        n - crate::bytes::pow256(word.len()) as int
    }
}

/// `U256`'s `to_string`: the decimal numeral of the word, without leading
/// zeros.
#[verifier::external_body]
pub(crate) fn word_decimal(word: &[u8; 32]) -> (t: String)
    ensures
        t@ == decimal(be_nat(word@)),
{
    U256::from_be_bytes(*word).to_string()
}

/// `u64`'s `try_from` of a `U256`: the number, where it fits.
#[verifier::external_body]
pub(crate) fn word_to_u64(word: &[u8; 32]) -> (n: Option<u64>)
    ensures
        n == if be_nat(word@) <= u64::MAX {
            Some(be_nat(word@) as u64)
        } else {
            None
        },
{
    u64::try_from(U256::from_be_bytes(*word)).ok()
}

/// `u128`'s `try_from` of a `U256`: the number, where it fits.
#[verifier::external_body]
pub(crate) fn word_to_u128(word: &[u8; 32]) -> (n: Option<u128>)
    ensures
        n == if be_nat(word@) <= u128::MAX {
            Some(be_nat(word@) as u128)
        } else {
            None
        },
{
    u128::try_from(U256::from_be_bytes(*word)).ok()
}

/// `i128`'s `try_from` of an `I256`: the number, where it fits.
#[verifier::external_body]
pub(crate) fn word_to_i128(word: &[u8; 32]) -> (n: Option<i128>)
    ensures
        n == if i128::MIN <= signed_value(word@) <= i128::MAX {
            Some(signed_value(word@) as i128)
        } else {
            None
        },
{
    i128::try_from(I256::from_be_bytes(*word)).ok()
}

} // verus!
