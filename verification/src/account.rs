//! Accounts: addresses and signing keys, as text.

use alloy::primitives::Address;
use alloy::signers::local::PrivateKeySigner;
use std::str::FromStr;
use vstd::prelude::*;
use vstd::string::*;

verus! {

use crate::text::hex_of;

/// The number that a hexadecimal digit stands for.
pub open spec fn hex_digit(c: char) -> Option<nat> {
    let n = c as int;
    if 48 <= n <= 57 {
        Some((n - 48) as nat)
    } else if 97 <= n <= 102 {
        Some((n - 87) as nat)
    } else if 65 <= n <= 70 {
        Some((n - 55) as nat)
    } else {
        None
    }
}

/// Hexadecimal text without the `0x` or `0X` before it.
pub open spec fn hex_digits(text: Seq<char>) -> Seq<char> {
    if text.len() >= 2 && text[0] == '0' && (text[1] == 'x' || text[1] == 'X') {
        text.skip(2)
    } else {
        text
    }
}

/// `n` bytes from hexadecimal digits, two for each byte, of either case.
pub open spec fn bytes_of_digits(digits: Seq<char>, n: nat) -> Option<Seq<u8>> {
    if digits.len() == 2 * n && forall|i: int|
        0 <= i < digits.len() ==> hex_digit(#[trigger] digits[i]) is Some {
        Some(
            Seq::new(
                n,
                |i: int| (16 * hex_digit(digits[2 * i])->0 + hex_digit(digits[2 * i + 1])->0) as u8,
            ),
        )
    } else {
        None
    }
}

/// `n` bytes from hexadecimal text: two digits for each byte, of either case,
/// with `0x` or `0X` before them or without.
pub open spec fn hex_bytes(text: Seq<char>, n: nat) -> Option<Seq<u8>> {
    bytes_of_digits(hex_digits(text), n)
}

/// The error of alloy's hexadecimal decoding.
#[verifier::external_type_specification]
#[verifier::external_body]
pub struct ExFromHexError(alloy::hex::FromHexError);

/// The error of alloy's local signers.
#[verifier::external_type_specification]
#[verifier::external_body]
pub struct ExLocalSignerError(alloy::signers::local::LocalSignerError);

/// The address of the account that a 32-byte secret key signs for, where the
/// key is one.
pub uninterp spec fn key_address(key: Seq<u8>) -> Option<Seq<u8>>;

/// The address of the account that a signing key, as text, signs for.
pub open spec fn signer_of(text: Seq<char>) -> Option<Seq<u8>> {
    match hex_bytes(text, 32) {
        Some(key) => key_address(key),
        None => None,
    }
}

/// `Address`'s `from_str`: 20 bytes from hexadecimal text.
#[verifier::external_body]
pub(crate) fn parse_address(text: &str) -> (r: Result<[u8; 20], alloy::hex::FromHexError>)
    ensures
        match hex_bytes(text@, 20) {
            Some(a) => r is Ok && r->Ok_0@ == a,
            None => r is Err,
        },
{
    Address::from_str(text).map(|a| a.0.0)
}

/// `PrivateKeySigner`'s `from_str`, and the signer's address: the text is 32
/// bytes of hexadecimal text, and the address depends on those bytes alone.
#[verifier::external_body]
pub(crate) fn parse_signer(text: &str) -> (r: Result<
    [u8; 20],
    alloy::signers::local::LocalSignerError,
>)
    ensures
        match hex_bytes(text@, 32) {
            Some(key) => match key_address(key) {
                Some(a) => r is Ok && r->Ok_0@ == a,
                None => r is Err,
            },
            None => r is Err,
        },
{
    PrivateKeySigner::from_str(text).map(|s| s.address().0.0)
}

/// An address as it is shown: with the letters' case for a checksum.
pub uninterp spec fn checksummed(address: Seq<u8>) -> Seq<char>;

/// `Address`'s `to_string`: the address with its checksum. It is `0x` and the
/// hexadecimal digits of the address, so that reading it gives the address
/// back; which letters are upper-case is left to the name.
#[verifier::external_body]
pub(crate) fn address_text(address: &[u8; 20]) -> (t: String)
    ensures
        t@ == checksummed(address@),
        t@.len() == 42,
        t@[0] == '0',
        t@[1] == 'x',
        hex_bytes(t@, 20) == Some(address@),
{
    Address::from(*address).to_string()
}

/// Hexadecimal text reads back: with `0x` before them, the digits of bytes are
/// those bytes again.
pub proof fn law_hex_reads_back(bytes: Seq<u8>)
    ensures
        hex_of(bytes).len() == 2 * bytes.len(),
        hex_bytes("0x"@ + hex_of(bytes), bytes.len()) == Some(bytes),
{
    reveal_strlit("0x");
    let (d, n) = (hex_of(bytes), bytes.len());
    let text = "0x"@ + d;
    assert(hex_digits(text) =~= d);
    assert forall|i: int| 0 <= i < d.len() implies hex_digit(#[trigger] d[i]) == Some(
        (if i % 2 == 0 {
            bytes[i / 2] as int / 16
        } else {
            bytes[i / 2] as int % 16
        }) as nat,
    ) by {}
    let back = bytes_of_digits(d, n);
    assert(back is Some);
    assert forall|i: int| 0 <= i < n implies back->0[i] == bytes[i] by {
        assert(hex_digit(d[2 * i]) == Some((bytes[i] as int / 16) as nat));
        assert(hex_digit(d[2 * i + 1]) == Some((bytes[i] as int % 16) as nat));
    }
    assert(back->0 =~= bytes);
}

} // verus!
