//! The outside calls: postcard's integer codec, hex digits and decimal
//! digits. Their contracts are not proved here; each says what it claims.

use vstd::prelude::*;

verus! {

/// The error type of the postcard crate.
#[verifier::external_type_specification]
#[verifier::external_body]
pub struct ExPostcardError(postcard::Error);

/// The postcard encoding of an unsigned integer: seven bits per byte, least
/// significant first, the high bit set on all bytes but the last.
pub open spec fn varint(n: nat) -> Seq<u8>
    decreases n,
{
    if n < 128 {
        seq![n as u8]
    } else {
        seq![(n % 128 + 128) as u8] + varint(n / 128)
    }
}

/// Reads an integer of at most `groups` seven-bit groups off the front of
/// `s`. The last group that there is room for holds no more than `last`.
pub open spec fn take_groups(s: Seq<u8>, groups: nat, last: nat) -> Option<(nat, Seq<u8>)>
    decreases groups,
{
    if groups == 0 || s.len() == 0 {
        None
    } else if s[0] < 128 {
        if groups == 1 && s[0] > last {
            None
        } else {
            Some((s[0] as nat, s.skip(1)))
        }
    } else {
        match take_groups(s.skip(1), (groups - 1) as nat, last) {
            Some((v, rest)) => Some(((s[0] - 128 + 128 * v) as nat, rest)),
            None => None,
        }
    }
}

/// Reads a 64-bit integer off the front of `s`: at most ten groups, the last
/// of one bit.
pub open spec fn take_varint(s: Seq<u8>) -> Option<(nat, Seq<u8>)> {
    take_groups(s, 10, 1)
}

/// Reads a 32-bit integer off the front of `s`: at most five groups, the
/// last of four bits.
pub open spec fn take_varint32(s: Seq<u8>) -> Option<(nat, Seq<u8>)> {
    take_groups(s, 5, 15)
}

/// Calls `postcard::to_stdvec` on a `u64`. Claims that it succeeds and
/// returns the variable-length encoding of the integer.
#[verifier::external_body]
pub(crate) fn postcard_encode_u64(v: u64) -> (r: Result<Vec<u8>, postcard::Error>)
    ensures
        r is Ok,
        r->Ok_0@ == varint(v as nat),
{
    postcard::to_stdvec(&v)
}

/// Calls `postcard::take_from_bytes` for a `u64`. Claims that it reads one
/// variable-length integer and hands back the bytes behind it, and that it
/// fails exactly when the input ends first or the integer does not fit.
#[verifier::external_body]
pub(crate) fn postcard_take_u64<'a>(bytes: &'a [u8]) -> (r: Result<(u64, &'a [u8]), postcard::Error>)
    ensures
        match r {
            Ok((v, rest)) => take_varint(bytes@) == Some((v as nat, rest@)),
            Err(_) => take_varint(bytes@) is None,
        },
{
    postcard::take_from_bytes(bytes)
}

/// Calls `postcard::to_stdvec` on a `u32`. Claims that it succeeds and
/// returns the variable-length encoding of the integer.
#[verifier::external_body]
pub(crate) fn postcard_encode_u32(v: u32) -> (r: Result<Vec<u8>, postcard::Error>)
    ensures
        r is Ok,
        r->Ok_0@ == varint(v as nat),
{
    postcard::to_stdvec(&v)
}

/// Calls `postcard::take_from_bytes` for a `u32`. Claims that it reads one
/// variable-length integer and hands back the bytes behind it, and that it
/// fails exactly when the input ends first or the integer does not fit.
#[verifier::external_body]
pub(crate) fn postcard_take_u32<'a>(bytes: &'a [u8]) -> (r: Result<(u32, &'a [u8]), postcard::Error>)
    ensures
        match r {
            Ok((v, rest)) => take_varint32(bytes@) == Some((v as nat, rest@)),
            Err(_) => take_varint32(bytes@) is None,
        },
{
    postcard::take_from_bytes(bytes)
}

/// The lower-case hexadecimal digit of a number below sixteen.
pub open spec fn hex_digit(n: int) -> char {
    if n < 10 {
        (('0' as int) + n) as char
    } else {
        (('a' as int) + (n - 10)) as char
    }
}

/// Two digits per byte, the high half first.
pub open spec fn hex_string(s: Seq<u8>) -> Seq<char> {
    Seq::new(2 * s.len(), |i: int| hex_digit(if i % 2 == 0 {
        s[i / 2] as int / 16
    } else {
        s[i / 2] as int % 16
    }))
}

/// Calls `hex::encode`. Claims that the result has two lower-case digits for
/// each byte, in order.
#[verifier::external_body]
pub(crate) fn hex_encode(bytes: &[u8]) -> (r: String)
    ensures
        r@ == hex_string(bytes@),
{
    hex::encode(bytes)
}

} // verus!
