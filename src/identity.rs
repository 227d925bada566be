//! Container identity: names, ids and timestamps.

use vstd::prelude::*;
use vstd::utf8::encode_utf8;

use crate::text::digit_value;

verus! {

#[verifier::external_type_specification]
#[verifier::external_body]
pub struct ExSystemTime(std::time::SystemTime);

/// Relies on std::time::SystemTime::now: the system clock's reading.
#[verifier::external_body]
fn clock_now() -> (r: std::time::SystemTime) {
    std::time::SystemTime::now()
}

/// Relies on std::time::SystemTime::duration_since: the time from the UNIX
/// epoch to `t`, or `None` when `t` is earlier than the epoch.
#[verifier::external_body]
fn since_epoch(t: std::time::SystemTime) -> (r: Option<core::time::Duration>) {
    t.duration_since(std::time::UNIX_EPOCH).ok()
}

/// Relies on core::time::Duration::as_millis: the whole milliseconds of `d`.
#[verifier::external_body]
fn whole_millis(d: core::time::Duration) -> (r: u128) {
    d.as_millis()
}

/// The current time in milliseconds since the UNIX epoch.
pub fn now() -> (r: Result<u128, crate::error::SquishError>)
    ensures
        r is Err ==> r matches Err(crate::error::SquishError::GenericError(_)),
{
    match since_epoch(clock_now()) {
        Some(d) => Ok(whole_millis(d)),
        None => crate::error::err("system clock is set before the UNIX epoch"),
    }
}

/// The SHA-256 digest of a byte string.
pub uninterp spec fn sha256_of(b: Seq<u8>) -> Seq<u8>;

/// Relies on hmac_sha256::Hash::hash: the SHA-256 digest of the input, which
/// is 32 bytes long.
#[verifier::external_body]
fn sha256(b: &[u8]) -> (r: Vec<u8>)
    ensures
        r@ == sha256_of(b@),
        r@.len() == 32,
{
    hmac_sha256::Hash::hash(b).to_vec()
}

/// The lowercase hexadecimal digit of a value below 16.
pub open spec fn hex_digit(n: u8) -> char {
    seq!['0', '1', '2', '3', '4', '5', '6', '7', '8', '9', 'a', 'b', 'c', 'd', 'e', 'f'][n as int]
}

/// Lowercase hexadecimal: two digits for each byte, high nibble first.
pub open spec fn lower_hex(b: Seq<u8>) -> Seq<char>
    decreases b.len(),
{
    if b.len() == 0 {
        Seq::empty()
    } else {
        lower_hex(b.drop_last()) + seq![hex_digit(b.last() / 16), hex_digit(b.last() % 16)]
    }
}

/// Hexadecimal has two digits for each byte.
pub proof fn lemma_lower_hex_len(b: Seq<u8>)
    ensures
        lower_hex(b).len() == 2 * b.len(),
    decreases b.len(),
{
    if b.len() > 0 {
        lemma_lower_hex_len(b.drop_last());
    }
}

/// Relies on hex::encode: two lowercase digits for each byte, high nibble
/// first, from the table `0123456789abcdef`.
#[verifier::external_body]
fn hex_encode(b: &[u8]) -> (r: String)
    ensures
        r@ == lower_hex(b@),
{
    hex::encode(b)
}

/// A generated name: words, then `-` and a four-digit token.
pub open spec fn name_shaped(s: Seq<char>) -> bool {
    &&& s.len() > 5
    &&& s[s.len() - 5] == '-'
    &&& forall|i: int| s.len() - 4 <= i < s.len() ==> (#[trigger] digit_value(s[i])) is Some
}

/// Relies on haikunator::Haikunator::haikunate, with its default settings:
/// an adjective and a noun from its non-empty word lists and a token of four
/// characters from `0123456789`, drawn at random and joined with `-`.
#[verifier::external_body]
pub(crate) fn random_name() -> (r: String)
    ensures
        name_shaped(r@),
{
    haikunator::Haikunator::default().haikunate()
}

/// The id of the container named `name`: the SHA-256 digest of the name's
/// UTF-8 bytes, in lowercase hexadecimal, 64 characters long.
pub fn id_of(name: &str) -> (r: String)
    ensures
        r@ == lower_hex(sha256_of(encode_utf8(name@))),
        r@.len() == 64,
{
    let digest = sha256(name.as_bytes());
    proof {
        lemma_lower_hex_len(digest@);
    }
    hex_encode(digest.as_slice())
}

} // verus!
