//! The engine's view of the outside world: the system clock, the operating
//! system's random source, the SHA-256 hash function, and the growing of a
//! standard string.
//!
//! These are the only items of the library whose contracts are taken on
//! trust. Every decision taken on their results is made by verified code
//! elsewhere, which receives the results as plain values.

use sha2::Digest;
use vstd::prelude::*;
use vstd::string::*;


verus! {

/// A point in time as the standard library reports it.
#[verifier::external_type_specification]
#[verifier::external_body]
pub struct ExSystemTime(std::time::SystemTime);

/// The standard library's error for a clock that reads before the epoch.
#[verifier::external_type_specification]
#[verifier::external_body]
pub struct ExSystemTimeError(std::time::SystemTimeError);

/// The error type of the `getrandom` crate.
#[verifier::external_type_specification]
#[verifier::external_body]
pub struct ExRandomError(getrandom::Error);

/// The SHA-256 digest of a byte string, as `sha2::Sha256` computes it.
pub uninterp spec fn sha256(data: Seq<u8>) -> Seq<u8>;

/// Reads the system clock.
///
/// Trusted: the body is `std::time::SystemTime::now`. Nothing is claimed of
/// the value, which differs from call to call.
#[verifier::external_body]
fn system_time_now() -> std::time::SystemTime {
    std::time::SystemTime::now()
}

/// The time elapsed between the Unix epoch and `at`.
///
/// Trusted: the body is `std::time::SystemTime::duration_since` with
/// `std::time::UNIX_EPOCH`, which fails when `at` lies before the epoch.
/// Nothing is claimed of the value.
#[verifier::external_body]
fn since_unix_epoch(at: &std::time::SystemTime) -> Result<
    std::time::Duration,
    std::time::SystemTimeError,
> {
    at.duration_since(std::time::UNIX_EPOCH)
}

/// The whole seconds of a span of time.
///
/// Trusted: the body is `std::time::Duration::as_secs`. Nothing is claimed of
/// the value.
#[verifier::external_body]
fn whole_seconds(span: &std::time::Duration) -> u64 {
    span.as_secs()
}

/// Fills a 32-byte buffer from the operating system's random source.
///
/// Trusted: the body is `getrandom::getrandom` on a 32-byte buffer. On
/// success the buffer holds random bytes, of which nothing is claimed; on
/// failure the crate's error is returned.
#[verifier::external_body]
fn os_random_32() -> Result<[u8; 32], getrandom::Error> {
    let mut buffer = [0u8; 32];
    match getrandom::getrandom(&mut buffer) {
        Ok(()) => Ok(buffer),
        Err(e) => Err(e),
    }
}

/// Hashes 32 bytes with SHA-256.
///
/// Trusted: the body is `sha2::Sha256::digest`, which returns the 32-byte
/// SHA-256 digest of its input; the result is a function of the input alone
/// and is named [`sha256`].
#[verifier::external_body]
pub(crate) fn sha256_of_32(data: &[u8; 32]) -> (digest: [u8; 32])
    ensures
        digest@ == sha256(data@),
{
    sha2::Sha256::digest(data).into()
}

/// Appends one character to a string.
///
/// Trusted: the body is `String::push` of the standard library, which
/// appends the given `char` to the end of the string.
#[verifier::external_body]
pub(crate) fn push_char(text: &mut String, c: char)
    ensures
        final(text)@ == old(text)@.push(c),
{
    text.push(c);
}

/// The current time in whole seconds since the Unix epoch, or `None` when
/// the clock reads a time before the epoch. Two calls may return different
/// values.
pub fn unix_seconds() -> Option<u64> {
    let at = system_time_now();
    match since_unix_epoch(&at) {
        Ok(span) => Some(whole_seconds(&span)),
        Err(_) => None,
    }
}

/// Thirty-two bytes from the operating system's random source, or `None`
/// when the source fails. Two calls return unrelated values.
pub fn random_bytes_32() -> Option<[u8; 32]> {
    match os_random_32() {
        Ok(buffer) => Some(buffer),
        Err(_) => None,
    }
}

/// Whether `preimage` hashes to `payment_hash` under SHA-256.
pub fn preimage_matches(preimage: &[u8; 32], payment_hash: &[u8; 32]) -> (matches: bool)
    ensures
        matches == (sha256(preimage@) == payment_hash@),
{
    let digest = sha256_of_32(preimage);
    crate::text::bytes_equal(&digest, payment_hash)
}

} // verus!
