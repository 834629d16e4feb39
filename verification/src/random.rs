//! Opaque tokens: team keys, admin secrets, player ids and game keys.
//!
//! A token is the hexadecimal text of ten bytes, drawn from the system's
//! random source and passed through SHAKE128. Nothing checks a new token
//! against those in use: with eighty random bits a clash is not expected.

use vstd::prelude::*;
use crate::error::CoreError;
use sha3::digest::ExtendableOutput;

verus! {

/// The number of bytes behind a token.
pub const TOKEN_BYTES: usize = 10;

/// The number of random bytes that a token is derived from.
pub const SEED_BYTES: usize = 32;

/// The lower-case hexadecimal digit for `n`, where `0 <= n < 16`.
pub open spec fn hex_digit(n: int) -> char {
    if n < 10 {
        (0x30 + n) as char
    } else {
        (0x61 + n - 10) as char
    }
}

/// The lower-case hexadecimal text of `bytes`: two digits for each byte,
/// the high half first.
pub open spec fn hex_text(bytes: Seq<u8>) -> Seq<char> {
    Seq::new(
        2 * bytes.len(),
        |i: int|
            hex_digit(
                if i % 2 == 0 {
                    bytes[i / 2] as int / 16
                } else {
                    bytes[i / 2] as int % 16
                },
            ),
    )
}

/// Whether `c` is one of `0` to `9` or `a` to `f`.
pub open spec fn is_hex_digit(c: char) -> bool {
    ('0' <= c <= '9') || ('a' <= c <= 'f')
}

/// Whether `s` has the form of a token: twenty lower-case hexadecimal digits.
pub open spec fn is_token(s: Seq<char>) -> bool {
    &&& s.len() == 2 * TOKEN_BYTES
    &&& forall|i: int| 0 <= i < s.len() ==> is_hex_digit(#[trigger] s[i])
}

/// The error of `getrandom`, carried through as it is.
#[verifier::external_type_specification]
#[verifier::external_body]
pub struct ExEntropyError(getrandom::Error);

/// The first `len` bytes that SHAKE128 puts out for `input`.
pub uninterp spec fn shake128(input: Seq<u8>, len: nat) -> Seq<u8>;

/// Calls `getrandom::fill`, which overwrites the buffer with random bytes
/// or fails. The contract claims nothing of the bytes, only that the
/// buffer keeps its length.
#[verifier::external_body]
fn fill_random(buffer: &mut Vec<u8>) -> (r: Result<(), getrandom::Error>)
    ensures
        final(buffer)@.len() == old(buffer)@.len(),
{
    getrandom::fill(buffer.as_mut_slice())
}

/// Calls `digest_xof` of `sha3::Shake128`, which absorbs `input` and fills
/// a buffer of `len` bytes with the output. The contract gives that output
/// a name and says that it has the length asked for.
#[verifier::external_body]
fn shake128_digest(input: &[u8], len: usize) -> (out: Vec<u8>)
    ensures
        out@ == shake128(input@, len as nat),
        out@.len() == len,
{
    let mut out = vec![0u8; len];
    sha3::Shake128::digest_xof(input, &mut out);
    out
}

/// Calls `hex::encode`, which writes each byte as two lower-case
/// hexadecimal digits, the high half first.
#[verifier::external_body]
fn hex_encode(bytes: &[u8]) -> (text: String)
    ensures
        text@ == hex_text(bytes@),
{
    hex::encode(bytes)
}

/// The hexadecimal text of ten bytes has the form of a token.
pub proof fn lemma_hex_text_is_token(bytes: Seq<u8>)
    requires
        bytes.len() == TOKEN_BYTES,
    ensures
        is_token(hex_text(bytes)),
{
    assert forall|i: int| 0 <= i < hex_text(bytes).len() implies is_hex_digit(
        #[trigger] hex_text(bytes)[i],
    ) by {
        let b = bytes[i / 2] as int;
        let n = if i % 2 == 0 {
            b / 16
        } else {
            b % 16
        };
        assert(0 <= n < 16);
        assert(hex_text(bytes)[i] == hex_digit(n));
    }
}

/// The text of a digest: two lower-case hexadecimal digits for each byte.
pub fn token_text(digest: &[u8]) -> (token: String)
    ensures
        token@ == hex_text(digest@),
        digest@.len() == TOKEN_BYTES ==> is_token(token@),
{
    proof {
        if digest@.len() == TOKEN_BYTES {
            lemma_hex_text_is_token(digest@);
        }
    }
    hex_encode(digest)
}

/// The token that belongs to `seed`.
pub fn token_from_seed(seed: &[u8]) -> (token: String)
    ensures
        token@ == hex_text(shake128(seed@, TOKEN_BYTES as nat)),
        is_token(token@),
{
    let digest = shake128_digest(seed, TOKEN_BYTES);
    token_text(digest.as_slice())
}

/// The token for what the random source gave: the token that belongs to
/// the seed, or a failure when there is no seed.
pub fn token_for(seed: Option<Vec<u8>>) -> (r: Result<String, CoreError>)
    ensures
        match seed {
            Some(bytes) => r matches Ok(token) && token@ == hex_text(
                shake128(bytes@, TOKEN_BYTES as nat),
            ) && is_token(token@),
            None => r matches Err(e) && e == CoreError::EntropyUnavailable,
        },
{
    match seed {
        Some(bytes) => Ok(token_from_seed(bytes.as_slice())),
        None => Err(CoreError::EntropyUnavailable),
    }
}

/// A fresh token. Fails when the random source cannot supply bytes; no
/// weaker source is tried.
pub fn hex_string() -> (r: Result<String, CoreError>)
    ensures
        match r {
            Ok(token) => is_token(token@),
            Err(e) => e == CoreError::EntropyUnavailable,
        },
{
    let mut seed: Vec<u8> = Vec::new();
    while seed.len() < SEED_BYTES
        invariant
            seed@.len() <= SEED_BYTES,
        decreases SEED_BYTES - seed@.len(),
    {
        seed.push(0);
    }
    match fill_random(&mut seed) {
        Ok(_) => token_for(Some(seed)),
        Err(_) => token_for(None),
    }
}

} // verus!
