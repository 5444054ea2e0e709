//! Block hashes and the text forms of hashes.

use sha2::{Digest, Sha256};
use vstd::prelude::*;
use vstd::slice::slice_subrange;

use crate::bytes::Hash32;
use crate::error::{ErrorView, IngressError};

verus! {

/// The size of a Zcash block header: 140 bytes of fields and a length-prefixed
/// Equihash solution of 1344 bytes.
pub const ZCASH_FULL_HEADER_SIZE: usize = 1487;

/// The lower-case hexadecimal character of a number below 16.
pub open spec fn hex_digit(d: int) -> char {
    if d < 10 {
        ('0' as u32 + d) as char
    } else {
        ('a' as u32 + (d - 10)) as char
    }
}

/// The lower-case hexadecimal text of `data`, two characters for each byte.
pub open spec fn hex_text(data: Seq<u8>) -> Seq<char> {
    Seq::new(
        2 * data.len(),
        |i: int|
            if i % 2 == 0 {
                hex_digit(data[i / 2] as int / 16)
            } else {
                hex_digit(data[i / 2] as int % 16)
            },
    )
}

/// Calls `hex::encode`: the lower-case hexadecimal text of `data`, high half of
/// each byte first.
#[verifier::external_body]
pub(crate) fn hex_encode(data: &[u8]) -> (text: String)
    ensures
        text@ == hex_text(data@),
{
    hex::encode(data)
}

/// The SHA-256 digest of `data`.
pub uninterp spec fn sha256_digest(data: Seq<u8>) -> Seq<u8>;

/// Calls `sha2::Sha256::digest`: the SHA-256 digest of `data`, as a function of
/// its bytes.
#[verifier::external_body]
pub(crate) fn sha256(data: &[u8]) -> (digest: Hash32)
    ensures
        digest@ == sha256_digest(data@),
{
    Sha256::digest(data).into()
}

/// The hash of a block: SHA-256 twice over its full header.
pub open spec fn block_hash(payload: Seq<u8>) -> Seq<u8> {
    sha256_digest(sha256_digest(payload.take(ZCASH_FULL_HEADER_SIZE as int)))
}

/// The text form of a hash: its bytes in reverse order, in hexadecimal.
pub open spec fn display_hash(hash: Seq<u8>) -> Seq<char> {
    hex_text(hash.reverse())
}

/// The error of a block whose header is incomplete.
pub open spec fn short_header() -> ErrorView {
    ErrorView::Wire("block payload is shorter than its header"@)
}

/// SHA-256 applied twice.
pub fn sha256d(data: &[u8]) -> (digest: Hash32)
    ensures
        digest@ == sha256_digest(sha256_digest(data@)),
{
    let once: Hash32 = sha256(data);
    sha256(&once)
}

/// The hash of the block that starts `payload`, in the byte order of inventories.
pub fn raw_hash_from_header(payload: &[u8]) -> (result: Result<Hash32, IngressError>)
    ensures
        match result {
            Ok(hash) => payload@.len() >= ZCASH_FULL_HEADER_SIZE && hash@ == block_hash(payload@),
            Err(error) => payload@.len() < ZCASH_FULL_HEADER_SIZE && error@ == short_header(),
        },
{
    if payload.len() < ZCASH_FULL_HEADER_SIZE {
        return Err(IngressError::Wire("block payload is shorter than its header".to_owned()));
    }
    let header: &[u8] = slice_subrange(payload, 0, ZCASH_FULL_HEADER_SIZE);
    assert(header@ =~= payload@.take(ZCASH_FULL_HEADER_SIZE as int));
    Ok(sha256d(header))
}

/// The text form of a hash as block explorers and nodes print it.
pub fn inventory_hash_to_display(hash: &Hash32) -> (text: String)
    ensures
        text@ == display_hash(hash@),
{
    let mut reversed: Vec<u8> = Vec::new();
    let mut i: usize = 32;
    while i > 0
        invariant
            i <= 32,
            reversed@.len() == 32 - i,
            forall|j: int| 0 <= j < reversed@.len() ==> reversed@[j] == hash@[31 - j],
        decreases i,
    {
        i = i - 1;
        reversed.push(hash[i]);
    }
    assert(reversed@ =~= hash@.reverse());
    hex_encode(reversed.as_slice())
}

/// The text form of the hash of the block that starts `payload`.
pub fn display_hash_from_header(payload: &[u8]) -> (result: Result<String, IngressError>)
    ensures
        match result {
            Ok(text) => payload@.len() >= ZCASH_FULL_HEADER_SIZE && text@ == display_hash(
                block_hash(payload@),
            ),
            Err(error) => payload@.len() < ZCASH_FULL_HEADER_SIZE && error@ == short_header(),
        },
{
    match raw_hash_from_header(payload) {
        Ok(hash) => Ok(inventory_hash_to_display(&hash)),
        Err(error) => Err(error),
    }
}

/// The hash of a block is that of its first 1487 bytes, hashed twice with SHA-256: nothing
/// behind the header has a say.
pub proof fn law_header_alone_is_hashed(payload: Seq<u8>, other: Seq<u8>)
    requires
        payload.len() >= 1487,
        other.len() >= 1487,
    ensures
        block_hash(payload) == sha256_digest(sha256_digest(payload.subrange(0, 1487))),
        payload.subrange(0, 1487) == other.subrange(0, 1487) ==> block_hash(payload) == block_hash(
            other,
        ),
{
    assert(payload.subrange(0, 1487) =~= payload.take(1487));
    assert(other.subrange(0, 1487) =~= other.take(1487));
}

/// The text of a hash starts with its last byte: two lower-case hexadecimal digits for each
/// byte, from the last to the first.
pub proof fn law_display_starts_with_the_last_byte(hash: Seq<u8>, i: int)
    requires
        0 <= i < hash.len(),
    ensures
        ({
            let text = display_hash(hash);
            let b = hash[hash.len() - 1 - i] as int;
            let (high, low) = (b / 16, b % 16);
            &&& text.len() == 2 * hash.len()
            &&& text[2 * i] as int == if high < 10 {
                48 + high
            } else {
                87 + high
            }
            &&& text[2 * i + 1] as int == if low < 10 {
                48 + low
            } else {
                87 + low
            }
        }),
{
}

/// The hexadecimal text of bytes has two lower-case digits for each, the high half first.
pub proof fn law_hex_digits(data: Seq<u8>, i: int)
    requires
        0 <= i < data.len(),
    ensures
        ({
            let text = hex_text(data);
            let (high, low) = (data[i] as int / 16, data[i] as int % 16);
            &&& text.len() == 2 * data.len()
            &&& text[2 * i] as int == if high < 10 {
                48 + high
            } else {
                87 + high
            }
            &&& text[2 * i + 1] as int == if low < 10 {
                48 + low
            } else {
                87 + low
            }
        }),
{
}

} // verus!
