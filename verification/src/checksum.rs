//! CRC-32 over data that arrives in pieces.
use crc32fast::Hasher;
use vstd::prelude::*;

verus! {

/// The running CRC-32 state of `crc32fast`.
#[verifier::external_type_specification]
#[verifier::external_body]
pub struct ExHasher(crc32fast::Hasher);

/// The bytes that a hasher has taken in so far.
pub uninterp spec fn hashed(hasher: Hasher) -> Seq<u8>;

/// The CRC-32 (IEEE) of a byte sequence, as `crc32fast::Hasher::finalize` gives it for a
/// hasher that took in exactly those bytes.
pub uninterp spec fn crc32(bytes: Seq<u8>) -> u32;

/// `crc32fast::Hasher::new` starts with no bytes taken in.
pub assume_specification[ crc32fast::Hasher::new ]() -> (hasher: Hasher)
    ensures
        hashed(hasher) == Seq::<u8>::empty(),
;

/// `crc32fast::Hasher::update` takes in the bytes of `buf` after those it already holds. Its
/// count of bytes is a `u64`.
pub assume_specification[ crc32fast::Hasher::update ](hasher: &mut Hasher, buf: &[u8])
    requires
        hashed(*old(hasher)).len() + buf@.len() <= u64::MAX,
    ensures
        hashed(*final(hasher)) == hashed(*old(hasher)) + buf@,
;

/// `crc32fast::Hasher::finalize` gives the checksum of the bytes taken in; how they were cut
/// into pieces does not matter.
pub assume_specification[ crc32fast::Hasher::finalize ](hasher: Hasher) -> (sum: u32)
    ensures
        sum == crc32(hashed(hasher)),
;

/// `crc32fast::hash` gives the checksum of a byte sequence in one go.
pub assume_specification[ crc32fast::hash ](buf: &[u8]) -> (sum: u32)
    ensures
        sum == crc32(buf@),
;

} // verus!
