//! The hash functions that a blob's contents are summarised with, as the
//! outside crates compute them. Each streaming hasher is described by the
//! bytes it has absorbed; each digest is named as a function of those bytes.

use vstd::prelude::*;

verus! {

#[verifier::external_type_specification]
#[verifier::external_body]
pub struct ExMd5(md5::Md5);

/// The bytes that a MD5 hasher has absorbed since it was created.
pub uninterp spec fn md5_absorbed(h: md5::Md5) -> Seq<u8>;

/// The MD5 digest of `data`.
pub uninterp spec fn md5_digest(data: Seq<u8>) -> Seq<u8>;

/// `Digest::new` of `md5::Md5`: a hasher that has absorbed nothing.
#[verifier::external_body]
pub(crate) fn md5_new() -> (h: md5::Md5)
    ensures
        md5_absorbed(h) == Seq::<u8>::empty(),
{
    <md5::Md5 as digest::Digest>::new()
}

/// `Digest::update` of `md5::Md5`: absorbs `data` after what was absorbed.
#[verifier::external_body]
pub(crate) fn md5_update(h: &mut md5::Md5, data: &[u8])
    ensures
        md5_absorbed(*final(h)) == md5_absorbed(*old(h)) + data@,
{
    <md5::Md5 as digest::Digest>::update(h, data)
}

/// `Digest::finalize` of `md5::Md5`: the 16-byte MD5 digest of what was
/// absorbed.
#[verifier::external_body]
pub(crate) fn md5_finalize(h: md5::Md5) -> (d: Vec<u8>)
    ensures
        d@ == md5_digest(md5_absorbed(h)),
        d@.len() == 16,
{
    <md5::Md5 as digest::Digest>::finalize(h).to_vec()
}

#[verifier::external_type_specification]
#[verifier::external_body]
pub struct ExSha1(sha1::Sha1);

/// The bytes that a SHA-1 hasher has absorbed since it was created.
pub uninterp spec fn sha1_absorbed(h: sha1::Sha1) -> Seq<u8>;

/// The SHA-1 digest of `data`.
pub uninterp spec fn sha1_digest(data: Seq<u8>) -> Seq<u8>;

/// `Digest::new` of `sha1::Sha1`: a hasher that has absorbed nothing.
#[verifier::external_body]
pub(crate) fn sha1_new() -> (h: sha1::Sha1)
    ensures
        sha1_absorbed(h) == Seq::<u8>::empty(),
{
    <sha1::Sha1 as digest::Digest>::new()
}

/// `Digest::update` of `sha1::Sha1`: absorbs `data` after what was absorbed.
#[verifier::external_body]
pub(crate) fn sha1_update(h: &mut sha1::Sha1, data: &[u8])
    ensures
        sha1_absorbed(*final(h)) == sha1_absorbed(*old(h)) + data@,
{
    <sha1::Sha1 as digest::Digest>::update(h, data)
}

/// `Digest::finalize` of `sha1::Sha1`: the 20-byte SHA-1 digest of what was
/// absorbed.
#[verifier::external_body]
pub(crate) fn sha1_finalize(h: sha1::Sha1) -> (d: Vec<u8>)
    ensures
        d@ == sha1_digest(sha1_absorbed(h)),
        d@.len() == 20,
{
    <sha1::Sha1 as digest::Digest>::finalize(h).to_vec()
}

#[verifier::external_type_specification]
#[verifier::external_body]
pub struct ExSha256(sha2::Sha256);

/// The bytes that a SHA-256 hasher has absorbed since it was created.
pub uninterp spec fn sha256_absorbed(h: sha2::Sha256) -> Seq<u8>;

/// The SHA-256 digest of `data`.
pub uninterp spec fn sha256_digest(data: Seq<u8>) -> Seq<u8>;

/// `Digest::new` of `sha2::Sha256`: a hasher that has absorbed nothing.
#[verifier::external_body]
pub(crate) fn sha256_new() -> (h: sha2::Sha256)
    ensures
        sha256_absorbed(h) == Seq::<u8>::empty(),
{
    <sha2::Sha256 as digest::Digest>::new()
}

/// `Digest::update` of `sha2::Sha256`: absorbs `data` after what was absorbed.
#[verifier::external_body]
pub(crate) fn sha256_update(h: &mut sha2::Sha256, data: &[u8])
    ensures
        sha256_absorbed(*final(h)) == sha256_absorbed(*old(h)) + data@,
{
    <sha2::Sha256 as digest::Digest>::update(h, data)
}

/// `Digest::finalize` of `sha2::Sha256`: the 32-byte SHA-256 digest of what was
/// absorbed.
#[verifier::external_body]
pub(crate) fn sha256_finalize(h: sha2::Sha256) -> (d: Vec<u8>)
    ensures
        d@ == sha256_digest(sha256_absorbed(h)),
        d@.len() == 32,
{
    <sha2::Sha256 as digest::Digest>::finalize(h).to_vec()
}

#[verifier::external_type_specification]
#[verifier::external_body]
pub struct ExSha512(sha2::Sha512);

/// The bytes that a SHA-512 hasher has absorbed since it was created.
pub uninterp spec fn sha512_absorbed(h: sha2::Sha512) -> Seq<u8>;

/// The SHA-512 digest of `data`.
pub uninterp spec fn sha512_digest(data: Seq<u8>) -> Seq<u8>;

/// `Digest::new` of `sha2::Sha512`: a hasher that has absorbed nothing.
#[verifier::external_body]
pub(crate) fn sha512_new() -> (h: sha2::Sha512)
    ensures
        sha512_absorbed(h) == Seq::<u8>::empty(),
{
    <sha2::Sha512 as digest::Digest>::new()
}

/// `Digest::update` of `sha2::Sha512`: absorbs `data` after what was absorbed.
#[verifier::external_body]
pub(crate) fn sha512_update(h: &mut sha2::Sha512, data: &[u8])
    ensures
        sha512_absorbed(*final(h)) == sha512_absorbed(*old(h)) + data@,
{
    <sha2::Sha512 as digest::Digest>::update(h, data)
}

/// `Digest::finalize` of `sha2::Sha512`: the 64-byte SHA-512 digest of what was
/// absorbed.
#[verifier::external_body]
pub(crate) fn sha512_finalize(h: sha2::Sha512) -> (d: Vec<u8>)
    ensures
        d@ == sha512_digest(sha512_absorbed(h)),
        d@.len() == 64,
{
    <sha2::Sha512 as digest::Digest>::finalize(h).to_vec()
}

#[verifier::external_type_specification]
#[verifier::external_body]
pub struct ExSha3256(sha3::Sha3_256);

/// The bytes that a SHA3-256 hasher has absorbed since it was created.
pub uninterp spec fn sha3_256_absorbed(h: sha3::Sha3_256) -> Seq<u8>;

/// The SHA3-256 digest of `data`.
pub uninterp spec fn sha3_256_digest(data: Seq<u8>) -> Seq<u8>;

/// `Digest::new` of `sha3::Sha3_256`: a hasher that has absorbed nothing.
#[verifier::external_body]
pub(crate) fn sha3_256_new() -> (h: sha3::Sha3_256)
    ensures
        sha3_256_absorbed(h) == Seq::<u8>::empty(),
{
    <sha3::Sha3_256 as digest::Digest>::new()
}

/// `Digest::update` of `sha3::Sha3_256`: absorbs `data` after what was absorbed.
#[verifier::external_body]
pub(crate) fn sha3_256_update(h: &mut sha3::Sha3_256, data: &[u8])
    ensures
        sha3_256_absorbed(*final(h)) == sha3_256_absorbed(*old(h)) + data@,
{
    <sha3::Sha3_256 as digest::Digest>::update(h, data)
}

/// `Digest::finalize` of `sha3::Sha3_256`: the 32-byte SHA3-256 digest of what was
/// absorbed.
#[verifier::external_body]
pub(crate) fn sha3_256_finalize(h: sha3::Sha3_256) -> (d: Vec<u8>)
    ensures
        d@ == sha3_256_digest(sha3_256_absorbed(h)),
        d@.len() == 32,
{
    <sha3::Sha3_256 as digest::Digest>::finalize(h).to_vec()
}

#[verifier::external_type_specification]
#[verifier::external_body]
pub struct ExSha3512(sha3::Sha3_512);

/// The bytes that a SHA3-512 hasher has absorbed since it was created.
pub uninterp spec fn sha3_512_absorbed(h: sha3::Sha3_512) -> Seq<u8>;

/// The SHA3-512 digest of `data`.
pub uninterp spec fn sha3_512_digest(data: Seq<u8>) -> Seq<u8>;

/// `Digest::new` of `sha3::Sha3_512`: a hasher that has absorbed nothing.
#[verifier::external_body]
pub(crate) fn sha3_512_new() -> (h: sha3::Sha3_512)
    ensures
        sha3_512_absorbed(h) == Seq::<u8>::empty(),
{
    <sha3::Sha3_512 as digest::Digest>::new()
}

/// `Digest::update` of `sha3::Sha3_512`: absorbs `data` after what was absorbed.
#[verifier::external_body]
pub(crate) fn sha3_512_update(h: &mut sha3::Sha3_512, data: &[u8])
    ensures
        sha3_512_absorbed(*final(h)) == sha3_512_absorbed(*old(h)) + data@,
{
    <sha3::Sha3_512 as digest::Digest>::update(h, data)
}

/// `Digest::finalize` of `sha3::Sha3_512`: the 64-byte SHA3-512 digest of what was
/// absorbed.
#[verifier::external_body]
pub(crate) fn sha3_512_finalize(h: sha3::Sha3_512) -> (d: Vec<u8>)
    ensures
        d@ == sha3_512_digest(sha3_512_absorbed(h)),
        d@.len() == 64,
{
    <sha3::Sha3_512 as digest::Digest>::finalize(h).to_vec()
}

#[verifier::external_type_specification]
#[verifier::external_body]
pub struct ExXxh64(xxhash_rust::xxh64::Xxh64);

/// The bytes that an XXH64 hasher has absorbed since it was created.
pub uninterp spec fn xxh64_absorbed(h: xxhash_rust::xxh64::Xxh64) -> Seq<u8>;

/// The seed that an XXH64 hasher was created with.
pub uninterp spec fn xxh64_seed(h: xxhash_rust::xxh64::Xxh64) -> u64;

/// The XXH64 hash of `data` with `seed`.
pub uninterp spec fn xxh64_hash(seed: u64, data: Seq<u8>) -> u64;

/// `Xxh64::new`: a hasher with `seed` that has absorbed nothing.
#[verifier::external_body]
pub(crate) fn xxh64_new(seed: u64) -> (h: xxhash_rust::xxh64::Xxh64)
    ensures
        xxh64_absorbed(h) == Seq::<u8>::empty(),
        xxh64_seed(h) == seed,
{
    xxhash_rust::xxh64::Xxh64::new(seed)
}

/// `Xxh64::update`: absorbs `data` after what was absorbed.
#[verifier::external_body]
pub(crate) fn xxh64_update(h: &mut xxhash_rust::xxh64::Xxh64, data: &[u8])
    ensures
        xxh64_absorbed(*final(h)) == xxh64_absorbed(*old(h)) + data@,
        xxh64_seed(*final(h)) == xxh64_seed(*old(h)),
{
    h.update(data)
}

/// `Xxh64::digest`: the hash of what was absorbed, with the hasher's seed.
#[verifier::external_body]
pub(crate) fn xxh64_digest(h: &xxhash_rust::xxh64::Xxh64) -> (d: u64)
    ensures
        d == xxh64_hash(xxh64_seed(*h), xxh64_absorbed(*h)),
{
    h.digest()
}

#[verifier::external_type_specification]
#[verifier::external_body]
pub struct ExBlake2sp(blake2s_simd::blake2sp::State);

/// The bytes that a BLAKE2sp hasher has absorbed since it was created.
pub uninterp spec fn blake2sp_absorbed(h: blake2s_simd::blake2sp::State) -> Seq<u8>;

/// The BLAKE2sp digest (default parameters) of `data`.
pub uninterp spec fn blake2sp_digest(data: Seq<u8>) -> Seq<u8>;

/// `blake2sp::State::new`: a hasher with default parameters that has absorbed
/// nothing.
#[verifier::external_body]
pub(crate) fn blake2sp_new() -> (h: blake2s_simd::blake2sp::State)
    ensures
        blake2sp_absorbed(h) == Seq::<u8>::empty(),
{
    blake2s_simd::blake2sp::State::new()
}

/// `blake2sp::State::update`: absorbs `data` after what was absorbed.
#[verifier::external_body]
pub(crate) fn blake2sp_update(h: &mut blake2s_simd::blake2sp::State, data: &[u8])
    ensures
        blake2sp_absorbed(*final(h)) == blake2sp_absorbed(*old(h)) + data@,
{
    h.update(data);
}

/// `blake2sp::State::finalize`: the 32-byte digest of what was absorbed.
#[verifier::external_body]
pub(crate) fn blake2sp_finalize(h: &blake2s_simd::blake2sp::State) -> (d: Vec<u8>)
    ensures
        d@ == blake2sp_digest(blake2sp_absorbed(*h)),
        d@.len() == 32,
{
    h.finalize().as_bytes().to_vec()
}

/// The two CRC-32 variants that blobs are checked with.
#[derive(Clone, Copy, Debug, PartialEq, Eq)]
pub enum CrcKind {
    /// CRC-32/ISO-HDLC, the common "CRC-32".
    Crc32IsoHdlc,
    /// CRC-32/ISCSI, also known as CRC-32C.
    Crc32Iscsi,
}

/// The CRC of `data` of the given kind.
pub uninterp spec fn crc_value(kind: CrcKind, data: Seq<u8>) -> u64;

/// What `checksum_combine` returns for these arguments.
pub uninterp spec fn crc_combined(kind: CrcKind, crc1: u64, crc2: u64, len2: u64) -> u64;

/// `crc_fast::checksum`: the CRC of `data`.
#[verifier::external_body]
pub(crate) fn crc_checksum(kind: CrcKind, data: &[u8]) -> (c: u64)
    ensures
        c == crc_value(kind, data@),
{
    let algorithm = match kind {
        CrcKind::Crc32IsoHdlc => crc_fast::CrcAlgorithm::Crc32IsoHdlc,
        CrcKind::Crc32Iscsi => crc_fast::CrcAlgorithm::Crc32Iscsi,
    };
    crc_fast::checksum(algorithm, data)
}

/// `crc_fast::checksum_combine`: from the CRC of `a` and that of `b`, with the
/// length of `b`, the CRC of `a` followed by `b`.
#[verifier::external_body]
pub(crate) fn crc_combine(kind: CrcKind, crc1: u64, crc2: u64, len2: u64) -> (c: u64)
    ensures
        c == crc_combined(kind, crc1, crc2, len2),
        forall|a: Seq<u8>, b: Seq<u8>|
            crc1 == crc_value(kind, a) && crc2 == crc_value(kind, b) && len2 == b.len() ==> c
                == crc_value(kind, a + b),
{
    let algorithm = match kind {
        CrcKind::Crc32IsoHdlc => crc_fast::CrcAlgorithm::Crc32IsoHdlc,
        CrcKind::Crc32Iscsi => crc_fast::CrcAlgorithm::Crc32Iscsi,
    };
    crc_fast::checksum_combine(algorithm, crc1, crc2, len2)
}

/// The HMAC-SHA-256 of `data` under `key`.
pub uninterp spec fn hmac_sha256(key: Seq<u8>, data: Seq<u8>) -> Seq<u8>;

/// `Hmac<Sha256>`: `KeyInit::new_from_slice` with `key` (HMAC takes keys of
/// any length, so this never fails), `Mac::update` with `data`, then
/// `Mac::finalize`; together, the 32-byte HMAC-SHA-256 of `data` under `key`.
#[verifier::external_body]
pub(crate) fn hmac_sha256_mac(key: &[u8], data: &[u8]) -> (d: Vec<u8>)
    ensures
        d@ == hmac_sha256(key@, data@),
        d@.len() == 32,
{
    let mut h = <hmac::Hmac<sha2::Sha256> as hmac::KeyInit>::new_from_slice(key).expect(
        "HMAC takes keys of any length",
    );
    hmac::Mac::update(&mut h, data);
    hmac::Mac::finalize(h).into_bytes().to_vec()
}

} // verus!
