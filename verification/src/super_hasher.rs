//! A hasher that computes, in one pass over a blob's contents, its size and
//! every checksum and digest that blobs are known by.

use vstd::prelude::*;
use crate::hashing::{
    blake2sp_absorbed, blake2sp_digest, blake2sp_finalize, blake2sp_new, blake2sp_update,
    crc_checksum, crc_combine, crc_value, md5_absorbed, md5_digest, md5_finalize, md5_new,
    md5_update, sha1_absorbed, sha1_digest, sha1_finalize, sha1_new, sha1_update, sha256_absorbed,
    sha256_digest, sha256_finalize, sha256_new, sha256_update, sha3_256_absorbed, sha3_256_digest,
    sha3_256_finalize, sha3_256_new, sha3_256_update, sha3_512_absorbed, sha3_512_digest,
    sha3_512_finalize, sha3_512_new, sha3_512_update, sha512_absorbed, sha512_digest,
    sha512_finalize, sha512_new, sha512_update, xxh64_absorbed, xxh64_digest, xxh64_hash,
    xxh64_new, xxh64_seed, xxh64_update, CrcKind,
};
use crate::proto::BlobHashes;

verus! {

/// The hashes that a blob with contents `data` is known by; the Dropbox
/// content hash is not computed.
pub open spec fn hashes_of(h: BlobHashes, data: Seq<u8>) -> bool {
    &&& h.crc32 == Some(crc_value(CrcKind::Crc32IsoHdlc, data) as u32)
    &&& h.crc32c == Some(crc_value(CrcKind::Crc32Iscsi, data) as u32)
    &&& h.xxh64 == Some(xxh64_hash(0, data))
    &&& h.md5 matches Some(d) && d@ == md5_digest(data)
    &&& h.sha1 matches Some(d) && d@ == sha1_digest(data)
    &&& h.sha256 matches Some(d) && d@ == sha256_digest(data)
    &&& h.sha256_dropbox is None
    &&& h.sha512 matches Some(d) && d@ == sha512_digest(data)
    &&& h.sha3_256 matches Some(d) && d@ == sha3_256_digest(data)
    &&& h.sha3_512 matches Some(d) && d@ == sha3_512_digest(data)
    &&& h.blake2sp matches Some(d) && d@ == blake2sp_digest(data)
}

/// The bytes of an optional digest.
pub open spec fn opt_bytes_view(d: Option<Vec<u8>>) -> Option<Seq<u8>> {
    match d {
        Some(v) => Some(v@),
        None => None,
    }
}

/// Two sets of hashes agree in every field.
pub open spec fn same_hashes(a: BlobHashes, b: BlobHashes) -> bool {
    &&& a.crc32 == b.crc32
    &&& a.crc32c == b.crc32c
    &&& a.xxh64 == b.xxh64
    &&& opt_bytes_view(a.md5) == opt_bytes_view(b.md5)
    &&& opt_bytes_view(a.sha1) == opt_bytes_view(b.sha1)
    &&& opt_bytes_view(a.sha256) == opt_bytes_view(b.sha256)
    &&& opt_bytes_view(a.sha256_dropbox) == opt_bytes_view(b.sha256_dropbox)
    &&& opt_bytes_view(a.sha512) == opt_bytes_view(b.sha512)
    &&& opt_bytes_view(a.sha3_256) == opt_bytes_view(b.sha3_256)
    &&& opt_bytes_view(a.sha3_512) == opt_bytes_view(b.sha3_512)
    &&& opt_bytes_view(a.blake2sp) == opt_bytes_view(b.blake2sp)
}

/// The size and the hashes depend on the bytes fed alone, not on how they
/// were split into calls of `update`: `update` appends each chunk to what
/// was absorbed, and whatever `finalize` returns for the same absorbed
/// bytes agrees in its size and in every hash.
pub proof fn lemma_hashes_depend_only_on_bytes(
    size1: u64,
    h1: BlobHashes,
    size2: u64,
    h2: BlobHashes,
    data: Seq<u8>,
)
    requires
        size1 == data.len(),
        hashes_of(h1, data),
        size2 == data.len(),
        hashes_of(h2, data),
    ensures
        size1 == size2,
        same_hashes(h1, h2),
{
}

/// Running hashes of everything fed to it so far.
pub struct SuperHasher {
    size: u64,
    crc32: u64,
    crc32c: u64,
    xxh64: xxhash_rust::xxh64::Xxh64,
    md5: md5::Md5,
    sha1: sha1::Sha1,
    sha256: sha2::Sha256,
    sha512: sha2::Sha512,
    sha3_256: sha3::Sha3_256,
    sha3_512: sha3::Sha3_512,
    blake2sp: blake2s_simd::blake2sp::State,
    data: Ghost<Seq<u8>>,
}

impl SuperHasher {
    /// Everything fed to the hasher so far.
    pub closed spec fn absorbed(&self) -> Seq<u8> {
        self.data@
    }

    /// Each running hash agrees with what was fed.
    pub closed spec fn wf(&self) -> bool {
        let d = self.data@;
        &&& self.size == d.len()
        &&& self.crc32 == crc_value(CrcKind::Crc32IsoHdlc, d)
        &&& self.crc32c == crc_value(CrcKind::Crc32Iscsi, d)
        &&& xxh64_seed(self.xxh64) == 0
        &&& xxh64_absorbed(self.xxh64) == d
        &&& md5_absorbed(self.md5) == d
        &&& sha1_absorbed(self.sha1) == d
        &&& sha256_absorbed(self.sha256) == d
        &&& sha512_absorbed(self.sha512) == d
        &&& sha3_256_absorbed(self.sha3_256) == d
        &&& sha3_512_absorbed(self.sha3_512) == d
        &&& blake2sp_absorbed(self.blake2sp) == d
    }

    /// A hasher that has been fed nothing.
    pub fn new() -> (h: SuperHasher)
        ensures
            h.wf(),
            h.absorbed() == Seq::<u8>::empty(),
    {
        let empty: [u8; 0] = [];
        let crc32 = crc_checksum(CrcKind::Crc32IsoHdlc, &empty);
        let crc32c = crc_checksum(CrcKind::Crc32Iscsi, &empty);
        assert(empty@ =~= Seq::<u8>::empty());
        SuperHasher {
            size: 0,
            crc32,
            crc32c,
            xxh64: xxh64_new(0),
            md5: md5_new(),
            sha1: sha1_new(),
            sha256: sha256_new(),
            sha512: sha512_new(),
            sha3_256: sha3_256_new(),
            sha3_512: sha3_512_new(),
            blake2sp: blake2sp_new(),
            data: Ghost(Seq::empty()),
        }
    }

    /// Feeds `data` after what was fed before.
    pub fn update(&mut self, data: &[u8])
        requires
            old(self).wf(),
            old(self).absorbed().len() + data@.len() <= u64::MAX,
        ensures
            final(self).wf(),
            final(self).absorbed() == old(self).absorbed() + data@,
    {
        let ghost before = self.data@;
        let len = data.len() as u64;
        self.size = self.size + len;
        let c = crc_checksum(CrcKind::Crc32IsoHdlc, data);
        let combined = crc_combine(CrcKind::Crc32IsoHdlc, self.crc32, c, len);
        self.crc32 = combined;
        let c = crc_checksum(CrcKind::Crc32Iscsi, data);
        let combined = crc_combine(CrcKind::Crc32Iscsi, self.crc32c, c, len);
        self.crc32c = combined;
        xxh64_update(&mut self.xxh64, data);
        md5_update(&mut self.md5, data);
        sha1_update(&mut self.sha1, data);
        sha256_update(&mut self.sha256, data);
        sha512_update(&mut self.sha512, data);
        sha3_256_update(&mut self.sha3_256, data);
        sha3_512_update(&mut self.sha3_512, data);
        blake2sp_update(&mut self.blake2sp, data);
        self.data = Ghost(before + data@);
    }

    /// The number of bytes fed and the hashes of those bytes.
    pub fn finalize(self) -> (r: (u64, BlobHashes))
        requires
            self.wf(),
        ensures
            r.0 == self.absorbed().len(),
            hashes_of(r.1, self.absorbed()),
    {
        let crc32 = self.crc32 as u32;
        let crc32c = self.crc32c as u32;
        let xxh64 = xxh64_digest(&self.xxh64);
        let blake2sp = blake2sp_finalize(&self.blake2sp);
        let SuperHasher { size, md5, sha1, sha256, sha512, sha3_256, sha3_512, .. } = self;
        (
            size,
            BlobHashes {
                crc32: Some(crc32),
                crc32c: Some(crc32c),
                xxh64: Some(xxh64),
                md5: Some(md5_finalize(md5)),
                sha1: Some(sha1_finalize(sha1)),
                sha256: Some(sha256_finalize(sha256)),
                sha256_dropbox: None,
                sha512: Some(sha512_finalize(sha512)),
                sha3_256: Some(sha3_256_finalize(sha3_256)),
                sha3_512: Some(sha3_512_finalize(sha3_512)),
                blake2sp: Some(blake2sp),
            },
        )
    }
}

} // verus!
