//! The messages that the blob manager and the blob stores exchange, as plain
//! values.

use vstd::prelude::*;

verus! {

/// The checksums and digests of a blob's contents; each may be unknown.
#[derive(Clone, Debug, PartialEq, Eq, Default)]
pub struct BlobHashes {
    pub crc32: Option<u32>,
    pub crc32c: Option<u32>,
    pub xxh64: Option<u64>,
    pub md5: Option<Vec<u8>>,
    pub sha1: Option<Vec<u8>>,
    pub sha256: Option<Vec<u8>>,
    pub sha256_dropbox: Option<Vec<u8>>,
    pub sha512: Option<Vec<u8>>,
    pub sha3_256: Option<Vec<u8>>,
    pub sha3_512: Option<Vec<u8>>,
    pub blake2sp: Option<Vec<u8>>,
}

/// What a store answers to an upload: where the blob now lives, its size
/// and its hashes.
#[derive(Clone, Debug, PartialEq, Eq)]
pub struct UploadBlobResponse {
    pub address: String,
    pub size: u64,
    pub hashes: BlobHashes,
}

/// What a store answers to a request for a blob's hashes.
#[derive(Clone, Debug, PartialEq, Eq)]
pub struct GetHashesResponse {
    pub size: u64,
    pub hashes: BlobHashes,
}

/// A blob as the manager knows it: its identifier (the bytes of a UUID),
/// its size and its hashes.
#[derive(Clone, Debug, PartialEq, Eq)]
pub struct BlobInfo {
    pub id: Vec<u8>,
    pub size: u64,
    pub hashes: BlobHashes,
}

/// A copy of a blob held by a store, at an address of that store.
#[derive(Clone, Debug, PartialEq, Eq)]
pub struct BlobLocation {
    pub blob_id: Vec<u8>,
    pub address: String,
    pub storage: String,
}

/// A blob that is a slice of another: the bytes of the source from
/// `src_start` on, placed at `dst_start` of the derived blob, `size` bytes
/// long (unknown fields default to 0, 0 and the derived blob's size).
#[derive(Clone, Debug, PartialEq, Eq)]
pub struct BlobSourceSlice {
    pub src_start: Option<u64>,
    pub dst_start: Option<u64>,
    pub size: Option<u64>,
}

impl BlobSourceSlice {
    /// The start in the source, 0 when unknown.
    pub fn src_start(&self) -> (s: u64)
        ensures
            s == match self.src_start {
                Some(v) => v,
                None => 0,
            },
    {
        match self.src_start {
            Some(v) => v,
            None => 0,
        }
    }

    /// The start in the derived blob, 0 when unknown.
    pub fn dst_start(&self) -> (s: u64)
        ensures
            s == match self.dst_start {
                Some(v) => v,
                None => 0,
            },
    {
        match self.dst_start {
            Some(v) => v,
            None => 0,
        }
    }
}

/// How a blob is obtained from another.
#[derive(Clone, Debug, PartialEq, Eq)]
pub enum Operation {
    Slice(BlobSourceSlice),
}

/// An operation that derives the blob `dst_blob_id` from `src_blob_id`.
#[derive(Clone, Debug, PartialEq, Eq)]
pub struct BlobOperation {
    pub src_blob_id: Vec<u8>,
    pub dst_blob_id: Vec<u8>,
    pub operation: Option<Operation>,
}

/// What the manager answers about a reference: the blob it names, where its
/// copies and those of related blobs live, and how the blobs relate.
#[derive(Clone, Debug, PartialEq, Eq)]
pub struct GetBlobRefResponse {
    pub blob: BlobInfo,
    pub locations: Vec<BlobLocation>,
    pub related_blobs: Vec<BlobInfo>,
    pub operations: Vec<BlobOperation>,
}

} // verus!
