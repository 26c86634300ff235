//! What the blob manager decides: how blobs are stored in and read from its
//! tables, which recipes for new blobs it accepts, and how it collects the
//! blobs that a blob can be read from.

use vstd::prelude::*;
use crate::proto::{BlobHashes, BlobInfo, BlobOperation, BlobSourceSlice, Operation};
use crate::transform_proto::Transform;
use crate::transformers::{AesCbc, TransformCreationError, TransformerBase, make_transformer_from_proto, spec_aes_cbc_new, spec_aes_cbc_reversed};

verus! {

/// A row of the `blobs` table: sizes and checksums in the database's signed
/// integer types.
#[derive(Clone, Debug, PartialEq, Eq)]
pub struct BlobRow {
    pub id: Vec<u8>,
    pub size: i64,
    pub cs_crc32: Option<i32>,
    pub cs_crc32c: Option<i32>,
    pub cs_xxh64: Option<i64>,
    pub cs_md5: Option<Vec<u8>>,
    pub cs_sha1: Option<Vec<u8>>,
    pub cs_sha256: Option<Vec<u8>>,
    pub cs_sha256_dropbox: Option<Vec<u8>>,
    pub cs_sha512: Option<Vec<u8>>,
    pub cs_sha3_256: Option<Vec<u8>>,
    pub cs_sha3_512: Option<Vec<u8>>,
    pub cs_blake2sp: Option<Vec<u8>>,
}

pub open spec fn opt_u32_of_i32(v: Option<i32>) -> Option<u32> {
    match v {
        Some(h) => Some(h as u32),
        None => None,
    }
}

pub open spec fn opt_i32_of_u32(v: Option<u32>) -> Option<i32> {
    match v {
        Some(h) => Some(h as i32),
        None => None,
    }
}

pub open spec fn opt_u64_of_i64(v: Option<i64>) -> Option<u64> {
    match v {
        Some(h) => Some(h as u64),
        None => None,
    }
}

pub open spec fn opt_i64_of_u64(v: Option<u64>) -> Option<i64> {
    match v {
        Some(h) => Some(h as i64),
        None => None,
    }
}

/// The blob that a row describes; the signed columns are read back as the
/// unsigned values whose bits they hold.
pub open spec fn spec_blob_info_from_row(row: BlobRow) -> BlobInfo {
    BlobInfo {
        id: row.id,
        size: row.size as u64,
        hashes: BlobHashes {
            crc32: opt_u32_of_i32(row.cs_crc32),
            crc32c: opt_u32_of_i32(row.cs_crc32c),
            xxh64: opt_u64_of_i64(row.cs_xxh64),
            md5: row.cs_md5,
            sha1: row.cs_sha1,
            sha256: row.cs_sha256,
            sha256_dropbox: row.cs_sha256_dropbox,
            sha512: row.cs_sha512,
            sha3_256: row.cs_sha3_256,
            sha3_512: row.cs_sha3_512,
            blake2sp: row.cs_blake2sp,
        },
    }
}

/// The blob that a row of the `blobs` table describes.
pub fn blob_info_from_row(row: BlobRow) -> (b: BlobInfo)
    ensures
        b == spec_blob_info_from_row(row),
{
    BlobInfo {
        id: row.id,
        size: row.size as u64,
        hashes: BlobHashes {
            crc32: match row.cs_crc32 {
                Some(h) => Some(h as u32),
                None => None,
            },
            crc32c: match row.cs_crc32c {
                Some(h) => Some(h as u32),
                None => None,
            },
            xxh64: match row.cs_xxh64 {
                Some(h) => Some(h as u64),
                None => None,
            },
            md5: row.cs_md5,
            sha1: row.cs_sha1,
            sha256: row.cs_sha256,
            sha256_dropbox: row.cs_sha256_dropbox,
            sha512: row.cs_sha512,
            sha3_256: row.cs_sha3_256,
            sha3_512: row.cs_sha3_512,
            blake2sp: row.cs_blake2sp,
        },
    }
}

/// The columns of a new row of the `blobs` table (its identifier is chosen
/// by the database).
#[derive(Clone, Debug, PartialEq, Eq)]
pub struct NewBlobRow {
    pub size: i64,
    pub cs_crc32: Option<i32>,
    pub cs_crc32c: Option<i32>,
    pub cs_xxh64: Option<i64>,
    pub cs_md5: Option<Vec<u8>>,
    pub cs_sha1: Option<Vec<u8>>,
    pub cs_sha256: Option<Vec<u8>>,
    pub cs_sha256_dropbox: Option<Vec<u8>>,
    pub cs_sha512: Option<Vec<u8>>,
    pub cs_sha3_256: Option<Vec<u8>>,
    pub cs_sha3_512: Option<Vec<u8>>,
    pub cs_blake2sp: Option<Vec<u8>>,
}

/// The row that stores a blob of `size` bytes with `hashes`; none when the
/// size does not fit the signed size column.
pub open spec fn spec_new_blob_row(size: u64, hashes: BlobHashes) -> Option<NewBlobRow> {
    if size > i64::MAX {
        None
    } else {
        Some(
            NewBlobRow {
                size: size as i64,
                cs_crc32: opt_i32_of_u32(hashes.crc32),
                cs_crc32c: opt_i32_of_u32(hashes.crc32c),
                cs_xxh64: opt_i64_of_u64(hashes.xxh64),
                cs_md5: hashes.md5,
                cs_sha1: hashes.sha1,
                cs_sha256: hashes.sha256,
                cs_sha256_dropbox: hashes.sha256_dropbox,
                cs_sha512: hashes.sha512,
                cs_sha3_256: hashes.sha3_256,
                cs_sha3_512: hashes.sha3_512,
                cs_blake2sp: hashes.blake2sp,
            },
        )
    }
}

/// The row that stores a new blob; none (a bad request) when its size does
/// not fit the signed size column.
pub fn new_blob_row(size: u64, hashes: BlobHashes) -> (r: Option<NewBlobRow>)
    ensures
        r == spec_new_blob_row(size, hashes),
{
    if size > i64::MAX as u64 {
        return None;
    }
    Some(
        NewBlobRow {
            size: size as i64,
            cs_crc32: match hashes.crc32 {
                Some(h) => Some(h as i32),
                None => None,
            },
            cs_crc32c: match hashes.crc32c {
                Some(h) => Some(h as i32),
                None => None,
            },
            cs_xxh64: match hashes.xxh64 {
                Some(h) => Some(h as i64),
                None => None,
            },
            cs_md5: hashes.md5,
            cs_sha1: hashes.sha1,
            cs_sha256: hashes.sha256,
            cs_sha256_dropbox: hashes.sha256_dropbox,
            cs_sha512: hashes.sha512,
            cs_sha3_256: hashes.sha3_256,
            cs_sha3_512: hashes.sha3_512,
            cs_blake2sp: hashes.blake2sp,
        },
    )
}

/// The row as the database keeps it, once it has an identifier.
pub open spec fn stored_row(id: Vec<u8>, r: NewBlobRow) -> BlobRow {
    BlobRow {
        id,
        size: r.size,
        cs_crc32: r.cs_crc32,
        cs_crc32c: r.cs_crc32c,
        cs_xxh64: r.cs_xxh64,
        cs_md5: r.cs_md5,
        cs_sha1: r.cs_sha1,
        cs_sha256: r.cs_sha256,
        cs_sha256_dropbox: r.cs_sha256_dropbox,
        cs_sha512: r.cs_sha512,
        cs_sha3_256: r.cs_sha3_256,
        cs_sha3_512: r.cs_sha3_512,
        cs_blake2sp: r.cs_blake2sp,
    }
}

/// What is stored of a blob is read back unchanged: the size and every hash
/// survive the trip through the signed columns.
pub proof fn lemma_blob_row_round_trip(id: Vec<u8>, size: u64, hashes: BlobHashes)
    requires
        size <= i64::MAX,
    ensures
        spec_new_blob_row(size, hashes) is Some,
        spec_blob_info_from_row(stored_row(id, spec_new_blob_row(size, hashes)->0)) == (BlobInfo {
            id,
            size,
            hashes,
        }),
{
    if let Some(h) = hashes.crc32 {
        assert((h as i32) as u32 == h) by (bit_vector);
    }
    if let Some(h) = hashes.crc32c {
        assert((h as i32) as u32 == h) by (bit_vector);
    }
    if let Some(h) = hashes.xxh64 {
        assert((h as i64) as u64 == h) by (bit_vector);
    }
    assert((size as i64) as u64 == size);
}

/// Each column of a row is read into the field of the same name, and each
/// field of a new blob is written into the column of the same name: the
/// checksums keep their bits, the size and the digests are copied as they
/// are.
pub proof fn lemma_blob_columns_match_fields(row: BlobRow, size: u64, hashes: BlobHashes)
    ensures
        ({
            let b = spec_blob_info_from_row(row);
            &&& b.id == row.id
            &&& b.size == row.size as u64
            &&& (b.hashes.crc32 is Some <==> row.cs_crc32 is Some)
            &&& (row.cs_crc32 matches Some(v) ==> b.hashes.crc32 == Some(v as u32))
            &&& (b.hashes.crc32c is Some <==> row.cs_crc32c is Some)
            &&& (row.cs_crc32c matches Some(v) ==> b.hashes.crc32c == Some(v as u32))
            &&& (b.hashes.xxh64 is Some <==> row.cs_xxh64 is Some)
            &&& (row.cs_xxh64 matches Some(v) ==> b.hashes.xxh64 == Some(v as u64))
            &&& b.hashes.md5 == row.cs_md5
            &&& b.hashes.sha1 == row.cs_sha1
            &&& b.hashes.sha256 == row.cs_sha256
            &&& b.hashes.sha256_dropbox == row.cs_sha256_dropbox
            &&& b.hashes.sha512 == row.cs_sha512
            &&& b.hashes.sha3_256 == row.cs_sha3_256
            &&& b.hashes.sha3_512 == row.cs_sha3_512
            &&& b.hashes.blake2sp == row.cs_blake2sp
        }),
        size <= i64::MAX ==> (spec_new_blob_row(size, hashes) matches Some(r) && r.size == size as i64
            && r.cs_md5 == hashes.md5 && r.cs_sha1 == hashes.sha1 && r.cs_sha256 == hashes.sha256
            && r.cs_sha256_dropbox == hashes.sha256_dropbox && r.cs_sha512 == hashes.sha512
            && r.cs_sha3_256 == hashes.sha3_256 && r.cs_sha3_512 == hashes.sha3_512 && r.cs_blake2sp
            == hashes.blake2sp && (r.cs_crc32 is Some <==> hashes.crc32 is Some) && (r.cs_crc32c is Some
            <==> hashes.crc32c is Some) && (r.cs_xxh64 is Some <==> hashes.xxh64 is Some) && (
            hashes.crc32 matches Some(v) ==> r.cs_crc32 == Some(v as i32)) && (hashes.crc32c matches Some(v)
            ==> r.cs_crc32c == Some(v as i32)) && (hashes.xxh64 matches Some(v) ==> r.cs_xxh64 == Some(
            v as i64,
        ))),
        size > i64::MAX ==> spec_new_blob_row(size, hashes) is None,
{
}

/// Why a slice recipe is refused.
#[derive(Clone, Copy, Debug, PartialEq, Eq)]
pub enum SliceRecipeError {
    /// The slice's end does not fit in 64 bits.
    TooBig,
    /// The slice ends beyond its source.
    Overrun,
}

/// Whether `size` bytes from `start` lie within a source of `parent_size`
/// bytes.
pub fn check_slice_recipe(start: u64, size: u64, parent_size: u64) -> (r: Result<(), SliceRecipeError>)
    ensures
        r == if start + size > u64::MAX {
            Err::<(), SliceRecipeError>(SliceRecipeError::TooBig)
        } else if start + size > parent_size {
            Err(SliceRecipeError::Overrun)
        } else {
            Ok(())
        },
{
    match start.checked_add(size) {
        None => Err(SliceRecipeError::TooBig),
        Some(end) => if end > parent_size {
            Err(SliceRecipeError::Overrun)
        } else {
            Ok(())
        },
    }
}

/// Whether an existing blob that a recipe resolves to has the size the
/// recipe names.
pub fn stored_size_matches(stored: i64, size: u64) -> (b: bool)
    ensures
        b == (stored == size as i64),
{
    stored == size as i64
}

/// Why a reference to another reference is refused.
#[derive(Clone, Copy, Debug, PartialEq, Eq)]
pub enum OtherRefError {
    /// The expected blob identifier is not the 16 bytes of a UUID.
    InvalidExpectedBlobId,
    /// The reference names another blob than the one expected.
    BlobIdMismatch,
}

/// Checks the blob that another reference currently names against the one
/// the recipe expects, if any.
pub fn check_expected_blob_id(expected: Option<&[u8]>, actual: &[u8]) -> (r: Result<(), OtherRefError>)
    ensures
        r == match expected {
            None => Ok(()),
            Some(e) => if e@.len() != 16 {
                Err(OtherRefError::InvalidExpectedBlobId)
            } else if e@ != actual@ {
                Err(OtherRefError::BlobIdMismatch)
            } else {
                Ok(())
            },
        },
{
    match expected {
        None => Ok(()),
        Some(e) => {
            if e.len() != 16 {
                return Err(OtherRefError::InvalidExpectedBlobId);
            }
            if !crate::gateway::bytes_eq(e, actual) {
                return Err(OtherRefError::BlobIdMismatch);
            }
            Ok(())
        },
    }
}

/// Why a transform recipe is refused, with the HTTP status it is answered
/// with.
#[derive(Clone, Copy, Debug, PartialEq, Eq)]
pub enum TransformRecipeError {
    /// Shared parameters are not supported yet (501).
    SharedNotImplemented,
    /// No transform is given (400).
    MissingTransform,
    /// The transform is not supported (501).
    NotImplemented,
    /// The parameters do not fit the sizes (400).
    Invalid,
}

/// Checks a transform recipe from a source of `src_size` bytes to a blob of
/// `dst_size` bytes; on success, whether the transform can be run backwards.
pub fn check_transform_recipe(
    has_shared: bool,
    transform: Option<&Transform>,
    src_size: u64,
    dst_size: u64,
) -> (r: Result<bool, TransformRecipeError>)
    ensures
        r == if has_shared {
            Err::<bool, TransformRecipeError>(TransformRecipeError::SharedNotImplemented)
        } else {
            match transform {
                None => Err(TransformRecipeError::MissingTransform),
                Some(Transform::DecDeflate(_)) => Err(TransformRecipeError::NotImplemented),
                Some(Transform::DecAesCbc(p)) => match spec_aes_cbc_new(*p, src_size, dst_size) {
                    Ok(m) => Ok(spec_aes_cbc_reversed(m) is None),
                    Err(_) => Err(TransformRecipeError::Invalid),
                },
            }
        },
{
    if has_shared {
        return Err(TransformRecipeError::SharedNotImplemented);
    }
    let transform = match transform {
        Some(t) => t,
        None => return Err(TransformRecipeError::MissingTransform),
    };
    match make_transformer_from_proto(transform, src_size, dst_size) {
        Ok(base) => Ok(base.reversed().is_ok()),
        Err(TransformCreationError::NotImplemented) => {
            proof {
                if let Transform::DecAesCbc(p) = transform {
                    lemma_aes_cbc_new_never_not_implemented(*p, src_size, dst_size);
                }
            }
            Err(TransformRecipeError::NotImplemented)
        },
        Err(_) => Err(TransformRecipeError::Invalid),
    }
}

/// Setting up AES-CBC fails only for a wrong parameter or size.
proof fn lemma_aes_cbc_new_never_not_implemented(p: crate::transform_proto::TransformAesCbcParameters, src: u64, dst: u64)
    ensures
        spec_aes_cbc_new(p, src, dst) != Err::<crate::transformers::AesCbcModel, TransformCreationError>(TransformCreationError::NotImplemented),
{
}

/// A row of the `blob_slices` table: the blob `dst_blob_id` is the bytes of
/// `src_blob_id` from `start` on.
#[derive(Clone, Debug, PartialEq, Eq)]
pub struct SliceRow {
    pub src_blob_id: Vec<u8>,
    pub dst_blob_id: Vec<u8>,
    pub start: i64,
}

/// Collects, round by round, the blobs that a blob is a slice of (directly
/// or through other slices), and the operations that relate them.
pub struct BlobSourceFinder {
    pub main_blob_id: Vec<u8>,
    pub known_blobs: Vec<Vec<u8>>,
    pub operations: Vec<BlobOperation>,
    pub after_first_resolve: bool,
}

/// The identifiers in a list of identifiers.
pub open spec fn id_set(ids: Seq<Vec<u8>>) -> Set<Seq<u8>> {
    Set::new(|id: Seq<u8>| exists|i: int| 0 <= i < ids.len() && (#[trigger] ids[i])@ == id)
}

/// No identifier is listed twice.
pub open spec fn distinct_ids(ids: Seq<Vec<u8>>) -> bool {
    forall|i: int, j: int| 0 <= i < j < ids.len() ==> (#[trigger] ids[i])@ != (#[trigger] ids[j])@
}

/// The operation that a slice row stands for.
pub open spec fn slice_operation_matches(op: BlobOperation, row: SliceRow) -> bool {
    &&& op.src_blob_id@ == row.src_blob_id@
    &&& op.dst_blob_id@ == row.dst_blob_id@
    &&& op.operation == Some(
        Operation::Slice(
            BlobSourceSlice { src_start: Some(#[verifier::truncate] (row.start as u64)), dst_start: None, size: None },
        ),
    )
}

/// Whether `ids` lists `id`.
fn lists_id(ids: &Vec<Vec<u8>>, id: &Vec<u8>) -> (b: bool)
    ensures
        b == id_set(ids@).contains(id@),
{
    let mut i: usize = 0;
    while i < ids.len()
        invariant
            i <= ids@.len(),
            forall|k: int| 0 <= k < i ==> (#[trigger] ids@[k])@ != id@,
        decreases ids@.len() - i,
    {
        if crate::gateway::bytes_eq(ids[i].as_slice(), id.as_slice()) {
            return true;
        }
        i = i + 1;
    }
    false
}

impl BlobSourceFinder {
    /// The finder for the blob `main_blob_id`, which knows only that blob.
    pub fn new(main_blob_id: &[u8]) -> (f: BlobSourceFinder)
        ensures
            f.main_blob_id@ == main_blob_id@,
            id_set(f.known_blobs@) == set![main_blob_id@],
            distinct_ids(f.known_blobs@),
            f.operations@.len() == 0,
            !f.after_first_resolve,
    {
        let mut known_blobs: Vec<Vec<u8>> = Vec::new();
        known_blobs.push(vstd::slice::slice_to_vec(main_blob_id));
        assert(id_set(known_blobs@) =~= set![main_blob_id@]) by {
            assert(known_blobs@[0]@ == main_blob_id@);
        }
        BlobSourceFinder {
            main_blob_id: vstd::slice::slice_to_vec(main_blob_id),
            known_blobs,
            operations: Vec::new(),
            after_first_resolve: false,
        }
    }

    /// Takes in one round's answer: the slices whose derived blob is known
    /// and whose source is not. Each becomes an operation; their sources
    /// become known. Returns whether any was found (and so whether to ask
    /// again).
    pub fn absorb_slices(&mut self, rows: Vec<SliceRow>) -> (more: bool)
        requires
            distinct_ids(old(self).known_blobs@),
        ensures
            more == (rows@.len() > 0),
            distinct_ids(final(self).known_blobs@),
            final(self).main_blob_id == old(self).main_blob_id,
            final(self).operations@.len() == old(self).operations@.len() + rows@.len(),
            forall|i: int| 0 <= i < old(self).operations@.len() ==> final(self).operations@[i] == old(self).operations@[i],
            forall|k: int| 0 <= k < rows@.len() ==> slice_operation_matches(
                #[trigger] final(self).operations@[old(self).operations@.len() + k],
                rows@[k],
            ),
            more ==> id_set(final(self).known_blobs@) == id_set(old(self).known_blobs@).union(
                Set::new(|id: Seq<u8>| exists|k: int| 0 <= k < rows@.len() && (#[trigger] rows@[k]).src_blob_id@ == id),
            ),
            more ==> final(self).after_first_resolve,
            !more ==> id_set(final(self).known_blobs@) == id_set(old(self).known_blobs@),
            !more ==> final(self).after_first_resolve == old(self).after_first_resolve,
    {
        let ghost known_before = self.known_blobs@;
        let ghost ops_before = self.operations@;
        let ghost main_before = self.main_blob_id;
        let ghost resolved_before = self.after_first_resolve;
        let mut k: usize = 0;
        while k < rows.len()
            invariant
                k <= rows@.len(),
                self.main_blob_id == main_before,
                self.after_first_resolve == resolved_before,
                distinct_ids(self.known_blobs@),
                self.operations@.len() == ops_before.len() + k,
                forall|i: int| 0 <= i < ops_before.len() ==> self.operations@[i] == ops_before[i],
                forall|q: int| 0 <= q < k ==> slice_operation_matches(
                    #[trigger] self.operations@[ops_before.len() + q],
                    rows@[q],
                ),
                id_set(self.known_blobs@) == id_set(known_before).union(
                    Set::new(|id: Seq<u8>| exists|q: int| 0 <= q < k && (#[trigger] rows@[q]).src_blob_id@ == id),
                ),
            decreases rows@.len() - k,
        {
            let row = &rows[k];
            let ghost known_mid = self.known_blobs@;
            if !lists_id(&self.known_blobs, &row.src_blob_id) {
                self.known_blobs.push(vstd::slice::slice_to_vec(row.src_blob_id.as_slice()));
                proof {
                    assert forall|i: int, j: int| 0 <= i < j < self.known_blobs@.len() implies (#[trigger] self.known_blobs@[i])@ != (#[trigger] self.known_blobs@[j])@ by {
                        if j == self.known_blobs@.len() - 1 {
                            assert(self.known_blobs@[i] == known_mid[i]);
                        } else {
                            assert(self.known_blobs@[i] == known_mid[i] && self.known_blobs@[j] == known_mid[j]);
                        }
                    }
                }
            }
            self.operations.push(
                BlobOperation {
                    src_blob_id: vstd::slice::slice_to_vec(row.src_blob_id.as_slice()),
                    dst_blob_id: vstd::slice::slice_to_vec(row.dst_blob_id.as_slice()),
                    operation: Some(
                        Operation::Slice(
                            BlobSourceSlice {
                                src_start: Some(#[verifier::truncate] (row.start as u64)),
                                dst_start: None,
                                size: None,
                            },
                        ),
                    ),
                },
            );
            proof {
                let new_set = Set::new(|id: Seq<u8>| exists|q: int| 0 <= q < k + 1 && (#[trigger] rows@[q]).src_blob_id@ == id);
                let old_set = Set::new(|id: Seq<u8>| exists|q: int| 0 <= q < k && (#[trigger] rows@[q]).src_blob_id@ == id);
                assert(id_set(known_mid) == id_set(known_before).union(old_set));
                assert forall|id: Seq<u8>| id_set(self.known_blobs@).contains(id) implies id_set(known_before).union(new_set).contains(id) by {
                    let i = choose|i: int| 0 <= i < self.known_blobs@.len() && (#[trigger] self.known_blobs@[i])@ == id;
                    if i < known_mid.len() {
                        assert(self.known_blobs@[i] == known_mid[i]);
                        assert(id_set(known_mid).contains(id));
                        if old_set.contains(id) {
                            let q = choose|q: int| 0 <= q < k && (#[trigger] rows@[q]).src_blob_id@ == id;
                            assert(new_set.contains(id));
                        }
                    } else {
                        assert(rows@[k as int].src_blob_id@ == id);
                        assert(new_set.contains(id));
                    }
                }
                assert forall|id: Seq<u8>| id_set(known_before).union(new_set).contains(id) implies id_set(self.known_blobs@).contains(id) by {
                    if id_set(known_before).contains(id) {
                        assert(id_set(known_mid).contains(id));
                        let i = choose|i: int| 0 <= i < known_mid.len() && (#[trigger] known_mid[i])@ == id;
                        assert(self.known_blobs@[i] == known_mid[i]);
                    } else {
                        let q = choose|q: int| 0 <= q < k + 1 && (#[trigger] rows@[q]).src_blob_id@ == id;
                        if q < k {
                            assert(old_set.contains(id));
                            assert(id_set(known_mid).contains(id));
                            let i = choose|i: int| 0 <= i < known_mid.len() && (#[trigger] known_mid[i])@ == id;
                            assert(self.known_blobs@[i] == known_mid[i]);
                        } else if id_set(known_mid).contains(id) {
                            let i = choose|i: int| 0 <= i < known_mid.len() && (#[trigger] known_mid[i])@ == id;
                            assert(self.known_blobs@[i] == known_mid[i]);
                        } else {
                            assert(self.known_blobs@[self.known_blobs@.len() - 1]@ == id);
                        }
                    }
                }
                assert(id_set(self.known_blobs@) =~= id_set(known_before).union(new_set));
            }
            k = k + 1;
        }
        if rows.len() == 0 {
            assert(id_set(self.known_blobs@) =~= id_set(known_before));
            return false;
        }
        self.after_first_resolve = true;
        true
    }
}

/// The parameters of a transform merged with shared ones: each shared entry
/// whose key is not yet present is added after the others, in order.
pub open spec fn merge_into<V>(out: Seq<(String, V)>, shared: Seq<(String, V)>) -> Seq<(String, V)>
    decreases shared.len(),
{
    if shared.len() == 0 {
        out
    } else if exists|i: int| 0 <= i < out.len() && (#[trigger] out[i]).0@ == shared[0].0@ {
        merge_into(out, shared.drop_first())
    } else {
        merge_into(out.push(shared[0]), shared.drop_first())
    }
}

/// Merges shared transform parameters into those of a recipe; none (a bad
/// request) when they belong to different kinds of transform.
pub fn merge_parameters<V>(
    shared_tag: i32,
    shared: Vec<(String, V)>,
    current_tag: i32,
    current: Vec<(String, V)>,
) -> (r: Option<Vec<(String, V)>>)
    ensures
        shared_tag != current_tag ==> r is None,
        shared_tag == current_tag ==> (r matches Some(v) && v@ == merge_into(current@, shared@)),
{
    if shared_tag != current_tag {
        return None;
    }
    let mut out = current;
    let mut rest = shared;
    let ghost target = merge_into(out@, rest@);
    while rest.len() > 0
        invariant
            merge_into(out@, rest@) == target,
        decreases rest@.len(),
    {
        let ghost rest_before = rest@;
        let (k, v) = rest.remove(0);
        assert(rest@ =~= rest_before.drop_first());
        let mut present = false;
        let mut i: usize = 0;
        while i < out.len()
            invariant
                i <= out@.len(),
                present == exists|q: int| 0 <= q < i && (#[trigger] out@[q]).0@ == k@,
            decreases out@.len() - i,
        {
            if out[i].0 == k {
                present = true;
            }
            i = i + 1;
        }
        if !present {
            out.push((k, v));
        }
    }
    Some(out)
}

} // verus!
