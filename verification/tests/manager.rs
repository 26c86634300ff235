use blobservices::manager::{
    blob_info_from_row, check_expected_blob_id, check_slice_recipe, check_transform_recipe,
    merge_parameters, new_blob_row, stored_size_matches, BlobRow, BlobSourceFinder, NewBlobRow,
    OtherRefError, SliceRecipeError, SliceRow, TransformRecipeError,
};
use blobservices::proto::{BlobHashes, BlobInfo, BlobSourceSlice, Operation};
use blobservices::transform_proto::{AesCbcPadding, Padding, Transform, TransformAesCbcParameters, TransformDeflateParameters};

fn stored(id: Vec<u8>, r: NewBlobRow) -> BlobRow {
    BlobRow {
        id,
        size: r.size,
        cs_crc32: r.cs_crc32,
        cs_crc32c: r.cs_crc32c,
        cs_xxh64: r.cs_xxh64,
        cs_md5: r.cs_md5,
        cs_sha1: r.cs_sha1,
        cs_sha256: r.cs_sha256,
        cs_sha256_dropbox: r.cs_sha256_dropbox,
        cs_sha512: r.cs_sha512,
        cs_sha3_256: r.cs_sha3_256,
        cs_sha3_512: r.cs_sha3_512,
        cs_blake2sp: r.cs_blake2sp,
    }
}

#[test]
fn rows_keep_the_bits_of_large_checksums() {
    let hashes = BlobHashes {
        crc32: Some(0xffff_fffe),
        crc32c: Some(0x8000_0000),
        xxh64: Some(u64::MAX),
        md5: Some(vec![1; 16]),
        sha256: Some(vec![2; 32]),
        ..BlobHashes::default()
    };
    let row = new_blob_row(1234, hashes.clone()).unwrap();
    assert_eq!(row.size, 1234);
    assert_eq!(row.cs_crc32, Some(-2));
    assert_eq!(row.cs_crc32c, Some(i32::MIN));
    assert_eq!(row.cs_xxh64, Some(-1));
    let id = vec![9u8; 16];
    assert_eq!(
        blob_info_from_row(stored(id.clone(), row)),
        BlobInfo { id, size: 1234, hashes }
    );
}

#[test]
fn refuses_sizes_beyond_the_column() {
    assert_eq!(new_blob_row(i64::MAX as u64 + 1, BlobHashes::default()), None);
    assert!(new_blob_row(i64::MAX as u64, BlobHashes::default()).is_some());
}

#[test]
fn slice_recipes_stay_within_their_source() {
    assert_eq!(check_slice_recipe(0, 10, 10), Ok(()));
    assert_eq!(check_slice_recipe(5, 5, 10), Ok(()));
    assert_eq!(check_slice_recipe(5, 6, 10), Err(SliceRecipeError::Overrun));
    assert_eq!(check_slice_recipe(u64::MAX, 1, u64::MAX), Err(SliceRecipeError::TooBig));
}

#[test]
fn stored_sizes_compare_as_signed() {
    assert!(stored_size_matches(10, 10));
    assert!(!stored_size_matches(10, 11));
    assert!(stored_size_matches(-1, u64::MAX));
}

#[test]
fn expected_blob_ids() {
    let id = [7u8; 16];
    assert_eq!(check_expected_blob_id(None, &id), Ok(()));
    assert_eq!(check_expected_blob_id(Some(&id), &id), Ok(()));
    assert_eq!(check_expected_blob_id(Some(&[7u8; 15]), &id), Err(OtherRefError::InvalidExpectedBlobId));
    assert_eq!(check_expected_blob_id(Some(&[8u8; 16]), &id), Err(OtherRefError::BlobIdMismatch));
}

fn aes(iv: Option<Vec<u8>>, padding: Padding) -> Transform {
    Transform::DecAesCbc(TransformAesCbcParameters {
        key: Some(vec![0; 16]),
        iv,
        iv_prepended: Some(true),
        padding: Some(AesCbcPadding { padding: Some(padding) }),
    })
}

#[test]
fn transform_recipes() {
    let with_iv = aes(Some(vec![0; 16]), Padding::Pkcs7);
    let without_iv = aes(None, Padding::Pkcs7);
    assert_eq!(check_transform_recipe(true, Some(&with_iv), 48, 20), Err(TransformRecipeError::SharedNotImplemented));
    assert_eq!(check_transform_recipe(false, None, 48, 20), Err(TransformRecipeError::MissingTransform));
    assert_eq!(
        check_transform_recipe(false, Some(&Transform::DecDeflate(TransformDeflateParameters {})), 48, 20),
        Err(TransformRecipeError::NotImplemented)
    );
    assert_eq!(check_transform_recipe(false, Some(&with_iv), 48, 40), Err(TransformRecipeError::Invalid));
    assert_eq!(check_transform_recipe(false, Some(&with_iv), 48, 20), Ok(true));
    assert_eq!(check_transform_recipe(false, Some(&without_iv), 48, 20), Ok(false));
}

#[test]
fn finder_collects_sources_round_by_round() {
    let main = vec![1u8];
    let mut f = BlobSourceFinder::new(&main);
    assert_eq!(f.known_blobs, vec![vec![1u8]]);
    assert!(!f.after_first_resolve);
    let more = f.absorb_slices(vec![
        SliceRow { src_blob_id: vec![2], dst_blob_id: vec![1], start: 4 },
        SliceRow { src_blob_id: vec![3], dst_blob_id: vec![1], start: 0 },
    ]);
    assert!(more);
    assert!(f.after_first_resolve);
    assert_eq!(f.known_blobs, vec![vec![1u8], vec![2u8], vec![3u8]]);
    assert_eq!(f.operations.len(), 2);
    assert_eq!(f.operations[0].src_blob_id, vec![2u8]);
    assert_eq!(f.operations[0].dst_blob_id, vec![1u8]);
    assert_eq!(
        f.operations[0].operation,
        Some(Operation::Slice(BlobSourceSlice { src_start: Some(4), dst_start: None, size: None }))
    );
    let more = f.absorb_slices(vec![SliceRow { src_blob_id: vec![2], dst_blob_id: vec![3], start: 1 }]);
    assert!(more);
    assert_eq!(f.known_blobs.len(), 3);
    assert_eq!(f.operations.len(), 3);
    assert!(!f.absorb_slices(vec![]));
    assert_eq!(f.main_blob_id, main);
}

#[test]
fn shared_parameters_fill_in_missing_keys() {
    let shared = vec![("key".to_string(), 1), ("iv".to_string(), 2)];
    let current = vec![("iv".to_string(), 3), ("padding".to_string(), 4)];
    assert_eq!(
        merge_parameters(7, shared.clone(), 7, current.clone()),
        Some(vec![("iv".to_string(), 3), ("padding".to_string(), 4), ("key".to_string(), 1)])
    );
    assert_eq!(merge_parameters(7, shared, 8, current), None);
}
