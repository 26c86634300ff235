use blobservices::gateway::{bytes_eq, find_read_candidates, try_find_read_candidates, storage_response_ok, writable_stores, Config, ManagerServerConfig, ReadCandidate, StoreServerConfig};
use blobservices::http_content_range::ContentRange;
use blobservices::proto::{BlobHashes, BlobInfo, BlobLocation, BlobOperation, BlobSourceSlice, GetBlobRefResponse, Operation};

fn store(priority: i32, can_read: bool, can_write: bool) -> StoreServerConfig {
    StoreServerConfig { url: "http://store.invalid/".to_string(), priority, can_read, can_write }
}

fn blob(id: u8, size: u64) -> BlobInfo {
    BlobInfo { id: vec![id], size, hashes: BlobHashes::default() }
}

fn location(id: u8, storage: &str) -> BlobLocation {
    BlobLocation { blob_id: vec![id], address: format!("addr-{}", id), storage: storage.to_string() }
}

fn slice(src: u8, dst: u8, src_start: Option<u64>, dst_start: Option<u64>, size: Option<u64>) -> BlobOperation {
    BlobOperation {
        src_blob_id: vec![src],
        dst_blob_id: vec![dst],
        operation: Some(Operation::Slice(BlobSourceSlice { src_start, dst_start, size })),
    }
}

fn config() -> Config {
    Config {
        manager: ManagerServerConfig { url: "http://manager.invalid/".to_string() },
        stores: vec![
            ("a".to_string(), store(5, true, true)),
            ("b".to_string(), store(1, true, false)),
            ("c".to_string(), store(0, false, true)),
        ],
    }
}

#[test]
fn reads_copies_and_slices_by_priority() {
    let info = GetBlobRefResponse {
        blob: blob(1, 4),
        locations: vec![location(1, "a"), location(2, "b"), location(2, "c"), location(1, "zzz")],
        related_blobs: vec![blob(2, 10)],
        operations: vec![slice(2, 1, Some(3), None, None)],
    };
    let candidates = find_read_candidates(&info, &config());
    assert_eq!(
        candidates,
        vec![
            ReadCandidate { location: 1, store: 1, range: Some(ContentRange { start: 3, end: 6, entire_size: 10 }) },
            ReadCandidate { location: 0, store: 0, range: None },
        ]
    );
}

#[test]
fn follows_chains_of_slices() {
    let info = GetBlobRefResponse {
        blob: blob(1, 2),
        locations: vec![location(3, "a")],
        related_blobs: vec![blob(2, 5), blob(3, 20)],
        operations: vec![slice(2, 1, Some(1), None, None), slice(3, 2, Some(10), None, None)],
    };
    let candidates = find_read_candidates(&info, &config());
    assert_eq!(
        candidates,
        vec![ReadCandidate { location: 0, store: 0, range: Some(ContentRange { start: 11, end: 12, entire_size: 20 }) }]
    );
}

#[test]
fn skips_slices_that_do_not_cover_the_blob() {
    let info = GetBlobRefResponse {
        blob: blob(1, 4),
        locations: vec![location(2, "a")],
        related_blobs: vec![blob(2, 10)],
        operations: vec![slice(2, 1, Some(0), Some(1), None), slice(2, 1, Some(0), None, Some(3))],
    };
    assert_eq!(find_read_candidates(&info, &config()), vec![]);
}

#[test]
fn accepts_store_answers() {
    let r = ContentRange { start: 3, end: 6, entire_size: 10 };
    assert!(storage_response_ok(200, None, None));
    assert!(storage_response_ok(206, Some(r), Some("bytes 3-6/10")));
    assert!(!storage_response_ok(200, Some(r), Some("bytes 3-6/10")));
    assert!(!storage_response_ok(206, Some(r), Some("bytes 3-7/10")));
    assert!(!storage_response_ok(206, Some(r), None));
    assert!(!storage_response_ok(404, None, None));
    assert!(!storage_response_ok(304, None, None));
}

#[test]
fn writes_to_writable_stores_by_priority() {
    assert_eq!(writable_stores(&config()), vec![2, 0]);
    let mut c = config();
    c.stores.push(("d".to_string(), store(0, false, true)));
    assert_eq!(writable_stores(&c), vec![2, 3, 0]);
}

#[test]
fn compares_identifiers() {
    assert!(bytes_eq(&[1, 2, 3], &[1, 2, 3]));
    assert!(!bytes_eq(&[1, 2, 3], &[1, 2]));
    assert!(!bytes_eq(&[1, 2, 3], &[1, 2, 4]));
}

#[test]
fn search_stops_where_it_cannot_go_on() {
    let unknown_source = GetBlobRefResponse {
        blob: blob(1, 4),
        locations: vec![location(1, "a")],
        related_blobs: vec![],
        operations: vec![slice(9, 1, Some(0), None, None)],
    };
    assert_eq!(try_find_read_candidates(&unknown_source, &config()), None);
    let beyond_64_bits = GetBlobRefResponse {
        blob: blob(1, 4),
        locations: vec![location(1, "a"), location(2, "a")],
        related_blobs: vec![blob(2, 10)],
        operations: vec![slice(2, 1, Some(u64::MAX), Some(0), Some(8))],
    };
    assert_eq!(try_find_read_candidates(&beyond_64_bits, &config()), None);
    let fine = GetBlobRefResponse {
        blob: blob(1, 4),
        locations: vec![location(1, "a")],
        related_blobs: vec![blob(2, 10)],
        operations: vec![slice(2, 1, Some(3), None, None)],
    };
    assert_eq!(
        try_find_read_candidates(&fine, &config()),
        Some(vec![ReadCandidate { location: 0, store: 0, range: None }])
    );
}

#[test]
fn ties_keep_the_order_found() {
    let mut c = config();
    c.stores.push(("d".to_string(), store(5, true, false)));
    let info = GetBlobRefResponse {
        blob: blob(1, 4),
        locations: vec![location(1, "d"), location(1, "a"), location(2, "a")],
        related_blobs: vec![blob(2, 10)],
        operations: vec![slice(2, 1, Some(0), None, None)],
    };
    assert_eq!(
        find_read_candidates(&info, &c),
        vec![
            ReadCandidate { location: 0, store: 3, range: None },
            ReadCandidate { location: 1, store: 0, range: None },
            ReadCandidate { location: 2, store: 0, range: Some(ContentRange { start: 0, end: 3, entire_size: 10 }) },
        ]
    );
}
