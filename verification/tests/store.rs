use blobservices::http_content_range::ContentRange;
use blobservices::http_range::{bytes_range_specifier, BytesRange};
use blobservices::store::{covers_whole_object, etag_matches, md5_etag, object_address, plan_object_read, LocalStoreProvider, ObjectReadPlan};

#[test]
fn object_address_spreads_by_prefix() {
    assert_eq!(
        object_address("0190f3a1-7b2c-7def-8000-000000000000"),
        "019/0f/0190f3a1-7b2c-7def-8000-000000000000.bin"
    );
}

#[test]
fn local_store_directories() {
    let p = LocalStoreProvider::new("/var/blobs");
    assert_eq!(p.wip_dir, "/var/blobs/wip");
    assert_eq!(p.done_dir, "/var/blobs/done");
    assert_eq!(p.done_path("019/0f/x.bin"), "/var/blobs/done/019/0f/x.bin");
    assert_eq!(p.wip_path("019/0f/x.bin"), "/var/blobs/wip/019/0f/x.bin");
    let q = LocalStoreProvider::new("rel/");
    assert_eq!(q.done_dir, "rel/done");
}

#[test]
fn etag_is_quoted_md5() {
    let md5 = [0xd4u8, 0x1d, 0x8c, 0xd9, 0x8f, 0x00, 0xb2, 0x04, 0xe9, 0x80, 0x09, 0x98, 0xec, 0xf8, 0x42, 0x7e];
    assert_eq!(md5_etag(&md5), "\"d41d8cd98f00b204e9800998ecf8427e\"");
    assert!(etag_matches("\"d41d8cd98f00b204e9800998ecf8427e\"", &md5));
    assert!(!etag_matches("d41d8cd98f00b204e9800998ecf8427e", &md5));
    assert!(!etag_matches("\"D41D8CD98F00B204E9800998ECF8427E\"", &md5));
}

#[test]
fn whole_object_reads() {
    let plan = plan_object_read(10, None).unwrap();
    assert_eq!(plan.start, 0);
    assert_eq!(plan.size, 10);
    assert_eq!(plan.content_range, None);
}

#[test]
fn ranged_reads() {
    let plan = plan_object_read(10, Some(BytesRange::IntRange(2, Some(4)))).unwrap();
    assert_eq!(
        plan,
        ObjectReadPlan {
            start: 2,
            size: 3,
            content_range: Some(ContentRange { start: 2, end: 4, entire_size: 10 }),
        }
    );
    let plan = plan_object_read(10, Some(BytesRange::SuffixRange(4))).unwrap();
    assert_eq!(plan.start, 6);
    assert_eq!(plan.size, 4);
}

#[test]
fn unsatisfiable_reads_report_the_size() {
    assert_eq!(plan_object_read(10, Some(BytesRange::IntRange(10, None))), Err(10));
    assert_eq!(plan_object_read(10, Some(BytesRange::SuffixRange(0))), Err(10));
}

#[test]
fn whole_object_check() {
    assert!(covers_whole_object(None, 10));
    assert!(covers_whole_object(Some(ContentRange { start: 0, end: 9, entire_size: 10 }), 10));
    assert!(!covers_whole_object(Some(ContentRange { start: 1, end: 9, entire_size: 10 }), 10));
    assert!(!covers_whole_object(Some(ContentRange { start: 0, end: 8, entire_size: 10 }), 10));
    assert!(!covers_whole_object(Some(ContentRange { start: 0, end: 9, entire_size: 10 }), 11));
}

#[test]
fn gateway_range_requests_are_answered_exactly() {
    for cr in [
        ContentRange { start: 0, end: 0, entire_size: 1 },
        ContentRange { start: 3, end: 6, entire_size: 10 },
        ContentRange { start: 9, end: 9, entire_size: 10 },
    ] {
        let asked = bytes_range_specifier(&cr.to_range_request());
        let plan = plan_object_read(cr.entire_size, asked).unwrap();
        assert_eq!(plan.start, cr.start);
        assert_eq!(plan.size, cr.end - cr.start + 1);
        assert_eq!(plan.content_range, Some(cr));
    }
}
