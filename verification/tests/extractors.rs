use blobservices::extractors::{is_protobuf, RequestMessage, ResponseFormat};

#[test]
fn picks_protobuf_when_asked() {
    assert_eq!(ResponseFormat::from_accept(Some("application/protobuf")), ResponseFormat::Protobuf);
    assert_eq!(ResponseFormat::from_accept(Some("application/json")), ResponseFormat::Json);
    assert_eq!(ResponseFormat::from_accept(None), ResponseFormat::Json);
}

#[test]
fn recognises_protobuf_content() {
    assert!(is_protobuf(Some("application/protobuf")));
    assert!(!is_protobuf(Some("application/json")));
    assert!(!is_protobuf(None));
}

#[test]
fn message_unwraps() {
    assert_eq!(RequestMessage(42u32).into_inner(), 42);
}
