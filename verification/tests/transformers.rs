use blobservices::transform_proto::{AesCbcPadding, Padding, Transform, TransformAesCbcParameters, TransformDeflateParameters};
use blobservices::transformers::{make_transformer_from_proto, AesCbc, TransformCreationError, TransformerBase};

fn params(key_len: usize, iv: Option<usize>, prepended: Option<bool>, padding: Option<Padding>) -> TransformAesCbcParameters {
    TransformAesCbcParameters {
        key: Some(vec![7u8; key_len]),
        iv: iv.map(|n| vec![1u8; n]),
        iv_prepended: prepended,
        padding: padding.map(|p| AesCbcPadding { padding: Some(p) }),
    }
}

fn err(p: &TransformAesCbcParameters, src: u64, dst: u64) -> Option<TransformCreationError> {
    AesCbc::new(p, src, dst).err()
}

fn wrong_parameter(key: &'static str, reason: &'static str) -> Option<TransformCreationError> {
    Some(TransformCreationError::WrongParameter { key, reason })
}

fn wrong_size(reason: &'static str) -> Option<TransformCreationError> {
    Some(TransformCreationError::WrongSize { reason })
}

#[test]
fn accepts_each_key_length() {
    for n in [16, 24, 32] {
        assert!(AesCbc::new(&params(n, Some(16), None, Some(Padding::Pkcs7)), 32, 20).is_ok());
    }
}

#[test]
fn refuses_wrong_keys() {
    assert_eq!(
        err(&params(15, Some(16), None, Some(Padding::Pkcs7)), 32, 20),
        wrong_parameter("key", "length should be 16 or 24 or 32")
    );
    let mut p = params(16, Some(16), None, Some(Padding::Pkcs7));
    p.key = None;
    assert_eq!(err(&p, 32, 20), wrong_parameter("key", "length should be 16 or 24 or 32"));
}

#[test]
fn refuses_missing_or_wrong_iv() {
    assert_eq!(
        err(&params(16, None, Some(false), Some(Padding::Pkcs7)), 32, 20),
        wrong_parameter("iv", "required if iv_prepended is false")
    );
    assert_eq!(
        err(&params(16, Some(0), None, Some(Padding::Pkcs7)), 32, 20),
        wrong_parameter("iv", "required if iv_prepended is false")
    );
    assert_eq!(
        err(&params(16, Some(8), None, Some(Padding::Pkcs7)), 32, 20),
        wrong_parameter("iv", "length should be 16")
    );
    assert!(AesCbc::new(&params(16, None, Some(true), Some(Padding::Pkcs7)), 48, 20).is_ok());
}

#[test]
fn refuses_missing_padding() {
    assert_eq!(err(&params(16, Some(16), None, None), 32, 20), wrong_parameter("padding", "required"));
    let mut p = params(16, Some(16), None, None);
    p.padding = Some(AesCbcPadding { padding: None });
    assert_eq!(err(&p, 32, 20), wrong_parameter("padding", "required"));
}

#[test]
fn refuses_wrong_sizes() {
    let p = params(16, Some(16), None, Some(Padding::Pkcs7));
    assert_eq!(err(&p, 33, 20), wrong_size("src size should be multiple of 16 if there are no padding"));
    assert_eq!(err(&p, 32, 33), wrong_size("dst too big"));
    assert_eq!(err(&p, 48, 31), wrong_size("dst too small"));
    let q = params(16, None, Some(true), Some(Padding::Pkcs7));
    assert_eq!(err(&q, 0, 0), wrong_size("src too small"));
    assert_eq!(err(&q, 32, 17), wrong_size("dst too big"));
}

#[test]
fn checks_padding_against_sizes() {
    let pass = params(16, Some(16), None, Some(Padding::Passthrough));
    assert!(AesCbc::new(&pass, 32, 32).is_ok());
    assert_eq!(
        err(&pass, 32, 31),
        wrong_size("dst size should be same as src size (minus prepended iv if exists) if there are no padding")
    );
    let pkcs7 = params(16, Some(16), None, Some(Padding::Pkcs7));
    assert_eq!(
        err(&pkcs7, 32, 32),
        wrong_size("dst size should smaller than src size (minus prepended iv if exists) for current padding type")
    );
    let iso_unknown = params(16, Some(16), None, Some(Padding::Iso10126(vec![])));
    assert!(AesCbc::new(&iso_unknown, 32, 30).is_ok());
    assert_eq!(
        err(&iso_unknown, 32, 32),
        wrong_size("dst size should smaller than src size (minus prepended iv if exists) for current padding type")
    );
    let iso = params(16, Some(16), None, Some(Padding::Iso10126(vec![9, 9, 3])));
    assert!(AesCbc::new(&iso, 32, 29).is_ok());
    assert_eq!(err(&iso, 32, 28), wrong_parameter("padding.iso10126", "wrong padding size"));
    let iso_bad = params(16, Some(16), None, Some(Padding::Iso10126(vec![9, 9, 4])));
    assert_eq!(err(&iso_bad, 32, 29), wrong_parameter("padding.iso10126", "padding mismatched with size"));
}

#[test]
fn reversing_needs_iv_and_padding_bytes() {
    let ok = AesCbc::new(&params(16, Some(16), None, Some(Padding::Pkcs7)), 32, 20).ok().unwrap();
    assert!(ok.reversed().is_ok());
    let _forward = ok.straight();
    let no_iv = AesCbc::new(&params(16, None, Some(true), Some(Padding::Pkcs7)), 48, 20).ok().unwrap();
    assert_eq!(
        no_iv.reversed().err(),
        wrong_parameter("iv", "iv is required when reversing")
    );
    let unknown = AesCbc::new(&params(16, Some(16), None, Some(Padding::Iso10126(vec![]))), 32, 30).ok().unwrap();
    assert_eq!(
        unknown.reversed().err(),
        wrong_parameter("padding.iso10126", "bytes are required when reversing")
    );
}

#[test]
fn transforms_from_messages() {
    assert_eq!(
        make_transformer_from_proto(&Transform::DecDeflate(TransformDeflateParameters {}), 10, 20).err(),
        Some(TransformCreationError::NotImplemented)
    );
    let p = params(32, Some(16), None, Some(Padding::Passthrough));
    assert!(make_transformer_from_proto(&Transform::DecAesCbc(p.clone()), 64, 64).is_ok());
    assert_eq!(
        make_transformer_from_proto(&Transform::DecAesCbc(p), 64, 63).err(),
        wrong_size("dst size should be same as src size (minus prepended iv if exists) if there are no padding")
    );
}
