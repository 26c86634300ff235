use base64::Engine;
use blobservices::s3::{encode_base64_aws, parse_content_length, percent_encode_s3_key, s3_object_path};

#[test]
fn base64_for_cloudfront() {
    assert_eq!(encode_base64_aws(b""), "");
    assert_eq!(encode_base64_aws(b"f"), "Zg__");
    assert_eq!(encode_base64_aws(b"fo"), "Zm8_");
    assert_eq!(encode_base64_aws(b"foo"), "Zm9v");
    assert_eq!(encode_base64_aws(&[0xfb, 0xff, 0xbf]), "-~-~");
    assert_eq!(encode_base64_aws(&[0xff, 0xfe]), "~~4_");
}

#[test]
fn base64_variant_is_the_standard_one_remapped() {
    let data: Vec<u8> = (0..=255u8).collect();
    for n in [0usize, 1, 2, 3, 100, 255, 256] {
        let standard = base64::engine::general_purpose::STANDARD.encode(&data[..n]);
        let mapped: String = standard
            .chars()
            .map(|c| match c {
                '+' => '-',
                '=' => '_',
                '/' => '~',
                _ => c,
            })
            .collect();
        let ours = encode_base64_aws(&data[..n]);
        assert_eq!(ours, mapped);
        assert!(!ours.contains('+') && !ours.contains('=') && !ours.contains('/'));
    }
}

#[test]
fn percent_encodes_keys() {
    assert_eq!(percent_encode_s3_key("abc/DEF-0.9_~"), "abc/DEF-0.9_~");
    assert_eq!(percent_encode_s3_key("a b+c"), "a%20b%2Bc");
    assert_eq!(percent_encode_s3_key("é"), "%C3%A9");
    assert_eq!(percent_encode_s3_key(""), "");
}

#[test]
fn object_paths_under_the_bucket() {
    assert_eq!(s3_object_path("/", "019/0f/x.bin"), "/019/0f/x.bin");
    assert_eq!(s3_object_path("/prefix", "a b"), "/prefix/a%20b");
    assert_eq!(s3_object_path("/prefix/", "k"), "/prefix/k");
    assert_eq!(s3_object_path("", "k"), "/k");
}

#[test]
fn content_lengths_parse_as_std_does() {
    for s in ["0", "42", "+7", "18446744073709551615", "18446744073709551616", "", "+", "-1", " 1", "1 ", "0x10", "007"] {
        assert_eq!(parse_content_length(s), s.parse::<u64>().ok(), "value {:?}", s);
    }
}
