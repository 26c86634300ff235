use blobservices::sigv4::{canonical_request_text, format_amz_date, format_amz_datetime, make_canonical_request, make_signature_string, AmzDateTime, SigV4Signer};
use hmac::{KeyInit, Mac};
use sha2::Digest;

type HmacSha256 = hmac::Hmac<sha2::Sha256>;

fn hmac(key: &[u8], data: &[u8]) -> Vec<u8> {
    let mut m = HmacSha256::new_from_slice(key).unwrap();
    m.update(data);
    m.finalize().into_bytes().to_vec()
}

/// An independent reading of the signing steps, on plain strings.
fn reference_authorization(
    key_id: &str,
    secret: &str,
    region: &str,
    method: &str,
    path: &str,
    headers: &[(String, String)],
    datetime: &str,
    date: &str,
) -> String {
    let mut signed: Vec<&(String, String)> = headers
        .iter()
        .filter(|(k, _)| k == "host" || k == "content-type" || k.starts_with("x-amz-") || k.starts_with("if-"))
        .collect();
    signed.sort_by_key(|x| x.0.clone());
    let mut canonical = format!("{}\n{}\n\n", method, if path.is_empty() { "/" } else { path });
    for (k, v) in signed.iter() {
        canonical.push_str(&format!("{}:{}\n", k, v));
    }
    let names = signed.iter().map(|(k, _)| k.as_str()).collect::<Vec<_>>().join(";");
    canonical.push_str(&format!("\n{}\nUNSIGNED-PAYLOAD", names));
    let scope = format!("{}/{}/s3/aws4_request", date, region);
    let to_sign = format!(
        "AWS4-HMAC-SHA256\n{}\n{}\n{}",
        datetime,
        scope,
        hex::encode(sha2::Sha256::digest(canonical.as_bytes()))
    );
    let k = hmac(format!("AWS4{}", secret).as_bytes(), date.as_bytes());
    let k = hmac(&k, region.as_bytes());
    let k = hmac(&k, b"s3");
    let k = hmac(&k, b"aws4_request");
    let signature = hex::encode(hmac(&k, to_sign.as_bytes()));
    format!("AWS4-HMAC-SHA256 Credential={}/{},SignedHeaders={},Signature={}", key_id, scope, names, signature)
}

fn moment() -> AmzDateTime {
    AmzDateTime { year: 2013, month: 5, day: 24, hour: 0, minute: 0, second: 0 }
}

#[test]
fn formats_dates() {
    assert_eq!(format_amz_date(&moment()), "20130524");
    assert_eq!(format_amz_datetime(&moment()), "20130524T000000Z");
    let t = AmzDateTime { year: 987, month: 12, day: 31, hour: 23, minute: 59, second: 7 };
    assert_eq!(format_amz_datetime(&t), "09871231T235907Z");
}

#[test]
fn canonical_request_sorts_and_filters_headers() {
    let headers = vec![
        ("x-amz-date".to_string(), "20130524T000000Z".to_string()),
        ("range".to_string(), "bytes=0-9".to_string()),
        ("host".to_string(), "examplebucket.s3.amazonaws.com".to_string()),
        ("if-none-match".to_string(), "*".to_string()),
        ("content-type".to_string(), "text/plain".to_string()),
    ];
    let (text, names) = canonical_request_text("PUT", "/test.txt", &headers);
    assert_eq!(
        text,
        "PUT\n/test.txt\n\ncontent-type:text/plain\nhost:examplebucket.s3.amazonaws.com\nif-none-match:*\nx-amz-date:20130524T000000Z\n\ncontent-type;host;if-none-match;x-amz-date\nUNSIGNED-PAYLOAD"
    );
    assert_eq!(names, "content-type;host;if-none-match;x-amz-date");
    let (hash, names2) = make_canonical_request("PUT", "/test.txt", &headers);
    assert_eq!(hash, sha2::Sha256::digest(text.as_bytes()).to_vec());
    assert_eq!(names2, names);
}

#[test]
fn empty_path_is_the_root() {
    let (text, names) = canonical_request_text("GET", "", &vec![]);
    assert_eq!(text, "GET\n/\n\n\n\nUNSIGNED-PAYLOAD");
    assert_eq!(names, "");
}

#[test]
fn string_to_sign() {
    assert_eq!(
        make_signature_string("20130524T000000Z", "20130524/us-east-1/s3/aws4_request", &[0xab, 0x01]),
        "AWS4-HMAC-SHA256\n20130524T000000Z\n20130524/us-east-1/s3/aws4_request\nab01"
    );
}

#[test]
fn signing_key_chain() {
    let signer = SigV4Signer::new(
        "SECRET-REDACTED".to_string(),
        "wJalrXUtnFEMI/K7MDENG/bPxRfiCYEXAMPLEKEY".to_string(),
        "us-east-1".to_string(),
    );
    let k = hmac(b"AWS4wJalrXUtnFEMI/K7MDENG/bPxRfiCYEXAMPLEKEY", b"20130524");
    let k = hmac(&k, b"us-east-1");
    let k = hmac(&k, b"s3");
    let k = hmac(&k, b"aws4_request");
    assert_eq!(signer.make_signing_key("20130524"), k);
}

#[test]
fn signs_requests() {
    let signer = SigV4Signer::new(
        "SECRET-REDACTED".to_string(),
        "wJalrXUtnFEMI/K7MDENG/bPxRfiCYEXAMPLEKEY".to_string(),
        "us-east-1".to_string(),
    );
    let mut headers = vec![("if-none-match".to_string(), "*".to_string()), ("expect".to_string(), "100-continue".to_string())];
    signer.sign("PUT", "/abc/de/f.bin", "examplebucket.s3.amazonaws.com", &mut headers, &moment());
    assert_eq!(headers.len(), 6);
    assert_eq!(headers[2], ("host".to_string(), "examplebucket.s3.amazonaws.com".to_string()));
    assert_eq!(headers[3], ("x-amz-content-sha256".to_string(), "UNSIGNED-PAYLOAD".to_string()));
    assert_eq!(headers[4], ("x-amz-date".to_string(), "20130524T000000Z".to_string()));
    assert_eq!(headers[5].0, "authorization");
    let expected = reference_authorization(
        "SECRET-REDACTED",
        "wJalrXUtnFEMI/K7MDENG/bPxRfiCYEXAMPLEKEY",
        "us-east-1",
        "PUT",
        "/abc/de/f.bin",
        &headers[0..5],
        "20130524T000000Z",
        "20130524",
    );
    assert_eq!(headers[5].1, expected);
    assert!(headers[5].1.starts_with(
        "AWS4-HMAC-SHA256 Credential=SECRET-REDACTED/20130524/us-east-1/s3/aws4_request,SignedHeaders=host;if-none-match;x-amz-content-sha256;x-amz-date,Signature="
    ));
}

#[test]
fn keeps_headers_that_are_already_there() {
    let signer = SigV4Signer::new("id".to_string(), "secret".to_string(), "ap-northeast-1".to_string());
    let mut headers = vec![
        ("host".to_string(), "other.example".to_string()),
        ("x-amz-date".to_string(), "20200101T000000Z".to_string()),
    ];
    signer.sign("GET", "/k", "bucket.example", &mut headers, &moment());
    assert_eq!(headers.len(), 4);
    assert_eq!(headers[0].1, "other.example");
    assert_eq!(headers[1].1, "20200101T000000Z");
    assert_eq!(headers[2].0, "x-amz-content-sha256");
    let expected = reference_authorization("id", "secret", "ap-northeast-1", "GET", "/k", &headers[0..3], "20130524T000000Z", "20130524");
    assert_eq!(headers[3].1, expected);
}

#[test]
fn signature_is_sixty_four_lowercase_hex_digits() {
    let signer = SigV4Signer::new("id".to_string(), "secret".to_string(), "us-west-2".to_string());
    let mut headers = vec![];
    signer.sign("GET", "/x", "b.example", &mut headers, &moment());
    let value = &headers.last().unwrap().1;
    let sig = value.rsplit("Signature=").next().unwrap();
    assert_eq!(sig.len(), 64);
    assert!(sig.chars().all(|c| c.is_ascii_digit() || ('a'..='f').contains(&c)));
}
