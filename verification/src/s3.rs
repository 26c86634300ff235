//! What the S3 store computes on its own: object keys as S3 expects them in
//! a URL path, signatures of requests (AWS Signature Version 4) and the
//! Base64 variant that CloudFront signed URLs use.

use vstd::prelude::*;
use vstd::string::StringSliceAdditionalSpecFns;
use crate::text::{ascii_str, parse_u64_at, str_chars, u64_at};

verus! {

/// A character of the RFC 4648 standard Base64 alphabet, or the padding.
pub open spec fn is_base64_char(c: char) -> bool {
    ('A' <= c && c <= 'Z') || ('a' <= c && c <= 'z') || ('0' <= c && c <= '9') || c == '+' || c
        == '/' || c == '='
}

/// The character of the standard Base64 alphabet for the six bits `v`.
pub open spec fn base64_digit(v: int) -> char {
    if v < 26 {
        ('A' as int + v) as char
    } else if v < 52 {
        ('a' as int + (v - 26)) as char
    } else if v < 62 {
        ('0' as int + (v - 52)) as char
    } else if v == 62 {
        '+'
    } else {
        '/'
    }
}

/// The standard Base64 encoding of `data` (RFC 4648): four characters for
/// each three bytes, the last group padded with `=`.
pub open spec fn base64_standard(data: Seq<u8>) -> Seq<char>
    decreases data.len(),
{
    if data.len() == 0 {
        Seq::empty()
    } else if data.len() == 1 {
        seq![base64_digit(data[0] as int / 4), base64_digit((data[0] as int % 4) * 16), '=', '=']
    } else if data.len() == 2 {
        seq![
            base64_digit(data[0] as int / 4),
            base64_digit((data[0] as int % 4) * 16 + data[1] as int / 16),
            base64_digit((data[1] as int % 16) * 4),
            '=',
        ]
    } else {
        seq![
            base64_digit(data[0] as int / 4),
            base64_digit((data[0] as int % 4) * 16 + data[1] as int / 16),
            base64_digit((data[1] as int % 16) * 4 + data[2] as int / 64),
            base64_digit(data[2] as int % 64),
        ] + base64_standard(data.skip(3))
    }
}

/// Every character of a standard Base64 encoding is in its alphabet.
pub proof fn lemma_base64_alphabet(data: Seq<u8>)
    ensures
        forall|i: int|
            0 <= i < base64_standard(data).len() ==> is_base64_char(#[trigger] base64_standard(data)[i]),
    decreases data.len(),
{
    if data.len() >= 3 {
        lemma_base64_alphabet(data.skip(3));
        let head = seq![
            base64_digit(data[0] as int / 4),
            base64_digit((data[0] as int % 4) * 16 + data[1] as int / 16),
            base64_digit((data[1] as int % 16) * 4 + data[2] as int / 64),
            base64_digit(data[2] as int % 64),
        ];
        assert forall|i: int| 0 <= i < base64_standard(data).len() implies is_base64_char(
            #[trigger] base64_standard(data)[i],
        ) by {
            if i >= 4 {
                assert(base64_standard(data)[i] == base64_standard(data.skip(3))[i - 4]);
            } else {
                assert(base64_standard(data)[i] == head[i]);
            }
        }
    }
}

/// `Engine::encode` of `base64::engine::general_purpose::STANDARD`: the
/// standard Base64 encoding of `data`, in the RFC 4648 alphabet with `=`
/// padding.
#[verifier::external_body]
fn base64_standard_encode(data: &[u8]) -> (s: String)
    ensures
        s@ == base64_standard(data@),
{
    base64::Engine::encode(&base64::engine::general_purpose::STANDARD, data)
}

/// The character that replaces a Base64 character in the variant that
/// CloudFront accepts in a URL: `+` becomes `-`, `=` becomes `_`, `/`
/// becomes `~`.
pub open spec fn aws_base64_char(c: char) -> char {
    if c == '+' {
        '-'
    } else if c == '=' {
        '_'
    } else if c == '/' {
        '~'
    } else {
        c
    }
}

/// The CloudFront variant of the standard Base64 encoding of `data`.
pub open spec fn spec_encode_base64_aws(data: Seq<u8>) -> Seq<char> {
    base64_standard(data).map_values(|c: char| aws_base64_char(c))
}

/// Encodes `input` in standard Base64, then replaces the characters that a
/// URL query would need to escape, as CloudFront expects.
pub fn encode_base64_aws(input: &[u8]) -> (s: String)
    ensures
        s@ == spec_encode_base64_aws(input@),
{
    let encoded = base64_standard_encode(input);
    let chars = str_chars(encoded.as_str());
    proof { lemma_base64_alphabet(input@); }
    let mut out = String::new();
    let mut i: usize = 0;
    while i < chars.len()
        invariant
            chars@ == base64_standard(input@),
            forall|k: int| 0 <= k < chars@.len() ==> is_base64_char(#[trigger] chars@[k]),
            i <= chars@.len(),
            out@ == chars@.take(i as int).map_values(|c: char| aws_base64_char(c)),
        decreases chars@.len() - i,
    {
        let c = chars[i];
        assert(is_base64_char(chars@[i as int]));
        let mapped: char = if c == '+' {
            '-'
        } else if c == '=' {
            '_'
        } else if c == '/' {
            '~'
        } else {
            c
        };
        let b = mapped as u32 as u8;
        assert(b as char == mapped);
        out.append(ascii_str(b));
        assert(chars@.take(i + 1).map_values(|c: char| aws_base64_char(c)) =~= chars@.take(
            i as int,
        ).map_values(|c: char| aws_base64_char(c)).push(aws_base64_char(chars@[i as int])));
        i = i + 1;
    }
    assert(chars@.take(chars@.len() as int) =~= chars@);
    out
}

/// The CloudFront Base64 variant holds none of the characters that a URL
/// query would need to escape.
pub proof fn lemma_aws_base64_url_safe(data: Seq<u8>)
    ensures
        forall|i: int|
            0 <= i < spec_encode_base64_aws(data).len() ==> {
                let c = #[trigger] spec_encode_base64_aws(data)[i];
                c != '+' && c != '=' && c != '/'
            },
{
    lemma_base64_alphabet(data);
}

/// A byte that S3 keys keep as it is in a URL path: an ASCII letter or
/// digit, `-`, `.`, `_`, `~` or `/`.
pub open spec fn is_s3_unreserved(b: u8) -> bool {
    ('A' as u8 <= b && b <= 'Z' as u8) || ('a' as u8 <= b && b <= 'z' as u8) || ('0' as u8 <= b
        && b <= '9' as u8) || b == '-' as u8 || b == '.' as u8 || b == '_' as u8 || b == '~' as u8
        || b == '/' as u8
}

/// The uppercase hexadecimal digit for `d < 16`.
pub open spec fn hex_upper(d: nat) -> char {
    if d < 10 {
        (d + '0' as int) as char
    } else {
        (d - 10 + 'A' as int) as char
    }
}

/// The percent-encoding of `bytes` for an S3 key: unreserved bytes stay,
/// every other byte becomes `%` and two uppercase hexadecimal digits.
pub open spec fn s3_percent_encoded(bytes: Seq<u8>) -> Seq<char>
    decreases bytes.len(),
{
    if bytes.len() == 0 {
        Seq::empty()
    } else {
        let b = bytes.last();
        s3_percent_encoded(bytes.drop_last()) + if is_s3_unreserved(b) {
            seq![b as char]
        } else {
            seq!['%', hex_upper((b / 16) as nat), hex_upper((b % 16) as nat)]
        }
    }
}

fn hex_upper_str(d: u8) -> (r: &'static str)
    requires
        d < 16,
    ensures
        r@ == seq![hex_upper(d as nat)],
{
    let b: u8 = if d < 10 {
        d + 48
    } else {
        d - 10 + 65
    };
    assert(b as char == hex_upper(d as nat));
    ascii_str(b)
}

/// Percent-encodes the UTF-8 bytes of an S3 key, keeping letters, digits,
/// `-`, `.`, `_`, `~` and `/`.
pub fn percent_encode_s3_key(key: &str) -> (s: String)
    ensures
        s@ == s3_percent_encoded(key.spec_bytes()),
{
    let bytes = key.as_bytes();
    let mut out = String::new();
    let mut i: usize = 0;
    while i < bytes.len()
        invariant
            bytes@ == key.spec_bytes(),
            i <= bytes@.len(),
            out@ == s3_percent_encoded(bytes@.take(i as int)),
        decreases bytes@.len() - i,
    {
        let b = bytes[i];
        assert(bytes@.take(i + 1).drop_last() =~= bytes@.take(i as int));
        if (65 <= b && b <= 90) || (97 <= b && b <= 122) || (48 <= b && b <= 57) || b == 45 || b == 46
            || b == 95 || b == 126 || b == 47 {
            out.append(ascii_str(b));
        } else {
            proof { reveal_strlit("%"); }
            out.append("%");
            out.append(hex_upper_str(b / 16));
            out.append(hex_upper_str(b % 16));
        }
        i = i + 1;
    }
    assert(bytes@.take(bytes@.len() as int) =~= bytes@);
    out
}

/// The path of an object under a bucket's base path: the base, a `/` unless
/// it already ends with one, and the percent-encoded key.
pub open spec fn spec_s3_object_path(base_path: Seq<char>, key_bytes: Seq<u8>) -> Seq<char> {
    base_path + (if base_path.len() > 0 && base_path.last() == '/' {
        Seq::empty()
    } else {
        seq!['/']
    }) + s3_percent_encoded(key_bytes)
}

/// The URL path of the object `key` under a bucket's base path.
pub fn s3_object_path(base_path: &str, key: &str) -> (p: String)
    ensures
        p@ == spec_s3_object_path(base_path@, key.spec_bytes()),
{
    let b = str_chars(base_path);
    let mut p = String::from_str(base_path);
    if !(b.len() > 0 && b[b.len() - 1] == '/') {
        proof { reveal_strlit("/"); }
        p.append("/");
    }
    let k = percent_encode_s3_key(key);
    p.append(k.as_str());
    p
}

/// How `str::parse::<u64>` reads `s`: an optional `+`, then one or more
/// decimal digits up to the end, whose value fits in 64 bits.
pub open spec fn spec_parse_u64(s: Seq<char>) -> Option<u64> {
    let i = if s.len() > 0 && s[0] == '+' {
        1int
    } else {
        0int
    };
    match u64_at(s, i) {
        Some((v, j)) => if j == s.len() {
            Some(v)
        } else {
            None
        },
        None => None,
    }
}

/// The value of a `Content-Length` header as `str::parse::<u64>` reads it;
/// `None` where it does not.
pub fn parse_content_length(value: &str) -> (n: Option<u64>)
    ensures
        n == spec_parse_u64(value@),
{
    let s = str_chars(value);
    let i: usize = if s.len() > 0 && s[0] == '+' {
        1
    } else {
        0
    };
    match parse_u64_at(&s, i) {
        Some((v, j)) => if j == s.len() {
            Some(v)
        } else {
            None
        },
        None => None,
    }
}

} // verus!
