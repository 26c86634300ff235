//! CloudFront signed URLs: the policy that a URL is signed under, its
//! signature with the distribution's RSA key, and the query parameters that
//! carry both.

use vstd::prelude::*;
use vstd::string::StringSliceAdditionalSpecFns;
use vstd::utf8::encode_utf8;
use crate::hashing::{sha1_absorbed, sha1_digest, sha1_finalize, sha1_new, sha1_update};
use crate::s3::{encode_base64_aws, spec_encode_base64_aws};
use crate::text::{decimal, hex_digit, push_decimal, str_chars};

verus! {

/// What JSON writes for the character `c` inside a string: `"` and `\`
/// escaped, the control characters by their short escapes or as `\u00XX`.
pub open spec fn json_escaped_char(c: char) -> Seq<char> {
    if c == '"' {
        seq!['\\', '"']
    } else if c == '\\' {
        seq!['\\', '\\']
    } else if c == '\u{8}' {
        seq!['\\', 'b']
    } else if c == '\t' {
        seq!['\\', 't']
    } else if c == '\n' {
        seq!['\\', 'n']
    } else if c == '\u{c}' {
        seq!['\\', 'f']
    } else if c == '\r' {
        seq!['\\', 'r']
    } else if (c as u32) < 0x20 {
        seq!['\\', 'u', '0', '0', hex_digit((c as u32 / 16) as nat), hex_digit((c as u32 % 16) as nat)]
    } else {
        seq![c]
    }
}

pub open spec fn json_escaped(s: Seq<char>) -> Seq<char>
    decreases s.len(),
{
    if s.len() == 0 {
        Seq::empty()
    } else {
        json_escaped(s.drop_last()) + json_escaped_char(s.last())
    }
}

/// `s` as a JSON string literal.
pub open spec fn json_string(s: Seq<char>) -> Seq<char> {
    seq!['"'] + json_escaped(s) + seq!['"']
}

/// `serde_json::to_string` of a string slice: the string in double quotes,
/// with `"`, `\` and the control characters escaped (the `ESCAPE` table of
/// serde_json's serializer). Serialising a string does not fail.
#[verifier::external_body]
fn json_string_literal(s: &str) -> (r: String)
    ensures
        r@ == json_string(s@),
{
    serde_json::to_string(s).unwrap_or_default()
}

/// `t` in decimal, with a minus sign when it is negative.
pub open spec fn signed_decimal(t: int) -> Seq<char> {
    if t < 0 {
        seq!['-'] + decimal((-t) as nat)
    } else {
        decimal(t as nat)
    }
}

/// The policy of a signed URL: access to `resource` until the epoch second
/// `expires`, written as compact JSON with its keys in sorted order.
pub open spec fn cloudfront_policy(resource: Seq<char>, expires: int) -> Seq<char> {
    "{\"Statement\":[{\"Condition\":{\"DateLessThan\":{\"AWS:EpochTime\":"@ + signed_decimal(
        expires,
    ) + "}},\"Resource\":"@ + json_string(resource) + "}]}"@
}

/// Appends `t` in decimal.
fn push_signed_decimal(out: &mut String, t: i64)
    ensures
        final(out)@ == old(out)@ + signed_decimal(t as int),
{
    if t < 0 {
        proof { reveal_strlit("-"); }
        out.append("-");
        let m: u64 = (0 - (t as i128)) as u64;
        push_decimal(out, m);
        assert(final(out)@ =~= old(out)@ + signed_decimal(t as int)) by {
            assert(m as int == -(t as int));
        }
    } else {
        push_decimal(out, t as u64);
    }
}

/// The policy under which `resource` may be read until the epoch second
/// `expires`.
pub fn make_cloudfront_policy(resource: &str, expires: i64) -> (p: String)
    ensures
        p@ == cloudfront_policy(resource@, expires as int),
{
    let mut p = String::new();
    p.append("{\"Statement\":[{\"Condition\":{\"DateLessThan\":{\"AWS:EpochTime\":");
    push_signed_decimal(&mut p, expires);
    p.append("}},\"Resource\":");
    let quoted = json_string_literal(resource);
    p.append(quoted.as_str());
    p.append("}]}");
    assert(p@ =~= cloudfront_policy(resource@, expires as int));
    p
}

/// Whether `p` occurs in `s` at `i`.
pub open spec fn occurs_at(s: Seq<char>, p: Seq<char>, i: int) -> bool {
    0 <= i && i + p.len() <= s.len() && s.subrange(i, i + p.len()) == p
}

/// Whether `p` occurs in `s`.
pub open spec fn contains_text(s: Seq<char>, p: Seq<char>) -> bool {
    exists|i: int| #[trigger] occurs_at(s, p, i)
}

/// Whether `p` occurs in `s`.
pub fn str_contains(s: &str, p: &str) -> (r: bool)
    ensures
        r == contains_text(s@, p@),
{
    let x = str_chars(s);
    let y = str_chars(p);
    if y.len() > x.len() {
        assert forall|i: int| !#[trigger] occurs_at(s@, p@, i) by {}
        return false;
    }
    if y.len() == 0 {
        assert(occurs_at(s@, p@, 0)) by {
            assert(s@.subrange(0, 0) =~= p@);
        }
        return true;
    }
    let last = x.len() - y.len();
    let mut i: usize = 0;
    while i <= last
        invariant
            x@ == s@,
            y@ == p@,
            0 < y@.len() <= x@.len() <= usize::MAX,
            last == x@.len() - y@.len(),
            i <= last + 1,
            forall|k: int| 0 <= k < i ==> !#[trigger] occurs_at(s@, p@, k),
        decreases x@.len() - i,
    {
        let mut j: usize = 0;
        while j < y.len() && x[i + j] == y[j]
            invariant
                0 < y@.len() <= x@.len() <= usize::MAX,
                x@ == s@,
                y@ == p@,
                i <= last,
                last == x@.len() - y@.len(),
                j <= y@.len(),
                forall|m: int| 0 <= m < j ==> x@[i + m] == y@[m],
            decreases y@.len() - j,
        {
            j = j + 1;
        }
        if j == y.len() {
            assert(x@.subrange(i as int, i + y@.len()) =~= y@);
            assert(occurs_at(s@, p@, i as int));
            return true;
        }
        assert(!occurs_at(s@, p@, i as int)) by {
            assert(x@.subrange(i as int, i + y@.len())[j as int] != y@[j as int]);
        }
        i = i + 1;
    }
    assert forall|k: int| !#[trigger] occurs_at(s@, p@, k) by {
        if 0 <= k && k < i {
        }
    }
    false
}

/// Whether a PEM document holds a key in the PKCS #1 form (its label says
/// `RSA PRIVATE KEY`) rather than in the PKCS #8 form.
pub fn is_pkcs1_pem(pem: &str) -> (b: bool)
    ensures
        b == contains_text(pem@, "RSA PRIVATE KEY"@),
{
    str_contains(pem, "RSA PRIVATE KEY")
}

#[verifier::external_type_specification]
#[verifier::external_body]
pub struct ExRsaPrivateKey(rsa::RsaPrivateKey);

/// Whether `pem` holds an RSA private key in PKCS #1 PEM form.
pub uninterp spec fn pkcs1_pem_parses(pem: Seq<char>) -> bool;

/// Whether `pem` holds a private key in PKCS #8 PEM form.
pub uninterp spec fn pkcs8_pem_parses(pem: Seq<char>) -> bool;

/// `DecodeRsaPrivateKey::from_pkcs1_pem`: the key that `pem` holds in
/// PKCS #1 form, or `None` when it holds none.
#[verifier::external_body]
fn rsa_key_from_pkcs1_pem(pem: &str) -> (k: Option<rsa::RsaPrivateKey>)
    ensures
        k is Some == pkcs1_pem_parses(pem@),
{
    <rsa::RsaPrivateKey as rsa::pkcs1::DecodeRsaPrivateKey>::from_pkcs1_pem(pem).ok()
}

/// `DecodePrivateKey::from_pkcs8_pem`: the RSA key that `pem` holds in
/// PKCS #8 form, or `None` when it holds none.
#[verifier::external_body]
fn rsa_key_from_pkcs8_pem(pem: &str) -> (k: Option<rsa::RsaPrivateKey>)
    ensures
        k is Some == pkcs8_pem_parses(pem@),
{
    <rsa::RsaPrivateKey as rsa::pkcs8::DecodePrivateKey>::from_pkcs8_pem(pem).ok()
}

/// The RSASSA-PKCS1-v1_5 signature of the encoded digest `digest_info`
/// with the private key that `pem` holds in PKCS #1 form; none when `pem`
/// holds no such key or the digest is too long for it.
pub uninterp spec fn pkcs1_pem_signature(pem: Seq<char>, digest_info: Seq<u8>) -> Option<Seq<u8>>;

/// The same with the private key that `pem` holds in PKCS #8 form.
pub uninterp spec fn pkcs8_pem_signature(pem: Seq<char>, digest_info: Seq<u8>) -> Option<Seq<u8>>;

/// `RsaPrivateKey::sign` with `Pkcs1v15Sign::new_unprefixed()`, by the key
/// that `DecodeRsaPrivateKey::from_pkcs1_pem` reads from `pem`: the
/// signature of `digest_info`, which depends on the key and the digest
/// alone (PKCS #1 v1.5 signing is deterministic); none when `pem` does not
/// parse or the digest is too long for the key.
#[verifier::external_body]
fn rsa_pkcs1_pem_sign(pem: &str, digest_info: &[u8]) -> (s: Option<Vec<u8>>)
    ensures
        match s {
            Some(v) => pkcs1_pem_signature(pem@, digest_info@) == Some(v@),
            None => pkcs1_pem_signature(pem@, digest_info@) is None,
        },
        !pkcs1_pem_parses(pem@) ==> s is None,
{
    let key = <rsa::RsaPrivateKey as rsa::pkcs1::DecodeRsaPrivateKey>::from_pkcs1_pem(pem).ok()?;
    key.sign(rsa::Pkcs1v15Sign::new_unprefixed(), digest_info).ok()
}

/// `RsaPrivateKey::sign` with `Pkcs1v15Sign::new_unprefixed()`, by the key
/// that `DecodePrivateKey::from_pkcs8_pem` reads from `pem`: the signature
/// of `digest_info`; none when `pem` does not parse or the digest is too
/// long for the key.
#[verifier::external_body]
fn rsa_pkcs8_pem_sign(pem: &str, digest_info: &[u8]) -> (s: Option<Vec<u8>>)
    ensures
        match s {
            Some(v) => pkcs8_pem_signature(pem@, digest_info@) == Some(v@),
            None => pkcs8_pem_signature(pem@, digest_info@) is None,
        },
        !pkcs8_pem_parses(pem@) ==> s is None,
{
    let key = <rsa::RsaPrivateKey as rsa::pkcs8::DecodePrivateKey>::from_pkcs8_pem(pem).ok()?;
    key.sign(rsa::Pkcs1v15Sign::new_unprefixed(), digest_info).ok()
}

/// The DER prefix of a PKCS #1 `DigestInfo` for a SHA-1 digest.
pub open spec fn sha1_digest_info_prefix() -> Seq<u8> {
    seq![0x30u8, 0x21, 0x30, 0x09, 0x06, 0x05, 0x2b, 0x0e, 0x03, 0x02, 0x1a, 0x05, 0x00, 0x04, 0x14]
}

/// The `DigestInfo` that an RSASSA-PKCS1-v1_5 signature with SHA-1 signs.
pub fn sha1_digest_info(message: &[u8]) -> (d: Vec<u8>)
    ensures
        d@ == sha1_digest_info_prefix() + sha1_digest(message@),
{
    let mut d: Vec<u8> = vec![0x30u8, 0x21, 0x30, 0x09, 0x06, 0x05, 0x2b, 0x0e, 0x03, 0x02, 0x1a, 0x05, 0x00, 0x04, 0x14];
    let mut h = sha1_new();
    sha1_update(&mut h, message);
    assert(sha1_absorbed(h) =~= message@);
    let mut digest = sha1_finalize(h);
    d.append(&mut digest);
    assert(d@ =~= sha1_digest_info_prefix() + sha1_digest(message@));
    d
}

/// A query parameter as text.
pub open spec fn pair_view(p: (String, String)) -> (Seq<char>, Seq<char>) {
    (p.0@, p.1@)
}

/// The query parameters of a signed URL: the key pair, the policy and the
/// signature, the last two in CloudFront's Base64 variant.
pub open spec fn cloudfront_query(key_id: Seq<char>, policy: Seq<u8>, signature: Seq<u8>) -> Seq<(Seq<char>, Seq<char>)> {
    seq![
        ("Key-Pair-Id"@, key_id),
        ("Policy"@, spec_encode_base64_aws(policy)),
        ("Signature"@, spec_encode_base64_aws(signature)),
    ]
}

/// The query parameters that carry `policy` and its `signature`.
pub fn cloudfront_query_pairs(key_id: &str, policy: &[u8], signature: &[u8]) -> (q: Vec<(String, String)>)
    ensures
        q@.map_values(|p: (String, String)| pair_view(p)) == cloudfront_query(key_id@, policy@, signature@),
{
    let mut q: Vec<(String, String)> = Vec::new();
    q.push(("Key-Pair-Id".to_owned(), key_id.to_owned()));
    q.push(("Policy".to_owned(), encode_base64_aws(policy)));
    q.push(("Signature".to_owned(), encode_base64_aws(signature)));
    assert(q@.map_values(|p: (String, String)| pair_view(p)) =~= cloudfront_query(key_id@, policy@, signature@));
    q
}

/// Where the content of a secret is kept: in a file, in an environment
/// variable, or in the configuration itself.
#[derive(Clone, Debug, PartialEq, Eq)]
pub enum SecretSource {
    File(String),
    Env(String),
    Constant(String),
}

/// A CloudFront key pair: its identifier and where its private key is kept.
#[derive(Clone, Debug, PartialEq, Eq)]
pub struct SecretKeyConfig {
    pub key_id: String,
    pub source: SecretSource,
}

/// The key that signs URLs of a CloudFront distribution: the key pair's
/// identifier and its private key, as the PEM text it was read from and the
/// form it parsed in.
pub struct CloudFrontSigningKey {
    key_id: String,
    pem: String,
    pkcs1: bool,
}

/// The signature by the key in `pem`, read in PKCS #1 form when `pkcs1`
/// holds and in PKCS #8 form otherwise.
pub open spec fn pem_signature(pem: Seq<char>, pkcs1: bool, digest_info: Seq<u8>) -> Option<Seq<u8>> {
    if pkcs1 {
        pkcs1_pem_signature(pem, digest_info)
    } else {
        pkcs8_pem_signature(pem, digest_info)
    }
}

/// The `DigestInfo` that signs the policy of `url` until `expires`.
pub open spec fn policy_digest_info(url: Seq<char>, expires: int) -> Seq<u8> {
    sha1_digest_info_prefix() + sha1_digest(encode_utf8(cloudfront_policy(url, expires)))
}

impl CloudFrontSigningKey {
    pub closed spec fn key_pair_id(&self) -> Seq<char> {
        self.key_id@
    }

    /// The PEM text of the private key.
    pub closed spec fn key_pem(&self) -> Seq<char> {
        self.pem@
    }

    /// Whether the private key is in PKCS #1 form (else PKCS #8).
    pub closed spec fn key_is_pkcs1(&self) -> bool {
        self.pkcs1
    }

    /// The key pair of `config`, whose private key `pem` was read from
    /// `config.source`: PKCS #1 when its label says `RSA PRIVATE KEY`,
    /// PKCS #8 otherwise; `None` when it does not parse so.
    pub fn new(config: SecretKeyConfig, pem: &str) -> (k: Option<CloudFrontSigningKey>)
        ensures
            k is Some == (if contains_text(pem@, "RSA PRIVATE KEY"@) {
                pkcs1_pem_parses(pem@)
            } else {
                pkcs8_pem_parses(pem@)
            }),
            k matches Some(k) ==> k.key_pair_id() == config.key_id@ && k.key_pem() == pem@
                && k.key_is_pkcs1() == contains_text(pem@, "RSA PRIVATE KEY"@),
    {
        let key_id = config.key_id;
        let pkcs1 = is_pkcs1_pem(pem);
        let key = if pkcs1 {
            rsa_key_from_pkcs1_pem(pem)
        } else {
            rsa_key_from_pkcs8_pem(pem)
        };
        match key {
            Some(_) => Some(CloudFrontSigningKey { key_id, pem: pem.to_owned(), pkcs1 }),
            None => None,
        }
    }

    /// The query parameters that sign `url` for reading until a minute
    /// after the epoch second `now`: the key pair, the policy, and the
    /// key's PKCS #1 v1.5 signature of the policy's SHA-1 `DigestInfo`;
    /// `None` exactly when the key cannot sign it.
    pub fn sign_to_url(&self, url: &str, now: i64) -> (q: Option<Vec<(String, String)>>)
        requires
            now <= i64::MAX - 60,
        ensures
            match pem_signature(self.key_pem(), self.key_is_pkcs1(), policy_digest_info(url@, now + 60)) {
                Some(signature) => q matches Some(q) && q@.map_values(|p: (String, String)| pair_view(p))
                    == cloudfront_query(
                    self.key_pair_id(),
                    encode_utf8(cloudfront_policy(url@, now + 60)),
                    signature,
                ),
                None => q is None,
            },
    {
        let policy = make_cloudfront_policy(url, now + 60);
        let digest_info = sha1_digest_info(policy.as_str().as_bytes());
        let signed = if self.pkcs1 {
            rsa_pkcs1_pem_sign(self.pem.as_str(), digest_info.as_slice())
        } else {
            rsa_pkcs8_pem_sign(self.pem.as_str(), digest_info.as_slice())
        };
        match signed {
            Some(signature) => {
                let q = cloudfront_query_pairs(
                    self.key_id.as_str(),
                    policy.as_str().as_bytes(),
                    signature.as_slice(),
                );
                assert(q@.map_values(|p: (String, String)| pair_view(p)) == cloudfront_query(
                    self.key_pair_id(),
                    encode_utf8(cloudfront_policy(url@, now + 60)),
                    signature@,
                ));
                Some(q)
            },
            None => None,
        }
    }
}

} // verus!
