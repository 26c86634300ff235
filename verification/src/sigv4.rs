//! AWS Signature Version 4 for requests to S3: the canonical request, the
//! string to sign, the signing key and the headers that carry the signature.

use vstd::prelude::*;
use vstd::string::StringSliceAdditionalSpecFns;
use crate::hashing::{hmac_sha256, hmac_sha256_mac, sha256_absorbed, sha256_digest, sha256_finalize, sha256_new, sha256_update};
use vstd::utf8::encode_utf8;
use crate::text::{hex_encode, hex_lower, is_lower_hex_digit, lemma_hex_lower, push_zero_padded, str_chars, zero_padded};

verus! {

/// A moment in UTC, by its calendar fields.
#[derive(Clone, Copy, Debug, PartialEq, Eq)]
pub struct AmzDateTime {
    pub year: i32,
    pub month: u32,
    pub day: u32,
    pub hour: u32,
    pub minute: u32,
    pub second: u32,
}

/// The year, zero-padded to four characters including a minus sign.
pub open spec fn year_text(y: i32) -> Seq<char> {
    if y >= 0 {
        zero_padded(y as nat, 4)
    } else {
        seq!['-'] + zero_padded((-y) as nat, 3)
    }
}

/// `YYYYMMDD`.
pub open spec fn amz_date(t: AmzDateTime) -> Seq<char> {
    year_text(t.year) + zero_padded(t.month as nat, 2) + zero_padded(t.day as nat, 2)
}

/// `YYYYMMDDTHHMMSSZ`.
pub open spec fn amz_datetime(t: AmzDateTime) -> Seq<char> {
    amz_date(t) + seq!['T'] + zero_padded(t.hour as nat, 2) + zero_padded(t.minute as nat, 2)
        + zero_padded(t.second as nat, 2) + seq!['Z']
}

fn push_year(out: &mut String, y: i32)
    ensures
        final(out)@ == old(out)@ + year_text(y),
{
    if y >= 0 {
        push_zero_padded(out, y as u64, 4);
    } else {
        proof { reveal_strlit("-"); }
        out.append("-");
        let m: u64 = (-(y as i64)) as u64;
        push_zero_padded(out, m, 3);
        assert(old(out)@ + seq!['-'] + zero_padded(m as nat, 3) =~= old(out)@ + year_text(y));
    }
}

/// The date of `t` as `YYYYMMDD`.
pub fn format_amz_date(t: &AmzDateTime) -> (s: String)
    ensures
        s@ == amz_date(*t),
{
    let mut s = String::new();
    push_year(&mut s, t.year);
    push_zero_padded(&mut s, t.month as u64, 2);
    push_zero_padded(&mut s, t.day as u64, 2);
    assert(s@ =~= amz_date(*t));
    s
}

/// The moment `t` as `YYYYMMDDTHHMMSSZ`.
pub fn format_amz_datetime(t: &AmzDateTime) -> (s: String)
    ensures
        s@ == amz_datetime(*t),
{
    let mut s = format_amz_date(t);
    proof { reveal_strlit("T"); reveal_strlit("Z"); }
    s.append("T");
    push_zero_padded(&mut s, t.hour as u64, 2);
    push_zero_padded(&mut s, t.minute as u64, 2);
    push_zero_padded(&mut s, t.second as u64, 2);
    s.append("Z");
    assert(s@ =~= amz_datetime(*t));
    s
}

/// A header as text: its name (lowercase, as a header map keeps it) and
/// its value.
pub open spec fn header_view(h: (String, String)) -> (Seq<char>, Seq<char>) {
    (h.0@, h.1@)
}

pub open spec fn headers_view(hs: Seq<(String, String)>) -> Seq<(Seq<char>, Seq<char>)> {
    hs.map_values(|h: (String, String)| header_view(h))
}

/// `p` is a prefix of `s`.
pub open spec fn starts_with(s: Seq<char>, p: Seq<char>) -> bool {
    s.len() >= p.len() && s.take(p.len() as int) == p
}

/// The headers that take part in the signature: `host`, `content-type`,
/// and those whose names start with `x-amz-` or `if-`.
pub open spec fn is_signed_header(name: Seq<char>) -> bool {
    name == seq!['h', 'o', 's', 't'] || name == seq!['c', 'o', 'n', 't', 'e', 'n', 't', '-', 't',
        'y', 'p', 'e'] || starts_with(name, seq!['x', '-', 'a', 'm', 'z', '-']) || starts_with(
        name,
        seq!['i', 'f', '-'],
    )
}

/// The signed headers of `hs`, in order.
pub open spec fn signed_headers(hs: Seq<(Seq<char>, Seq<char>)>) -> Seq<(Seq<char>, Seq<char>)>
    decreases hs.len(),
{
    if hs.len() == 0 {
        Seq::empty()
    } else if is_signed_header(hs.last().0) {
        signed_headers(hs.drop_last()).push(hs.last())
    } else {
        signed_headers(hs.drop_last())
    }
}

/// Lexicographic order of names, character by character.
pub open spec fn name_lt(a: Seq<char>, b: Seq<char>) -> bool
    decreases a.len(),
{
    if a.len() == 0 {
        b.len() > 0
    } else if b.len() == 0 {
        false
    } else if a[0] != b[0] {
        (a[0] as u32) < (b[0] as u32)
    } else {
        name_lt(a.drop_first(), b.drop_first())
    }
}

/// Inserts `h` into `t` before the first header whose name sorts after its
/// own.
pub open spec fn insert_by_name(h: (Seq<char>, Seq<char>), t: Seq<(Seq<char>, Seq<char>)>) -> Seq<(Seq<char>, Seq<char>)>
    decreases t.len(),
{
    if t.len() == 0 {
        seq![h]
    } else if name_lt(h.0, t[0].0) {
        seq![h] + t
    } else {
        seq![t[0]] + insert_by_name(h, t.drop_first())
    }
}

/// The headers sorted by name; headers of equal names keep their order
/// (insertion sort).
pub open spec fn sort_by_name(hs: Seq<(Seq<char>, Seq<char>)>) -> Seq<(Seq<char>, Seq<char>)>
    decreases hs.len(),
{
    if hs.len() == 0 {
        Seq::empty()
    } else {
        insert_by_name(hs.last(), sort_by_name(hs.drop_last()))
    }
}

/// `name:value` and a line feed for each header.
pub open spec fn canonical_header_lines(hs: Seq<(Seq<char>, Seq<char>)>) -> Seq<char>
    decreases hs.len(),
{
    if hs.len() == 0 {
        Seq::empty()
    } else {
        canonical_header_lines(hs.drop_last()) + hs.last().0 + seq![':'] + hs.last().1 + seq!['\n']
    }
}

/// The names of the headers joined by `;`.
pub open spec fn signed_header_names(hs: Seq<(Seq<char>, Seq<char>)>) -> Seq<char>
    decreases hs.len(),
{
    if hs.len() == 0 {
        Seq::empty()
    } else if hs.len() == 1 {
        hs[0].0
    } else {
        signed_header_names(hs.drop_last()) + seq![';'] + hs.last().0
    }
}

pub open spec fn unsigned_payload() -> Seq<char> {
    seq!['U', 'N', 'S', 'I', 'G', 'N', 'E', 'D', '-', 'P', 'A', 'Y', 'L', 'O', 'A', 'D']
}

/// The canonical request: method, path (`/` when empty), an empty query,
/// the signed headers sorted by name, their names, and an unsigned payload.
pub open spec fn canonical_request(method: Seq<char>, path: Seq<char>, hs: Seq<(Seq<char>, Seq<char>)>) -> Seq<char> {
    let sorted = sort_by_name(signed_headers(hs));
    method + seq!['\n'] + (if path.len() == 0 {
        seq!['/']
    } else {
        path
    }) + seq!['\n'] + seq!['\n'] + canonical_header_lines(sorted) + seq!['\n'] + signed_header_names(
        sorted,
    ) + seq!['\n'] + unsigned_payload()
}

/// The names of the signed headers of `hs`, sorted and joined by `;`.
pub open spec fn signed_names_of(hs: Seq<(Seq<char>, Seq<char>)>) -> Seq<char> {
    signed_header_names(sort_by_name(signed_headers(hs)))
}

/// Whether `a` sorts before `b`.
fn name_before(a: &String, b: &String) -> (r: bool)
    ensures
        r == name_lt(a@, b@),
{
    let x = str_chars(a.as_str());
    let y = str_chars(b.as_str());
    let mut i: usize = 0;
    assert(x@.skip(0) =~= x@ && y@.skip(0) =~= y@);
    loop
        invariant
            x@ == a@,
            y@ == b@,
            i <= x@.len(),
            i <= y@.len(),
            x@.take(i as int) == y@.take(i as int),
            name_lt(a@, b@) == name_lt(x@.skip(i as int), y@.skip(i as int)),
        decreases x@.len() - i,
    {
        if i == x.len() {
            return i < y.len();
        }
        if i == y.len() {
            return false;
        }
        if x[i] != y[i] {
            return (x[i] as u32) < (y[i] as u32);
        }
        assert(x@.skip(i as int).drop_first() =~= x@.skip(i + 1));
        assert(y@.skip(i as int).drop_first() =~= y@.skip(i + 1));
        assert(x@.take(i + 1) =~= x@.take(i as int).push(x@[i as int]));
        assert(y@.take(i + 1) =~= y@.take(i as int).push(y@[i as int]));
        i = i + 1;
    }
}

/// Whether `s` starts with `p`.
fn str_starts_with(s: &String, p: &str) -> (r: bool)
    ensures
        r == starts_with(s@, p@),
{
    let x = str_chars(s.as_str());
    let y = str_chars(p);
    if x.len() < y.len() {
        return false;
    }
    let mut i: usize = 0;
    while i < y.len()
        invariant
            x@ == s@,
            y@ == p@,
            y@.len() <= x@.len(),
            i <= y@.len(),
            forall|k: int| 0 <= k < i ==> x@[k] == y@[k],
        decreases y@.len() - i,
    {
        if x[i] != y[i] {
            assert(x@.take(y@.len() as int)[i as int] != y@[i as int]);
            return false;
        }
        i = i + 1;
    }
    assert(x@.take(y@.len() as int) =~= y@);
    true
}

/// Whether `s` is exactly `p`.
fn str_equals(s: &String, p: &str) -> (r: bool)
    ensures
        r == (s@ == p@),
{
    let x = str_chars(s.as_str());
    let y = str_chars(p);
    if x.len() != y.len() {
        return false;
    }
    let mut i: usize = 0;
    while i < y.len()
        invariant
            x@ == s@,
            y@ == p@,
            y@.len() == x@.len(),
            i <= y@.len(),
            forall|k: int| 0 <= k < i ==> x@[k] == y@[k],
        decreases y@.len() - i,
    {
        if x[i] != y[i] {
            assert(x@[i as int] != y@[i as int]);
            return false;
        }
        i = i + 1;
    }
    assert(x@ =~= y@);
    true
}

fn header_is_signed(name: &String) -> (r: bool)
    ensures
        r == is_signed_header(name@),
{
    proof {
        reveal_strlit("host");
        reveal_strlit("content-type");
        reveal_strlit("x-amz-");
        reveal_strlit("if-");
    }
    let r = str_equals(name, "host") || str_equals(name, "content-type") || str_starts_with(
        name,
        "x-amz-",
    ) || str_starts_with(name, "if-");
    assert("host"@ =~= seq!['h', 'o', 's', 't']);
    assert("content-type"@ =~= seq!['c', 'o', 'n', 't', 'e', 'n', 't', '-', 't', 'y', 'p', 'e']);
    assert("x-amz-"@ =~= seq!['x', '-', 'a', 'm', 'z', '-']);
    assert("if-"@ =~= seq!['i', 'f', '-']);
    r
}

/// The position where `insert_by_name` puts a header: before the first
/// header whose name sorts after it.
proof fn lemma_insert_by_name(h: (Seq<char>, Seq<char>), t: Seq<(Seq<char>, Seq<char>)>, p: int)
    requires
        0 <= p <= t.len(),
        forall|k: int| 0 <= k < p ==> !name_lt(h.0, #[trigger] t[k].0),
        p < t.len() ==> name_lt(h.0, t[p].0),
    ensures
        insert_by_name(h, t) == t.take(p) + seq![h] + t.skip(p),
    decreases t.len(),
{
    if t.len() == 0 {
        assert(t.take(p) + seq![h] + t.skip(p) =~= seq![h]);
    } else if p == 0 {
        assert(t.take(p) + seq![h] + t.skip(p) =~= seq![h] + t);
    } else {
        assert(!name_lt(h.0, t[0].0));
        assert forall|k: int| 0 <= k < p - 1 implies !name_lt(h.0, #[trigger] t.drop_first()[k].0) by {
            assert(t.drop_first()[k] == t[k + 1]);
        }
        lemma_insert_by_name(h, t.drop_first(), p - 1);
        assert(t.take(p) + seq![h] + t.skip(p) =~= seq![t[0]] + (t.drop_first().take(p - 1) + seq![h]
            + t.drop_first().skip(p - 1)));
    }
}

/// The signed headers of `hs`, sorted by name (stably).
fn sorted_signed_headers(hs: &Vec<(String, String)>) -> (r: Vec<(String, String)>)
    ensures
        headers_view(r@) == sort_by_name(signed_headers(headers_view(hs@))),
{
    let mut out: Vec<(String, String)> = Vec::new();
    let mut i: usize = 0;
    while i < hs.len()
        invariant
            i <= hs@.len(),
            headers_view(out@) == sort_by_name(signed_headers(headers_view(hs@.take(i as int)))),
        decreases hs@.len() - i,
    {
        let ghost prefix = headers_view(hs@.take(i as int));
        let ghost next = headers_view(hs@.take(i + 1));
        assert(next.drop_last() =~= prefix);
        assert(next.last() == header_view(hs@[i as int]));
        if header_is_signed(&hs[i].0) {
            let h = (hs[i].0.clone(), hs[i].1.clone());
            let mut p: usize = 0;
            while p < out.len() && !name_before(&h.0, &out[p].0)
                invariant
                    p <= out@.len(),
                    forall|k: int| 0 <= k < p ==> !name_lt(h.0@, #[trigger] out@[k].0@),
                decreases out@.len() - p,
            {
                p = p + 1;
            }
            let ghost before = headers_view(out@);
            proof {
                assert forall|k: int| 0 <= k < p implies !name_lt(header_view(h).0, #[trigger] before[k].0) by {
                    assert(before[k] == header_view(out@[k]));
                }
                if p < out@.len() {
                    assert(before[p as int] == header_view(out@[p as int]));
                }
                lemma_insert_by_name(header_view(h), before, p as int);
            }
            out.insert(p, h);
            assert(headers_view(out@) =~= before.take(p as int) + seq![header_view(h)] + before.skip(p as int));
            assert(signed_headers(next) == signed_headers(prefix).push(header_view(h)));
            assert(signed_headers(next).drop_last() =~= signed_headers(prefix));
        } else {
            assert(signed_headers(next) == signed_headers(prefix));
        }
        i = i + 1;
    }
    assert(hs@.take(hs@.len() as int) =~= hs@);
    out
}


/// Appends `name:value` and a line feed for each header of `hs`.
fn push_header_lines(out: &mut String, hs: &Vec<(String, String)>)
    ensures
        final(out)@ == old(out)@ + canonical_header_lines(headers_view(hs@)),
{
    let mut i: usize = 0;
    assert(headers_view(hs@.take(0)) =~= Seq::<(Seq<char>, Seq<char>)>::empty());
    while i < hs.len()
        invariant
            i <= hs@.len(),
            out@ == old(out)@ + canonical_header_lines(headers_view(hs@.take(i as int))),
        decreases hs@.len() - i,
    {
        let ghost prefix = headers_view(hs@.take(i as int));
        let ghost next = headers_view(hs@.take(i + 1));
        assert(next.drop_last() =~= prefix);
        assert(next.last() == header_view(hs@[i as int]));
        out.append(hs[i].0.as_str());
        out.append(":");
        out.append(hs[i].1.as_str());
        out.append("\n");
        proof { reveal_strlit(":"); reveal_strlit("\n"); }
        assert(canonical_header_lines(next) == canonical_header_lines(prefix) + next.last().0 + seq![':']
            + next.last().1 + seq!['\n']);
        assert(out@ =~= old(out)@ + canonical_header_lines(next));
        i = i + 1;
    }
    assert(hs@.take(hs@.len() as int) =~= hs@);
}

/// The names of the headers of `hs` joined by `;`.
fn join_header_names(hs: &Vec<(String, String)>) -> (s: String)
    ensures
        s@ == signed_header_names(headers_view(hs@)),
{
    let mut s = String::new();
    let mut i: usize = 0;
    assert(headers_view(hs@.take(0)) =~= Seq::<(Seq<char>, Seq<char>)>::empty());
    while i < hs.len()
        invariant
            i <= hs@.len(),
            s@ == signed_header_names(headers_view(hs@.take(i as int))),
        decreases hs@.len() - i,
    {
        let ghost prefix = headers_view(hs@.take(i as int));
        let ghost next = headers_view(hs@.take(i + 1));
        assert(next.drop_last() =~= prefix);
        assert(next.last() == header_view(hs@[i as int]));
        if i > 0 {
            s.append(";");
        } else {
            assert(next =~= seq![header_view(hs@[0])]);
        }
        s.append(hs[i].0.as_str());
        proof { reveal_strlit(";"); }
        if i > 0 {
            assert(signed_header_names(next) == signed_header_names(prefix) + seq![';'] + next.last().0);
        }
        assert(s@ =~= signed_header_names(next));
        i = i + 1;
    }
    assert(hs@.take(hs@.len() as int) =~= hs@);
    s
}

/// The canonical request of a request with `method`, `path` and headers
/// `hs`, and the names of its signed headers joined by `;`.
pub fn canonical_request_text(method: &str, path: &str, hs: &Vec<(String, String)>) -> (r: (
    String,
    String,
))
    ensures
        r.0@ == canonical_request(method@, path@, headers_view(hs@)),
        r.1@ == signed_names_of(headers_view(hs@)),
{
    proof {
        reveal_strlit("\n");
        reveal_strlit("/");
        reveal_strlit("\nUNSIGNED-PAYLOAD");
    }
    let sorted = sorted_signed_headers(hs);
    let mut parts = String::new();
    parts.append(method);
    parts.append("\n");
    if path.unicode_len() == 0 {
        parts.append("/");
    } else {
        parts.append(path);
    }
    parts.append("\n");
    parts.append("\n");
    let ghost before_lines = parts@;
    push_header_lines(&mut parts, &sorted);
    parts.append("\n");
    let names = join_header_names(&sorted);
    parts.append(names.as_str());
    parts.append("\nUNSIGNED-PAYLOAD");
    assert("\nUNSIGNED-PAYLOAD"@ =~= seq!['\n'] + unsigned_payload());
    assert(parts@ =~= canonical_request(method@, path@, headers_view(hs@)));
    (parts, names)
}

/// The SHA-256 digest of the canonical request (in UTF-8) and the names of
/// the signed headers.
pub fn make_canonical_request(method: &str, path: &str, hs: &Vec<(String, String)>) -> (r: (
    Vec<u8>,
    String,
))
    ensures
        r.0@ == sha256_digest(encode_utf8(canonical_request(method@, path@, headers_view(hs@)))),
        r.1@ == signed_names_of(headers_view(hs@)),
{
    let (parts, names) = canonical_request_text(method, path, hs);
    let mut h = sha256_new();
    sha256_update(&mut h, parts.as_str().as_bytes());
    assert(sha256_absorbed(h) =~= encode_utf8(parts@));
    (sha256_finalize(h), names)
}

pub open spec fn aws4_hmac_sha256() -> Seq<char> {
    seq!['A', 'W', 'S', '4', '-', 'H', 'M', 'A', 'C', '-', 'S', 'H', 'A', '2', '5', '6']
}

/// The string to sign: the algorithm, the request time, the credential scope
/// and the hash of the canonical request in hexadecimal, one per line.
pub open spec fn signature_string(datetime: Seq<char>, scope: Seq<char>, hash: Seq<u8>) -> Seq<char> {
    aws4_hmac_sha256() + seq!['\n'] + datetime + seq!['\n'] + scope + seq!['\n'] + hex_lower(hash)
}

/// The string to sign.
pub fn make_signature_string(current_datetime: &str, cred_scope: &str, canonical_request_hash: &[u8]) -> (s: String)
    ensures
        s@ == signature_string(current_datetime@, cred_scope@, canonical_request_hash@),
{
    proof { reveal_strlit("AWS4-HMAC-SHA256\n"); reveal_strlit("\n"); }
    let mut s = String::new();
    s.append("AWS4-HMAC-SHA256\n");
    s.append(current_datetime);
    s.append("\n");
    s.append(cred_scope);
    s.append("\n");
    let hex = hex_encode(canonical_request_hash);
    s.append(hex.as_str());
    assert(s@ =~= signature_string(current_datetime@, cred_scope@, canonical_request_hash@));
    s
}


pub open spec fn aws4_request() -> Seq<char> {
    seq!['a', 'w', 's', '4', '_', 'r', 'e', 'q', 'u', 'e', 's', 't']
}

/// The service that requests are signed for.
pub open spec fn s3_service() -> Seq<char> {
    seq!['s', '3']
}

/// The credential scope `date/region/s3/aws4_request`.
pub open spec fn credential_scope(date: Seq<char>, region: Seq<char>) -> Seq<char> {
    date + seq!['/'] + region + seq!['/'] + s3_service() + seq!['/'] + aws4_request()
}

/// The signing key: HMAC-SHA-256 chained from `AWS4` and the secret over the
/// date, the region, the service and `aws4_request`.
pub open spec fn signing_key(secret: Seq<char>, date: Seq<char>, region: Seq<char>) -> Seq<u8> {
    let date_key = hmac_sha256(encode_utf8(seq!['A', 'W', 'S', '4'] + secret), encode_utf8(date));
    let date_region_key = hmac_sha256(date_key, encode_utf8(region));
    let date_region_service_key = hmac_sha256(date_region_key, encode_utf8(s3_service()));
    hmac_sha256(date_region_service_key, encode_utf8(aws4_request()))
}

/// Whether some header of `hs` is named `name`.
pub open spec fn has_header(hs: Seq<(Seq<char>, Seq<char>)>, name: Seq<char>) -> bool {
    exists|i: int| 0 <= i < hs.len() && #[trigger] hs[i].0 == name
}

/// `hs`, with `name: value` appended unless a header of that name is there.
pub open spec fn add_if_absent(hs: Seq<(Seq<char>, Seq<char>)>, name: Seq<char>, value: Seq<char>) -> Seq<(Seq<char>, Seq<char>)> {
    if has_header(hs, name) {
        hs
    } else {
        hs.push((name, value))
    }
}

pub open spec fn host_name() -> Seq<char> {
    seq!['h', 'o', 's', 't']
}

pub open spec fn content_sha256_name() -> Seq<char> {
    seq!['x', '-', 'a', 'm', 'z', '-', 'c', 'o', 'n', 't', 'e', 'n', 't', '-', 's', 'h', 'a', '2', '5', '6']
}

pub open spec fn amz_date_name() -> Seq<char> {
    seq!['x', '-', 'a', 'm', 'z', '-', 'd', 'a', 't', 'e']
}

pub open spec fn authorization_name() -> Seq<char> {
    seq!['a', 'u', 't', 'h', 'o', 'r', 'i', 'z', 'a', 't', 'i', 'o', 'n']
}

/// The headers of a request before it is signed: `host`,
/// `x-amz-content-sha256` (an unsigned payload) and `x-amz-date` are added
/// where they are missing.
pub open spec fn with_sigv4_defaults(hs: Seq<(Seq<char>, Seq<char>)>, host: Seq<char>, t: AmzDateTime) -> Seq<(Seq<char>, Seq<char>)> {
    add_if_absent(
        add_if_absent(add_if_absent(hs, host_name(), host), content_sha256_name(), unsigned_payload()),
        amz_date_name(),
        amz_datetime(t),
    )
}

/// The value of the `Authorization` header for a request whose headers,
/// defaults included, are `hs`.
/// The signature of a request whose headers, defaults included, are `hs`:
/// the HMAC-SHA-256, under the signing key, of the string to sign.
pub open spec fn authorization_signature(
    secret: Seq<char>,
    region: Seq<char>,
    method: Seq<char>,
    path: Seq<char>,
    hs: Seq<(Seq<char>, Seq<char>)>,
    t: AmzDateTime,
) -> Seq<u8> {
    let scope = credential_scope(amz_date(t), region);
    let hash = sha256_digest(encode_utf8(canonical_request(method, path, hs)));
    hmac_sha256(
        signing_key(secret, amz_date(t), region),
        encode_utf8(signature_string(amz_datetime(t), scope, hash)),
    )
}

pub open spec fn authorization_value(
    key_id: Seq<char>,
    secret: Seq<char>,
    region: Seq<char>,
    method: Seq<char>,
    path: Seq<char>,
    hs: Seq<(Seq<char>, Seq<char>)>,
    t: AmzDateTime,
) -> Seq<char> {
    let scope = credential_scope(amz_date(t), region);
    let signature = authorization_signature(secret, region, method, path, hs, t);
    aws4_hmac_sha256() + seq![' ', 'C', 'r', 'e', 'd', 'e', 'n', 't', 'i', 'a', 'l', '='] + key_id
        + seq!['/'] + scope + seq![',', 'S', 'i', 'g', 'n', 'e', 'd', 'H', 'e', 'a', 'd', 'e', 'r', 's', '=']
        + signed_names_of(hs) + seq![',', 'S', 'i', 'g', 'n', 'a', 't', 'u', 'r', 'e', '='] + hex_lower(
        signature,
    )
}

/// Whether a header of `hs` is named `name`.
fn find_header(hs: &Vec<(String, String)>, name: &str) -> (r: bool)
    ensures
        r == has_header(headers_view(hs@), name@),
{
    let mut i: usize = 0;
    while i < hs.len()
        invariant
            i <= hs@.len(),
            forall|k: int| 0 <= k < i ==> hs@[k].0@ != name@,
        decreases hs@.len() - i,
    {
        if str_equals(&hs[i].0, name) {
            assert(headers_view(hs@)[i as int].0 == name@);
            return true;
        }
        i = i + 1;
    }
    assert forall|k: int| 0 <= k < headers_view(hs@).len() implies #[trigger] headers_view(hs@)[k].0 != name@ by {
        assert(headers_view(hs@)[k] == header_view(hs@[k]));
    }
    false
}

/// Appends `name: value` unless a header of that name is there.
fn append_if_absent(hs: &mut Vec<(String, String)>, name: &str, value: &str)
    ensures
        headers_view(final(hs)@) == add_if_absent(headers_view(old(hs)@), name@, value@),
{
    if !find_header(hs, name) {
        hs.push((name.to_owned(), value.to_owned()));
        assert(headers_view(hs@) =~= headers_view(old(hs)@).push((name@, value@)));
    }
}

/// Signs requests to S3 with AWS Signature Version 4.
pub struct SigV4Signer {
    access_key_id: String,
    secret_access_key: String,
    region: String,
}

impl SigV4Signer {
    pub closed spec fn key_id(&self) -> Seq<char> {
        self.access_key_id@
    }

    pub closed spec fn secret(&self) -> Seq<char> {
        self.secret_access_key@
    }

    pub closed spec fn region_name(&self) -> Seq<char> {
        self.region@
    }

    /// A signer with the given credentials, for `region`.
    pub fn new(access_key_id: String, secret_access_key: String, region: String) -> (s: SigV4Signer)
        ensures
            s.key_id() == access_key_id@,
            s.secret() == secret_access_key@,
            s.region_name() == region@,
    {
        SigV4Signer { access_key_id, secret_access_key, region }
    }

    /// The key that signs requests made on `current_date` (`YYYYMMDD`).
    pub fn make_signing_key(&self, current_date: &str) -> (k: Vec<u8>)
        ensures
            k@ == signing_key(self.secret(), current_date@, self.region_name()),
    {
        proof {
            reveal_strlit("AWS4");
            reveal_strlit("s3");
            reveal_strlit("aws4_request");
        }
        let mut secret = String::new();
        secret.append("AWS4");
        secret.append(self.secret_access_key.as_str());
        assert(secret@ =~= seq!['A', 'W', 'S', '4'] + self.secret());
        let date_key = hmac_sha256_mac(secret.as_str().as_bytes(), current_date.as_bytes());
        let date_region_key = hmac_sha256_mac(date_key.as_slice(), self.region.as_str().as_bytes());
        let date_region_service_key = hmac_sha256_mac(date_region_key.as_slice(), "s3".as_bytes());
        let signing = hmac_sha256_mac(date_region_service_key.as_slice(), "aws4_request".as_bytes());
        assert("s3"@ =~= s3_service());
        assert("aws4_request"@ =~= aws4_request());
        signing
    }

    /// Signs a request with `method` to `path` on `host` at the time `now`:
    /// adds `host`, `x-amz-content-sha256` and `x-amz-date` where they are
    /// missing, then the `authorization` header.
    pub fn sign(&self, method: &str, path: &str, host: &str, headers: &mut Vec<(String, String)>, now: &AmzDateTime)
        ensures
            ({
                let hs = with_sigv4_defaults(headers_view(old(headers)@), host@, *now);
                headers_view(final(headers)@) == hs.push(
                    (
                        authorization_name(),
                        authorization_value(
                            self.key_id(),
                            self.secret(),
                            self.region_name(),
                            method@,
                            path@,
                            hs,
                            *now,
                        ),
                    ),
                )
            }),
            ({
                let hs = with_sigv4_defaults(headers_view(old(headers)@), host@, *now);
                let signature = authorization_signature(
                    self.secret(),
                    self.region_name(),
                    method@,
                    path@,
                    hs,
                    *now,
                );
                &&& signature.len() == 32
                &&& hex_lower(signature).len() == 64
                &&& forall|i: int| 0 <= i < 64 ==> is_lower_hex_digit(#[trigger] hex_lower(signature)[i])
            }),
    {
        proof {
            reveal_strlit("host");
            reveal_strlit("x-amz-content-sha256");
            reveal_strlit("UNSIGNED-PAYLOAD");
            reveal_strlit("x-amz-date");
            reveal_strlit("/");
            reveal_strlit("/s3/aws4_request");
            reveal_strlit("AWS4-HMAC-SHA256 Credential=");
            reveal_strlit(",SignedHeaders=");
            reveal_strlit(",Signature=");
            reveal_strlit("authorization");
        }
        let current_datetime = format_amz_datetime(now);
        let current_date = format_amz_date(now);
        append_if_absent(headers, "host", host);
        append_if_absent(headers, "x-amz-content-sha256", "UNSIGNED-PAYLOAD");
        append_if_absent(headers, "x-amz-date", current_datetime.as_str());
        assert("host"@ =~= host_name());
        assert("x-amz-content-sha256"@ =~= content_sha256_name());
        assert("UNSIGNED-PAYLOAD"@ =~= unsigned_payload());
        assert("x-amz-date"@ =~= amz_date_name());
        let ghost hs = headers_view(headers@);
        assert(hs == with_sigv4_defaults(headers_view(old(headers)@), host@, *now));

        let mut cred_scope = current_date.clone();
        cred_scope.append("/");
        cred_scope.append(self.region.as_str());
        cred_scope.append("/s3/aws4_request");
        assert(cred_scope@ =~= credential_scope(amz_date(*now), self.region_name()));

        let (canonical_request, signed_headers) = make_canonical_request(method, path, headers);
        let signing_key = self.make_signing_key(current_date.as_str());
        let signature_source = make_signature_string(
            current_datetime.as_str(),
            cred_scope.as_str(),
            canonical_request.as_slice(),
        );
        let signature = hmac_sha256_mac(signing_key.as_slice(), signature_source.as_str().as_bytes());
        let signature_hex = hex_encode(signature.as_slice());
        proof { lemma_hex_lower(signature@); }

        let mut value = String::new();
        value.append("AWS4-HMAC-SHA256 Credential=");
        value.append(self.access_key_id.as_str());
        value.append("/");
        value.append(cred_scope.as_str());
        value.append(",SignedHeaders=");
        value.append(signed_headers.as_str());
        value.append(",Signature=");
        value.append(signature_hex.as_str());
        assert(value@ =~= authorization_value(
            self.key_id(),
            self.secret(),
            self.region_name(),
            method@,
            path@,
            hs,
            *now,
        ));
        headers.push(("authorization".to_owned(), value));
        assert("authorization"@ =~= authorization_name());
        assert(headers_view(headers@) =~= hs.push((authorization_name(), value@)));
    }
}

} // verus!
