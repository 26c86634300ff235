//! What a blob store decides: where a new object goes, which bytes of an
//! object a read returns, and whether what a backend answered is sound.

use vstd::prelude::*;
use crate::http_content_range::{ContentRange, render_range_request};
use crate::http_range::{BytesRange, spec_normalize, spec_bytes_range_specifier, render_bytes_range, lemma_bytes_range_round_trip};
use crate::paths::{has_root, push_name, push_relative};
use crate::text::{hex_encode, hex_lower, str_chars};

verus! {

/// The address of a new object named by `id` (the text of a UUID):
/// `id[0..3]/id[3..5]/id.bin`, which puts the objects of a few days in one
/// directory.
pub open spec fn spec_object_address(id: Seq<char>) -> Seq<char> {
    id.subrange(0, 3) + seq!['/'] + id.subrange(3, 5) + seq!['/'] + id + seq!['.', 'b', 'i', 'n']
}

/// The address of a new object named by `id`.
pub fn object_address(id: &str) -> (a: String)
    requires
        id.is_ascii(),
        id@.len() >= 5,
    ensures
        a@ == spec_object_address(id@),
{
    let mut a = String::from_str(id.substring_ascii(0, 3));
    proof { reveal_strlit("/"); reveal_strlit(".bin"); }
    a.append("/");
    a.append(id.substring_ascii(3, 5));
    a.append("/");
    a.append(id);
    a.append(".bin");
    a
}

/// A store that keeps objects in a directory: objects being written live
/// under `wip/`, finished ones under `done/`.
pub struct LocalStoreProvider {
    pub wip_dir: String,
    pub done_dir: String,
}

impl LocalStoreProvider {
    /// The store rooted at `root_dir`.
    pub fn new(root_dir: &str) -> (p: LocalStoreProvider)
        ensures
            p.wip_dir@ == push_name(root_dir@, seq!['w', 'i', 'p']),
            p.done_dir@ == push_name(root_dir@, seq!['d', 'o', 'n', 'e']),
    {
        proof { reveal_strlit("wip"); reveal_strlit("done"); }
        let wip_dir = push_relative(root_dir, "wip");
        let done_dir = push_relative(root_dir, "done");
        LocalStoreProvider { wip_dir, done_dir }
    }

    /// Where a finished object with this (relative) address is kept.
    pub fn done_path(&self, address: &str) -> (p: String)
        requires
            !has_root(address@),
        ensures
            p@ == push_name(self.done_dir@, address@),
    {
        push_relative(&self.done_dir, address)
    }

    /// Where an object with this (relative) address is written first.
    pub fn wip_path(&self, address: &str) -> (p: String)
        requires
            !has_root(address@),
        ensures
            p@ == push_name(self.wip_dir@, address@),
    {
        push_relative(&self.wip_dir, address)
    }
}

/// Which bytes of an object a read returns: `size` bytes from `start`, and
/// the `Content-Range` to answer with when a range was asked for.
#[derive(Clone, Copy, Debug, PartialEq, Eq)]
pub struct ObjectReadPlan {
    pub start: u64,
    pub size: u64,
    pub content_range: Option<ContentRange>,
}

/// The read of an object of `file_size` bytes, whole or in the range asked
/// for; the error (the object's size) when the range selects nothing of it.
/// An empty object is returned whole whatever was asked.
pub open spec fn spec_plan_object_read(file_size: u64, range: Option<BytesRange>) -> Result<ObjectReadPlan, u64> {
    if file_size == 0 {
        Ok(ObjectReadPlan { start: 0, size: 0, content_range: None })
    } else {
        match range {
            None => Ok(ObjectReadPlan { start: 0, size: file_size, content_range: None }),
            Some(r) => match spec_normalize(r, file_size) {
                None => Err(file_size),
                Some(n) => Ok(
                    ObjectReadPlan {
                        start: n.start,
                        size: (n.end - n.start + 1) as u64,
                        content_range: Some(
                            ContentRange { start: n.start, end: n.end, entire_size: file_size },
                        ),
                    },
                ),
            },
        }
    }
}

/// Decides which bytes of an object of `file_size` bytes a read returns.
pub fn plan_object_read(file_size: u64, range: Option<BytesRange>) -> (r: Result<ObjectReadPlan, u64>)
    ensures
        r == spec_plan_object_read(file_size, range),
{
    if file_size == 0 {
        return Ok(ObjectReadPlan { start: 0, size: 0, content_range: None });
    }
    match range {
        None => Ok(ObjectReadPlan { start: 0, size: file_size, content_range: None }),
        Some(r) => match r.normalize(file_size) {
            None => Err(file_size),
            Some(n) => Ok(
                ObjectReadPlan {
                    start: n.start,
                    size: (n.end - n.start) + 1,
                    content_range: Some(
                        ContentRange { start: n.start, end: n.end, entire_size: file_size },
                    ),
                },
            ),
        },
    }
}

/// Whether a backend's answer to a whole-object read is sound: when it
/// names a range, the range must be the whole object of `size` bytes.
pub fn covers_whole_object(content_range: Option<ContentRange>, size: u64) -> (ok: bool)
    requires
        content_range matches Some(r) ==> (r.start == 0 ==> r.entire_size > 0),
    ensures
        ok == match content_range {
            Some(r) => r.start == 0 && r.end == r.entire_size - 1 && r.entire_size == size,
            None => true,
        },
{
    match content_range {
        Some(r) => !(r.start != 0 || r.end != r.entire_size - 1 || r.entire_size != size),
        None => true,
    }
}

/// The entity tag of a blob: its MD5 digest in lowercase hex, quoted.
pub open spec fn spec_md5_etag(md5: Seq<u8>) -> Seq<char> {
    seq!['"'] + hex_lower(md5) + seq!['"']
}

/// The entity tag for an MD5 digest.
pub fn md5_etag(md5: &[u8]) -> (e: String)
    ensures
        e@ == spec_md5_etag(md5@),
{
    let mut e = String::new();
    proof { reveal_strlit("\""); }
    e.append("\"");
    let h = hex_encode(md5);
    e.append(h.as_str());
    e.append("\"");
    e
}

/// Whether the entity tag that a backend reports is that of the MD5 digest
/// computed while uploading.
pub fn etag_matches(upstream: &str, md5: &[u8]) -> (b: bool)
    ensures
        b == (upstream@ == spec_md5_etag(md5@)),
{
    let expected = md5_etag(md5);
    let a = str_chars(upstream);
    let b = str_chars(expected.as_str());
    if a.len() != b.len() {
        return false;
    }
    let mut i: usize = 0;
    while i < a.len()
        invariant
            a@ == upstream@,
            b@ == spec_md5_etag(md5@),
            a@.len() == b@.len(),
            i <= a@.len(),
            forall|k: int| 0 <= k < i ==> a@[k] == b@[k],
        decreases a@.len() - i,
    {
        if a[i] != b[i] {
            assert(a@[i as int] != b@[i as int]);
            return false;
        }
        i = i + 1;
    }
    assert(a@ =~= b@);
    true
}

/// A ranged read that the gateway asks for, of a copy of the expected size,
/// is answered with exactly the bytes and the `Content-Range` it expects:
/// the store reads the gateway's `Range` value back as the same range,
/// resolves it to itself, and names it in its answer.
pub proof fn lemma_ranged_read_answers_request(cr: ContentRange)
    requires
        cr.start <= cr.end < cr.entire_size,
    ensures
        spec_plan_object_read(cr.entire_size, spec_bytes_range_specifier(render_range_request(cr)))
            == Ok::<ObjectReadPlan, u64>(
            ObjectReadPlan {
                start: cr.start,
                size: (cr.end - cr.start + 1) as u64,
                content_range: Some(cr),
            },
        ),
{
    let r = BytesRange::IntRange(cr.start, Some(cr.end));
    assert(render_range_request(cr) =~= render_bytes_range(r));
    lemma_bytes_range_round_trip(r);
}

/// A read never goes past the object; a whole read (no range, or an empty
/// object) returns all of it with no `Content-Range`; a satisfied range
/// read of a non-empty object returns at least one byte and always names
/// exactly those bytes, out of the object's size, in its `Content-Range`,
/// whatever form the range was asked in; a refused range reports the size.
pub proof fn lemma_read_plan_names_its_bytes(file_size: u64, range: Option<BytesRange>)
    ensures
        spec_plan_object_read(file_size, range) matches Ok(p) ==> p.start + p.size <= file_size,
        (range is None || file_size == 0) ==> spec_plan_object_read(file_size, range) == Ok::<ObjectReadPlan, u64>(
            ObjectReadPlan { start: 0, size: file_size, content_range: None },
        ),
        file_size > 0 && range is Some ==> match spec_plan_object_read(file_size, range) {
            Ok(p) => p.size > 0 && p.content_range == Some(
                ContentRange { start: p.start, end: (p.start + p.size - 1) as u64, entire_size: file_size },
            ),
            Err(e) => e == file_size,
        },
{
}

} // verus!
