//! Object addresses and their place under a storage directory.
//!
//! A path is read as `std::path::Path` reads a Unix path: it is split at
//! each `/`; empty and `.` segments name nothing, `..` names the parent
//! directory; a leading `/` is the root, and a path that starts with the
//! segment `.` starts with the current directory.

use vstd::prelude::*;
use crate::text::str_chars;

verus! {

/// The first position at or after `i` that holds `/`, or the end.
pub open spec fn next_slash(s: Seq<char>, i: int) -> int
    decreases s.len() - i,
{
    if 0 <= i < s.len() && s[i] != '/' {
        next_slash(s, i + 1)
    } else {
        i
    }
}

/// The segments between the slashes of `s`, starting at position `i`.
pub open spec fn segments_from(s: Seq<char>, i: int) -> Seq<Seq<char>>
    decreases s.len() - i,
{
    if i < 0 || i > s.len() {
        Seq::empty()
    } else {
        let j = next_slash(s, i);
        proof {
            lemma_next_slash_bounds(s, i);
        }
        if j >= s.len() {
            seq![s.subrange(i, s.len() as int)]
        } else if j + 1 > s.len() {
            Seq::empty()
        } else {
            seq![s.subrange(i, j)] + segments_from(s, j + 1)
        }
    }
}

/// The segments between the slashes of `s` (at least one, maybe empty).
pub open spec fn segments(s: Seq<char>) -> Seq<Seq<char>> {
    segments_from(s, 0)
}

pub open spec fn dot() -> Seq<char> {
    seq!['.']
}

pub open spec fn dot_dot() -> Seq<char> {
    seq!['.', '.']
}

/// A segment that names a file or directory: not empty, `.` or `..`.
pub open spec fn is_name(seg: Seq<char>) -> bool {
    seg.len() != 0 && seg != dot() && seg != dot_dot()
}

/// `s` starts at the root.
pub open spec fn has_root(s: Seq<char>) -> bool {
    s.len() > 0 && s[0] == '/'
}

/// `s` starts with the current directory (`.` alone or `./...`).
pub open spec fn starts_with_cur_dir(s: Seq<char>) -> bool {
    s.len() > 0 && s[0] == '.' && (s.len() == 1 || s[1] == '/')
}

/// Appends a name to a path, with a `/` between them unless the path is
/// empty or already ends with one.
pub open spec fn push_name(buf: Seq<char>, name: Seq<char>) -> Seq<char> {
    if buf.len() > 0 && buf.last() != '/' {
        buf + seq!['/'] + name
    } else {
        buf + name
    }
}

/// Appends, in order, each segment of `segs` that is a name.
pub open spec fn push_names(buf: Seq<char>, segs: Seq<Seq<char>>) -> Seq<char>
    decreases segs.len(),
{
    if segs.len() == 0 {
        buf
    } else {
        let next = if is_name(segs[0]) {
            push_name(buf, segs[0])
        } else {
            buf
        };
        push_names(next, segs.drop_first())
    }
}

/// The relative address that `address` denotes, with empty and `.` segments
/// dropped; none when it starts at the root or at the current directory, or
/// holds a `..` segment.
pub open spec fn spec_sanitize_address(address: Seq<char>) -> Option<Seq<char>> {
    if has_root(address) || starts_with_cur_dir(address) || segments(address).contains(dot_dot()) {
        None
    } else {
        Some(push_names(Seq::empty(), segments(address)))
    }
}

pub proof fn lemma_next_slash_bounds(s: Seq<char>, i: int)
    requires
        0 <= i <= s.len(),
    ensures
        i <= next_slash(s, i) <= s.len(),
        forall|k: int| i <= k < next_slash(s, i) ==> #[trigger] s[k] != '/',
        next_slash(s, i) < s.len() ==> s[next_slash(s, i)] == '/',
    decreases s.len() - i,
{
    if i < s.len() && s[i] != '/' {
        lemma_next_slash_bounds(s, i + 1);
    }
}

/// The end of the segment that starts at `i`.
fn find_slash(s: &Vec<char>, i: usize) -> (j: usize)
    requires
        i <= s@.len(),
    ensures
        j as int == next_slash(s@, i as int),
{
    let mut j = i;
    while j < s.len() && s[j] != '/'
        invariant
            i <= j <= s@.len(),
            next_slash(s@, i as int) == next_slash(s@, j as int),
        decreases s@.len() - j,
    {
        j = j + 1;
    }
    j
}

/// What kind of segment `s[i..j]` is.
enum SegmentKind {
    Empty,
    Dot,
    DotDot,
    Name,
}

fn classify(s: &Vec<char>, i: usize, j: usize) -> (k: SegmentKind)
    requires
        i <= j <= s@.len(),
    ensures
        (k is Empty) == (s@.subrange(i as int, j as int).len() == 0),
        (k is Dot) == (s@.subrange(i as int, j as int) == dot()),
        (k is DotDot) == (s@.subrange(i as int, j as int) == dot_dot()),
        (k is Name) == is_name(s@.subrange(i as int, j as int)),
{
    let ghost seg = s@.subrange(i as int, j as int);
    assert(dot().len() == 1 && dot_dot().len() == 2);
    if j == i {
        SegmentKind::Empty
    } else if j - i == 1 && s[i] == '.' {
        assert(seg =~= dot());
        SegmentKind::Dot
    } else if j - i == 2 && s[i] == '.' && s[i + 1] == '.' {
        assert(seg =~= dot_dot());
        SegmentKind::DotDot
    } else {
        assert(seg != dot()) by {
            if seg == dot() {
                assert(seg.len() == 1 && seg[0] == s@[i as int]);
            }
        }
        assert(seg != dot_dot()) by {
            if seg == dot_dot() {
                assert(seg.len() == 2 && seg[0] == s@[i as int] && seg[1] == s@[i + 1]);
            }
        }
        SegmentKind::Name
    }
}

/// Appends the name `src[i..j]` to `out`, whose last character is `/`
/// exactly when `ends_with_slash` holds.
fn append_name(out: &mut String, src: &str, i: usize, j: usize, ends_with_slash: bool)
    requires
        i <= j <= src@.len(),
        ends_with_slash == (old(out)@.len() > 0 && old(out)@.last() == '/'),
    ensures
        final(out)@ == push_name(old(out)@, src@.subrange(i as int, j as int)),
{
    let needs_slash = out.unicode_len() > 0 && !ends_with_slash;
    if needs_slash {
        proof { reveal_strlit("/"); }
        out.append("/");
    }
    out.append(src.substring_char(i, j));
}

/// The unfolding of `segments_from` at a segment boundary.
proof fn lemma_segments_step(s: Seq<char>, i: int)
    requires
        0 <= i <= s.len(),
    ensures
        next_slash(s, i) < s.len() ==> segments_from(s, i) == seq![s.subrange(i, next_slash(s, i))]
            + segments_from(s, next_slash(s, i) + 1),
        next_slash(s, i) >= s.len() ==> segments_from(s, i) == seq![s.subrange(i, s.len() as int)],
{
    lemma_next_slash_bounds(s, i);
}

proof fn lemma_push_names_step(buf: Seq<char>, seg: Seq<char>, rest: Seq<Seq<char>>)
    ensures
        push_names(buf, seq![seg] + rest) == push_names(
            if is_name(seg) {
                push_name(buf, seg)
            } else {
                buf
            },
            rest,
        ),
{
    assert((seq![seg] + rest).drop_first() =~= rest);
    assert((seq![seg] + rest)[0] == seg);
}

/// Reads `address` as a relative path and rebuilds it from its names; none
/// when it starts at the root or at the current directory, or climbs with `..`.
pub fn sanitize_address(address: &str) -> (r: Option<String>)
    ensures
        match r {
            Some(a) => spec_sanitize_address(address@) == Some(a@),
            None => spec_sanitize_address(address@) is None,
        },
{
    let s = str_chars(address);
    let n = s.len();
    if n > 0 && s[0] == '/' {
        return None;
    }
    if n > 0 && s[0] == '.' && (n == 1 || s[1] == '/') {
        return None;
    }
    let mut out = String::new();
    let mut start: usize = 0;
    let ghost mut done: Seq<Seq<char>> = Seq::empty();
    loop
        invariant
            n == s@.len(),
            s@ == address@,
            !has_root(s@),
            !starts_with_cur_dir(s@),
            0 <= start <= n,
            segments(s@) == done + segments_from(s@, start as int),
            !done.contains(dot_dot()),
            push_names(out@, segments_from(s@, start as int)) == push_names(
                Seq::empty(),
                segments(s@),
            ),
            out@.len() == 0 || out@.last() != '/',
        decreases n - start,
    {
        let j = find_slash(&s, start);
        proof {
            lemma_next_slash_bounds(s@, start as int);
            lemma_segments_step(s@, start as int);
        }
        let ghost seg = s@.subrange(start as int, j as int);
        let ghost rest = if j < n {
            segments_from(s@, j + 1)
        } else {
            Seq::<Seq<char>>::empty()
        };
        assert(segments_from(s@, start as int) =~= seq![seg] + rest) by {
            if j >= n {
                assert(s@.subrange(start as int, n as int) == seg);
            }
        }
        proof { lemma_push_names_step(out@, seg, rest); }
        match classify(&s, start, j) {
            SegmentKind::DotDot => {
                assert(segments(s@)[done.len() as int] == dot_dot());
                return None;
            },
            SegmentKind::Name => {
                append_name(&mut out, address, start, j, false);
            },
            _ => {},
        }
        proof {
            assert(done + seq![seg] + rest =~= done + (seq![seg] + rest));
            assert forall|k: int| 0 <= k < (done + seq![seg]).len() implies (done + seq![seg])[k]
                != dot_dot() by {
                if k < done.len() {
                    assert((done + seq![seg])[k] == done[k]);
                }
            }
            done = done + seq![seg];
        }
        if j >= n {
            proof {
                assert(segments(s@) =~= done);
                assert(push_names(out@, rest) == out@);
            }
            return Some(out);
        }
        start = j + 1;
    }
}

/// Places `path` under `base_path`: appends its names to the base in order,
/// ignoring empty, `.` and `..` segments and any leading `/`.
pub fn sanitize_path(base_path: &str, path: &str) -> (r: String)
    ensures
        r@ == push_names(base_path@, segments(path@)),
{
    let s = str_chars(path);
    let n = s.len();
    let base = str_chars(base_path);
    let mut ends_with_slash = base.len() > 0 && base[base.len() - 1] == '/';
    let mut out = String::from_str(base_path);
    let mut start: usize = 0;
    loop
        invariant
            n == s@.len(),
            s@ == path@,
            0 <= start <= n,
            push_names(out@, segments_from(s@, start as int)) == push_names(
                base_path@,
                segments(s@),
            ),
            ends_with_slash == (out@.len() > 0 && out@.last() == '/'),
        decreases n - start,
    {
        let j = find_slash(&s, start);
        proof {
            lemma_next_slash_bounds(s@, start as int);
            lemma_segments_step(s@, start as int);
        }
        let ghost seg = s@.subrange(start as int, j as int);
        let ghost rest = if j < n {
            segments_from(s@, j + 1)
        } else {
            Seq::<Seq<char>>::empty()
        };
        assert(segments_from(s@, start as int) =~= seq![seg] + rest) by {
            if j >= n {
                assert(s@.subrange(start as int, n as int) == seg);
            }
        }
        proof { lemma_push_names_step(out@, seg, rest); }
        match classify(&s, start, j) {
            SegmentKind::Name => {
                append_name(&mut out, path, start, j, ends_with_slash);
                proof {
                    assert(seg.len() > 0);
                    assert(seg.last() != '/') by {
                        assert(seg.last() == s@[j - 1]);
                    }
                    assert(out@.last() == seg.last());
                }
                ends_with_slash = false;
            },
            _ => {},
        }
        if j >= n {
            proof {
                assert(push_names(out@, rest) == out@);
            }
            return out;
        }
        start = j + 1;
    }
}

/// `c` holds no `/`.
pub open spec fn no_slash(c: Seq<char>) -> bool {
    forall|k: int| 0 <= k < c.len() ==> c[k] != '/'
}

/// A relative path made only of names: no leading or trailing `/`, and every
/// segment a name.
pub open spec fn is_clean_relative(x: Seq<char>) -> bool {
    x.len() == 0 || (x[0] != '/' && x.last() != '/' && forall|k: int|
        0 <= k < segments(x).len() ==> is_name(#[trigger] segments(x)[k]))
}

proof fn lemma_segments_no_slash(s: Seq<char>, i: int)
    requires
        0 <= i <= s.len(),
    ensures
        forall|k: int| 0 <= k < segments_from(s, i).len() ==> no_slash(
            #[trigger] segments_from(s, i)[k],
        ),
    decreases s.len() - i,
{
    lemma_next_slash_bounds(s, i);
    lemma_segments_step(s, i);
    let j = next_slash(s, i);
    let seg = s.subrange(i, j);
    assert(no_slash(seg)) by {
        assert forall|k: int| 0 <= k < seg.len() implies seg[k] != '/' by {
            assert(seg[k] == s[i + k]);
        }
    }
    if j < s.len() {
        lemma_segments_no_slash(s, j + 1);
        let rest = segments_from(s, j + 1);
        assert forall|k: int| 0 <= k < segments_from(s, i).len() implies no_slash(
            #[trigger] segments_from(s, i)[k],
        ) by {
            if k > 0 {
                assert(segments_from(s, i)[k] == rest[k - 1]);
            }
        }
    } else {
        assert(s.subrange(i, s.len() as int) == seg);
    }
}

/// Where the slashes of `t + "/" + c` are, when `c` holds none.
proof fn lemma_next_slash_extend(t: Seq<char>, c: Seq<char>, i: int)
    requires
        0 <= i <= t.len(),
        no_slash(c),
    ensures
        next_slash(t + seq!['/'] + c, i) == next_slash(t, i),
    decreases t.len() - i,
{
    let u = t + seq!['/'] + c;
    if i < t.len() {
        assert(u[i] == t[i]);
        if t[i] != '/' {
            lemma_next_slash_extend(t, c, i + 1);
        }
    } else {
        assert(u[i] == '/');
    }
}

proof fn lemma_next_slash_in_tail(u: Seq<char>, p: int)
    requires
        0 <= p <= u.len(),
        forall|k: int| p <= k < u.len() ==> u[k] != '/',
    ensures
        next_slash(u, p) == u.len(),
    decreases u.len() - p,
{
    if p < u.len() {
        lemma_next_slash_in_tail(u, p + 1);
    }
}

/// Appending `/` and a slash-free `c` appends `c` to the segments.
proof fn lemma_segments_extend(t: Seq<char>, c: Seq<char>, i: int)
    requires
        0 <= i <= t.len(),
        no_slash(c),
    ensures
        segments_from(t + seq!['/'] + c, i) == segments_from(t, i) + seq![c],
    decreases t.len() - i,
{
    let u = t + seq!['/'] + c;
    lemma_next_slash_extend(t, c, i);
    lemma_next_slash_bounds(t, i);
    lemma_segments_step(t, i);
    lemma_segments_step(u, i);
    let j = next_slash(t, i);
    assert(u.subrange(i, j) =~= t.subrange(i, j));
    if j < t.len() {
        lemma_segments_extend(t, c, j + 1);
        assert(seq![t.subrange(i, j)] + segments_from(t, j + 1) + seq![c] =~= seq![t.subrange(i, j)]
            + (segments_from(t, j + 1) + seq![c]));
    } else {
        let p: int = t.len() as int + 1;
        assert forall|k: int| p <= k < u.len() implies u[k] != '/' by {
            assert(u[k] == c[k - p]);
        }
        lemma_next_slash_in_tail(u, p);
        lemma_segments_step(u, p);
        assert(u.subrange(p, u.len() as int) =~= c);
        assert(t.subrange(i, t.len() as int) =~= t.subrange(i, j));
    }
}

/// A slash-free `c` is a single segment.
proof fn lemma_segments_single(c: Seq<char>)
    requires
        no_slash(c),
    ensures
        segments(c) == seq![c],
{
    lemma_next_slash_in_tail(c, 0);
    lemma_segments_step(c, 0);
    assert(c.subrange(0, c.len() as int) =~= c);
}

/// Appending a slash-free name keeps a path clean.
proof fn lemma_push_name_clean(x: Seq<char>, c: Seq<char>)
    requires
        is_clean_relative(x),
        is_name(c),
        no_slash(c),
    ensures
        is_clean_relative(push_name(x, c)),
{
    if x.len() == 0 {
        assert(push_name(x, c) =~= c);
        lemma_segments_single(c);
    } else {
        let u = x + seq!['/'] + c;
        assert(push_name(x, c) == u);
        lemma_segments_extend(x, c, 0);
        assert(u[0] == x[0]);
        assert(u.last() == c.last());
        assert forall|k: int| 0 <= k < segments(u).len() implies is_name(#[trigger] segments(u)[k]) by {
            if k < segments(x).len() {
                assert(segments(u)[k] == segments(x)[k]);
            } else {
                assert(segments(u)[k] == c);
            }
        }
    }
}

proof fn lemma_push_names_clean(buf: Seq<char>, segs: Seq<Seq<char>>)
    requires
        is_clean_relative(buf),
        forall|k: int| 0 <= k < segs.len() ==> no_slash(#[trigger] segs[k]),
    ensures
        is_clean_relative(push_names(buf, segs)),
    decreases segs.len(),
{
    if segs.len() > 0 {
        let next = if is_name(segs[0]) {
            push_name(buf, segs[0])
        } else {
            buf
        };
        if is_name(segs[0]) {
            lemma_push_name_clean(buf, segs[0]);
        }
        assert forall|k: int| 0 <= k < segs.drop_first().len() implies no_slash(
            #[trigger] segs.drop_first()[k],
        ) by {
            assert(segs.drop_first()[k] == segs[k + 1]);
        }
        lemma_push_names_clean(next, segs.drop_first());
    }
}

/// Rebuilding a clean path from its segments, after the part before
/// position `i`, gives the path back.
proof fn lemma_rebuild_from(x: Seq<char>, i: int)
    requires
        is_clean_relative(x),
        0 < i <= x.len(),
        x[i - 1] == '/',
        forall|k: int| 0 <= k < segments_from(x, i).len() ==> is_name(#[trigger] segments_from(x, i)[k]),
        i - 1 > 0 && x[i - 2] != '/',
    ensures
        push_names(x.take(i - 1), segments_from(x, i)) == x,
    decreases x.len() - i,
{
    lemma_next_slash_bounds(x, i);
    lemma_segments_step(x, i);
    let j = next_slash(x, i);
    let seg = x.subrange(i, j);
    let rest = if j < x.len() {
        segments_from(x, j + 1)
    } else {
        Seq::<Seq<char>>::empty()
    };
    assert(segments_from(x, i) =~= seq![seg] + rest) by {
        if j >= x.len() {
            assert(x.subrange(i, x.len() as int) == seg);
        }
    }
    assert(segments_from(x, i)[0] == seg);
    lemma_push_names_step(x.take(i - 1), seg, rest);
    assert(x.take(i - 1).last() == x[i - 2]);
    assert(push_name(x.take(i - 1), seg) =~= x.take(j));
    if j < x.len() {
        assert forall|k: int| 0 <= k < rest.len() implies is_name(#[trigger] rest[k]) by {
            assert(rest[k] == segments_from(x, i)[k + 1]);
        }
        assert(is_name(seg));
        assert(x[j - 1] == seg.last());
        assert(x.take(j + 1 - 1) == x.take(j));
        lemma_rebuild_from(x, j + 1);
    } else {
        assert(x.take(j) =~= x);
    }
}

/// A clean path is rebuilt exactly from its segments.
proof fn lemma_rebuild(x: Seq<char>)
    requires
        is_clean_relative(x),
    ensures
        push_names(Seq::empty(), segments(x)) == x,
{
    lemma_next_slash_bounds(x, 0);
    lemma_segments_step(x, 0);
    let j = next_slash(x, 0);
    let seg = x.subrange(0, j);
    if x.len() == 0 {
        assert(x.subrange(0, 0) =~= x);
        assert(segments(x) == seq![x]);
        lemma_push_names_step(Seq::empty(), x, Seq::empty());
    } else {
        let rest = if j < x.len() {
            segments_from(x, j + 1)
        } else {
            Seq::<Seq<char>>::empty()
        };
        assert(segments(x) =~= seq![seg] + rest) by {
            if j >= x.len() {
                assert(x.subrange(0, x.len() as int) == seg);
            }
        }
        assert(segments(x)[0] == seg);
        assert(is_name(seg));
        lemma_push_names_step(Seq::empty(), seg, rest);
        assert(push_name(Seq::empty(), seg) =~= seg);
        if j < x.len() {
            assert(j > 0);
            assert forall|k: int| 0 <= k < rest.len() implies is_name(#[trigger] rest[k]) by {
                assert(rest[k] == segments(x)[k + 1]);
            }
            assert(x[j - 1] == seg.last());
            assert(x.take(j) =~= seg);
            lemma_rebuild_from(x, j + 1);
        } else {
            assert(seg =~= x);
        }
    }
}

/// A sanitized address is a clean relative path: it does not start at the
/// root, and each of its segments is a name (never `.`, `..` or empty).
pub proof fn lemma_sanitized_address_is_clean(address: Seq<char>)
    requires
        spec_sanitize_address(address) is Some,
    ensures
        is_clean_relative(spec_sanitize_address(address)->0),
        !has_root(spec_sanitize_address(address)->0),
{
    lemma_segments_no_slash(address, 0);
    lemma_push_names_clean(Seq::empty(), segments(address));
}

/// Sanitizing an address a second time changes nothing.
pub proof fn lemma_sanitize_address_idempotent(address: Seq<char>)
    requires
        spec_sanitize_address(address) is Some,
    ensures
        spec_sanitize_address(spec_sanitize_address(address)->0) == spec_sanitize_address(address),
{
    let x = spec_sanitize_address(address)->0;
    lemma_sanitized_address_is_clean(address);
    if x.len() > 0 {
        lemma_next_slash_bounds(x, 0);
        lemma_segments_step(x, 0);
        assert(is_name(segments(x)[0]));
        if starts_with_cur_dir(x) {
            let j = next_slash(x, 0);
            assert(j == 1) by {
                if x.len() > 1 {
                    lemma_next_slash_bounds(x, 1);
                    assert(next_slash(x, 1) == 1);
                    assert(next_slash(x, 0) == next_slash(x, 1));
                }
            }
            assert(segments(x)[0] =~= dot());
        }
        assert(!segments(x).contains(dot_dot())) by {
            if segments(x).contains(dot_dot()) {
                let k = choose|k: int| 0 <= k < segments(x).len() && segments(x)[k] == dot_dot();
                assert(is_name(segments(x)[k]));
            }
        }
    } else {
        assert(segments(x) == seq![x]) by {
            lemma_segments_step(x, 0);
            assert(x.subrange(0, 0) =~= x);
        }
        assert(!segments(x).contains(dot_dot())) by {
            if segments(x).contains(dot_dot()) {
                let k = choose|k: int| 0 <= k < segments(x).len() && segments(x)[k] == dot_dot();
                assert(segments(x)[k] == x);
            }
        }
    }
    lemma_rebuild(x);
}

/// `buf` lies under `base`: it starts with `base`, and whatever follows is
/// set off from it by a `/` (unless `base` is empty or ends with one).
pub open spec fn lies_under(base: Seq<char>, buf: Seq<char>) -> bool {
    &&& base.len() <= buf.len()
    &&& buf.take(base.len() as int) == base
    &&& (buf.len() > base.len() && base.len() > 0 && base.last() != '/') ==> buf[base.len() as int] == '/'
}

proof fn lemma_push_names_under(base: Seq<char>, buf: Seq<char>, segs: Seq<Seq<char>>)
    requires
        lies_under(base, buf),
    ensures
        lies_under(base, push_names(buf, segs)),
    decreases segs.len(),
{
    if segs.len() > 0 {
        let next = if is_name(segs[0]) {
            push_name(buf, segs[0])
        } else {
            buf
        };
        if is_name(segs[0]) {
            if buf.len() > 0 && buf.last() != '/' {
                assert((buf + seq!['/'] + segs[0]).take(base.len() as int) =~= buf.take(base.len() as int));
                assert((buf + seq!['/'] + segs[0])[buf.len() as int] == '/');
                if buf.len() > base.len() {
                    assert((buf + seq!['/'] + segs[0])[base.len() as int] == buf[base.len() as int]);
                }
            } else {
                assert((buf + segs[0]).take(base.len() as int) =~= buf.take(base.len() as int));
                if buf.len() > base.len() {
                    assert((buf + segs[0])[base.len() as int] == buf[base.len() as int]);
                } else if base.len() > 0 {
                    assert(buf =~= base);
                }
            }
        }
        lemma_push_names_under(base, next, segs.drop_first());
    }
}

/// A path placed under a base never leaves it: the result starts with the
/// base, and what is added is set off from it by a `/`, so that no path can
/// name a sibling of the base or a directory above it.
pub proof fn lemma_sanitized_path_under_base(base: Seq<char>, path: Seq<char>)
    ensures
        lies_under(base, push_names(base, segments(path))),
{
    assert(base.take(base.len() as int) =~= base);
    lemma_push_names_under(base, base, segments(path));
}

/// What the names of `segs` add after a path that is not empty and does not
/// end with `/`: a `/` and the name, for each name in order.
pub open spec fn names_tail(segs: Seq<Seq<char>>) -> Seq<char>
    decreases segs.len(),
{
    if segs.len() == 0 {
        Seq::empty()
    } else if is_name(segs[0]) {
        seq!['/'] + segs[0] + names_tail(segs.drop_first())
    } else {
        names_tail(segs.drop_first())
    }
}

proof fn lemma_push_names_tail(buf: Seq<char>, segs: Seq<Seq<char>>)
    requires
        buf.len() > 0,
        buf.last() != '/',
        forall|k: int| 0 <= k < segs.len() ==> no_slash(#[trigger] segs[k]),
    ensures
        push_names(buf, segs) == buf + names_tail(segs),
    decreases segs.len(),
{
    if segs.len() == 0 {
        assert(buf + names_tail(segs) =~= buf);
    } else {
        assert forall|k: int| 0 <= k < segs.drop_first().len() implies no_slash(#[trigger] segs.drop_first()[k]) by {
            assert(segs.drop_first()[k] == segs[k + 1]);
        }
        if is_name(segs[0]) {
            let next = buf + seq!['/'] + segs[0];
            assert(no_slash(segs[0]));
            assert(next.last() == segs[0].last());
            lemma_push_names_tail(next, segs.drop_first());
            assert(next + names_tail(segs.drop_first()) =~= buf + names_tail(segs));
        } else {
            lemma_push_names_tail(buf, segs.drop_first());
        }
    }
}

proof fn lemma_push_names_join(base: Seq<char>, segs: Seq<Seq<char>>)
    requires
        forall|k: int| 0 <= k < segs.len() ==> no_slash(#[trigger] segs[k]),
        push_names(Seq::empty(), segs).len() > 0,
    ensures
        push_names(base, segs) == push_name(base, push_names(Seq::empty(), segs)),
    decreases segs.len(),
{
    let rest = segs.drop_first();
    assert forall|k: int| 0 <= k < rest.len() implies no_slash(#[trigger] rest[k]) by {
        assert(rest[k] == segs[k + 1]);
    }
    if !is_name(segs[0]) {
        lemma_push_names_join(base, rest);
    } else {
        let n0 = segs[0];
        assert(no_slash(n0));
        assert(push_name(Seq::<char>::empty(), n0) =~= n0);
        lemma_push_names_tail(n0, rest);
        let first = push_name(base, n0);
        assert(first.last() == n0.last());
        lemma_push_names_tail(first, rest);
        if base.len() > 0 && base.last() != '/' {
            assert(first + names_tail(rest) =~= base + seq!['/'] + (n0 + names_tail(rest)));
        } else {
            assert(first + names_tail(rest) =~= base + (n0 + names_tail(rest)));
        }
    }
}

/// Where the address sanitizer accepts a path and leaves a non-empty
/// address, placing the path under a base is joining that address to the
/// base: both keep the same names in the same order.
pub proof fn lemma_sanitize_path_joins_address(base: Seq<char>, path: Seq<char>)
    requires
        spec_sanitize_address(path) matches Some(a) && a.len() > 0,
    ensures
        push_names(base, segments(path)) == push_name(base, spec_sanitize_address(path)->0),
{
    lemma_segments_no_slash(path, 0);
    lemma_push_names_join(base, segments(path));
}

/// Appends a relative path to `base`, with a `/` between them unless `base`
/// is empty or already ends with one (as `PathBuf::push` does).
pub fn push_relative(base: &str, tail: &str) -> (r: String)
    requires
        !has_root(tail@),
    ensures
        r@ == push_name(base@, tail@),
{
    let b = str_chars(base);
    let mut out = String::from_str(base);
    if b.len() > 0 && b[b.len() - 1] != '/' {
        proof { reveal_strlit("/"); }
        out.append("/");
    }
    out.append(tail);
    out
}

} // verus!
