//! The `Content-Range` response header for a single satisfied byte range:
//! `bytes first-last/complete-length` (RFC 9110, section 14.4).

use vstd::prelude::*;
use crate::text::{
    decimal, digits_end, is_digit, lemma_decimal, lemma_u64_at_decimal, push_decimal, u64_at,
    str_chars, parse_u64_at, lemma_digits_end_bounds,
};

verus! {

/// A satisfied byte range `start..=end` of a representation of
/// `entire_size` bytes.
#[derive(Clone, Copy, Debug, PartialEq, Eq, Structural)]
pub struct ContentRange {
    pub start: u64,
    pub end: u64,
    pub entire_size: u64,
}

/// The header value `bytes start-end/entire_size`.
pub open spec fn render_content_range(r: ContentRange) -> Seq<char> {
    seq!['b', 'y', 't', 'e', 's', ' '] + decimal(r.start as nat) + seq!['-'] + decimal(
        r.end as nat,
    ) + seq!['/'] + decimal(r.entire_size as nat)
}

/// The range that a `Content-Range` value names: the whole of `s` must read
/// `bytes ` first `-` last `/` length, with unsigned decimals that fit in
/// 64 bits.
pub open spec fn spec_parse_content_range(s: Seq<char>) -> Option<ContentRange> {
    if !(s.len() >= 6 && s.take(6) == seq!['b', 'y', 't', 'e', 's', ' ']) {
        None
    } else {
        match u64_at(s, 6) {
            Some((start, a)) => if a < s.len() && s[a] == '-' {
                match u64_at(s, a + 1) {
                    Some((end, b)) => if b < s.len() && s[b] == '/' {
                        match u64_at(s, b + 1) {
                            Some((entire_size, c)) => if c == s.len() {
                                Some(ContentRange { start, end, entire_size })
                            } else {
                                None
                            },
                            None => None,
                        }
                    } else {
                        None
                    },
                    None => None,
                }
            } else {
                None
            },
            None => None,
        }
    }
}

/// The `Range` request value `bytes=start-end` that asks for `r`.
pub open spec fn render_range_request(r: ContentRange) -> Seq<char> {
    seq!['b', 'y', 't', 'e', 's', '='] + decimal(r.start as nat) + seq!['-'] + decimal(
        r.end as nat,
    )
}

impl ContentRange {
    /// The number of bytes in the range.
    pub fn size(&self) -> (n: u64)
        requires
            self.start <= self.end,
            self.end - self.start < u64::MAX,
        ensures
            n == self.end - self.start + 1,
    {
        (self.end - self.start) + 1
    }

    /// The header value `bytes start-end/entire_size`.
    pub fn to_string(&self) -> (s: String)
        requires
            self.start <= self.end,
            self.end < self.entire_size,
        ensures
            s@ == render_content_range(*self),
    {
        let mut s = String::new();
        proof { reveal_strlit("bytes "); reveal_strlit("-"); reveal_strlit("/"); }
        s.append("bytes ");
        push_decimal(&mut s, self.start);
        s.append("-");
        push_decimal(&mut s, self.end);
        s.append("/");
        push_decimal(&mut s, self.entire_size);
        s
    }

    /// Reads a `Content-Range` value of the form `bytes first-last/length`;
    /// `None` when the value is not of that form.
    pub fn parse(value: &str) -> (r: Option<ContentRange>)
        ensures
            r == spec_parse_content_range(value@),
    {
        let s = str_chars(value);
        let n = s.len();
        if n < 6 {
            return None;
        }
        if !(s[0] == 'b' && s[1] == 'y' && s[2] == 't' && s[3] == 'e' && s[4] == 's' && s[5]
            == ' ') {
            proof {
                if s@.take(6) == seq!['b', 'y', 't', 'e', 's', ' '] {
                    assert(s@[0] == s@.take(6)[0]);
                    assert(s@[1] == s@.take(6)[1]);
                    assert(s@[2] == s@.take(6)[2]);
                    assert(s@[3] == s@.take(6)[3]);
                    assert(s@[4] == s@.take(6)[4]);
                    assert(s@[5] == s@.take(6)[5]);
                }
            }
            return None;
        }
        assert(s@.take(6) =~= seq!['b', 'y', 't', 'e', 's', ' ']);
        proof { lemma_digits_end_bounds(s@, 6); }
        let (start, a) = match parse_u64_at(&s, 6) {
            Some(x) => x,
            None => return None,
        };
        if !(a < n && s[a] == '-') {
            return None;
        }
        proof { lemma_digits_end_bounds(s@, a + 1); }
        let (end, b) = match parse_u64_at(&s, a + 1) {
            Some(x) => x,
            None => return None,
        };
        if !(b < n && s[b] == '/') {
            return None;
        }
        proof { lemma_digits_end_bounds(s@, b + 1); }
        let (entire_size, c) = match parse_u64_at(&s, b + 1) {
            Some(x) => x,
            None => return None,
        };
        if c != n {
            return None;
        }
        Some(ContentRange { start, end, entire_size })
    }

    /// The `Range` request value `bytes=start-end` that asks for this range.
    pub fn to_range_request(&self) -> (s: String)
        ensures
            s@ == render_range_request(*self),
    {
        let mut s = String::new();
        proof { reveal_strlit("bytes="); reveal_strlit("-"); }
        s.append("bytes=");
        push_decimal(&mut s, self.start);
        s.append("-");
        push_decimal(&mut s, self.end);
        s
    }
}

/// Whether a response's `Content-Range` value names exactly `expected`;
/// false when the header is missing or cannot be read.
pub fn matches_content_range(header: Option<&str>, expected: &ContentRange) -> (b: bool)
    ensures
        b == (header matches Some(h) && spec_parse_content_range(h@) == Some(*expected)),
{
    match header {
        Some(h) => match ContentRange::parse(h) {
            Some(actual) => actual == *expected,
            None => false,
        },
        None => false,
    }
}

/// The `Content-Range` value of a refused range request on a representation
/// of `entire_size` bytes: `bytes */entire_size`.
pub fn unsatisfied_range(entire_size: u64) -> (s: String)
    ensures
        s@ == seq!['b', 'y', 't', 'e', 's', ' ', '*', '/'] + decimal(entire_size as nat),
{
    let mut s = String::new();
    proof { reveal_strlit("bytes */"); }
    s.append("bytes */");
    push_decimal(&mut s, entire_size);
    s
}

/// Every range, written as a `Content-Range` value, is read back as itself.
pub proof fn lemma_content_range_round_trip(r: ContentRange)
    ensures
        spec_parse_content_range(render_content_range(r)) == Some(r),
{
    let s = render_content_range(r);
    let d1 = decimal(r.start as nat);
    let d2 = decimal(r.end as nat);
    let d3 = decimal(r.entire_size as nat);
    lemma_decimal(r.start as nat);
    lemma_decimal(r.end as nat);
    lemma_decimal(r.entire_size as nat);
    assert(s.take(6) =~= seq!['b', 'y', 't', 'e', 's', ' ']);
    let a: int = 6 + d1.len() as int;
    let b: int = a + 1 + d2.len() as int;
    assert(s.subrange(6, a) =~= d1);
    assert(s[a] == '-');
    lemma_u64_at_decimal(s, 6, r.start);
    assert(s.subrange(a + 1, b) =~= d2);
    assert(s[b] == '/');
    lemma_u64_at_decimal(s, a + 1, r.end);
    assert(s.subrange(b + 1, b + 1 + d3.len() as int) =~= d3);
    lemma_u64_at_decimal(s, b + 1, r.entire_size);
}

} // verus!
