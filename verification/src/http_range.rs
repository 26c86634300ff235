//! The `Range` request header (RFC 9110, section 14.1.1), restricted to one
//! range in the `bytes` unit, and its resolution against a resource size.

use vstd::prelude::*;
use crate::text::{digits_end, decimal, is_digit, is_ows, lemma_decimal, lemma_u64_at_decimal, lemma_ows_end_frame, ows_end, u64_at, str_chars, skip_ows, parse_u64_at, lemma_ows_end_bounds, lemma_digits_end_bounds};

verus! {

/// One byte range of a `Range` header.
#[derive(Clone, Copy, Debug, PartialEq, Eq)]
pub enum BytesRange {
    /// `first-[last]`: from `first` to `last` (inclusive) or to the end.
    IntRange(u64, Option<u64>),
    /// `-n`: the last `n` bytes.
    SuffixRange(u64),
}

/// A byte range resolved against a resource: `start..=end`, both within it.
#[derive(Clone, Copy, Debug, PartialEq, Eq)]
pub struct NormalizedBytesRange {
    pub start: u64,
    pub end: u64,
}

/// What a range selects of a resource of `entire_size > 0` bytes; `None` when
/// it selects nothing that the resource holds.
pub open spec fn spec_normalize(r: BytesRange, entire_size: u64) -> Option<NormalizedBytesRange> {
    match r {
        BytesRange::IntRange(start, end) => {
            if start >= entire_size {
                None
            } else if end is Some && end->0 < start {
                None
            } else {
                Some(
                    NormalizedBytesRange {
                        start,
                        end: match end {
                            Some(e) => if e < entire_size - 1 {
                                e
                            } else {
                                (entire_size - 1) as u64
                            },
                            None => (entire_size - 1) as u64,
                        },
                    },
                )
            }
        },
        BytesRange::SuffixRange(n) => {
            if n == 0 {
                None
            } else if n >= entire_size {
                Some(NormalizedBytesRange { start: 0, end: (entire_size - 1) as u64 })
            } else {
                Some(NormalizedBytesRange { start: (entire_size - n) as u64, end: (entire_size - 1) as u64 })
            }
        },
    }
}

impl BytesRange {
    /// Resolves the range against a resource of `entire_size` bytes;
    /// `None` means that the range is not satisfiable.
    pub fn normalize(&self, entire_size: u64) -> (r: Option<NormalizedBytesRange>)
        requires
            entire_size > 0,
        ensures
            r == spec_normalize(*self, entire_size),
            r matches Some(n) ==> n.start <= n.end < entire_size,
    {
        match self {
            BytesRange::IntRange(start, end) => {
                if *start >= entire_size {
                    return None;
                }
                if let Some(end) = end {
                    if *end < *start {
                        return None;
                    }
                }
                let last = entire_size - 1;
                Some(
                    NormalizedBytesRange {
                        start: *start,
                        end: match end {
                            Some(e) => if *e < last {
                                *e
                            } else {
                                last
                            },
                            None => last,
                        },
                    },
                )
            },
            BytesRange::SuffixRange(n) => {
                if *n == 0 {
                    return None;
                }
                if *n >= entire_size {
                    return Some(NormalizedBytesRange { start: 0, end: entire_size - 1 });
                }
                Some(NormalizedBytesRange { start: entire_size - *n, end: entire_size - 1 })
            },
        }
    }
}

/// `s` starts with the range unit `bytes`, in any letter case.
pub open spec fn starts_with_bytes_unit(s: Seq<char>) -> bool {
    &&& s.len() >= 5
    &&& s[0] == 'b' || s[0] == 'B'
    &&& s[1] == 'y' || s[1] == 'Y'
    &&& s[2] == 't' || s[2] == 'T'
    &&& s[3] == 'e' || s[3] == 'E'
    &&& s[4] == 's' || s[4] == 'S'
}

/// The range that `s` denotes: the whole of `s` must read
/// `bytes` OWS `=` OWS ( first OWS `-` OWS [last] / `-` n ) OWS,
/// where `bytes` may be written in any letter case and each number is an
/// unsigned decimal that fits in 64 bits.
pub open spec fn spec_bytes_range_specifier(s: Seq<char>) -> Option<BytesRange> {
    if !starts_with_bytes_unit(s) {
        None
    } else {
        let a = ows_end(s, 5);
        if !(a < s.len() && s[a] == '=') {
            None
        } else {
            let b = ows_end(s, a + 1);
            match u64_at(s, b) {
                Some((first, c)) => {
                    let d = ows_end(s, c);
                    if !(d < s.len() && s[d] == '-') {
                        None
                    } else {
                        let e = ows_end(s, d + 1);
                        match u64_at(s, e) {
                            Some((last, f)) => if ows_end(s, f) == s.len() {
                                Some(BytesRange::IntRange(first, Some(last)))
                            } else {
                                None
                            },
                            None => if e == s.len() {
                                Some(BytesRange::IntRange(first, None))
                            } else {
                                None
                            },
                        }
                    }
                },
                None => {
                    if b < s.len() && s[b] == '-' {
                        match u64_at(s, b + 1) {
                            Some((n, g)) => if ows_end(s, g) == s.len() {
                                Some(BytesRange::SuffixRange(n))
                            } else {
                                None
                            },
                            None => None,
                        }
                    } else {
                        None
                    }
                },
            }
        }
    }
}

/// Parses a `Range` header value that holds a single range in the `bytes`
/// unit; `None` when the value is not of that form.
pub fn bytes_range_specifier(input: &str) -> (r: Option<BytesRange>)
    ensures
        r == spec_bytes_range_specifier(input@),
{
    let s = str_chars(input);
    let n = s.len();
    if n < 5 {
        return None;
    }
    if !((s[0] == 'b' || s[0] == 'B') && (s[1] == 'y' || s[1] == 'Y') && (s[2] == 't' || s[2]
        == 'T') && (s[3] == 'e' || s[3] == 'E') && (s[4] == 's' || s[4] == 'S')) {
        return None;
    }
    proof { lemma_ows_end_bounds(s@, 5); }
    let a = skip_ows(&s, 5);
    if !(a < n && s[a] == '=') {
        return None;
    }
    proof { lemma_ows_end_bounds(s@, a + 1); }
    let b = skip_ows(&s, a + 1);
    proof { lemma_ows_end_bounds(s@, b as int); lemma_digits_end_bounds(s@, b as int); }
    match parse_u64_at(&s, b) {
        Some((first, c)) => {
            proof { lemma_ows_end_bounds(s@, c as int); }
            let d = skip_ows(&s, c);
            if !(d < n && s[d] == '-') {
                return None;
            }
            proof { lemma_ows_end_bounds(s@, d + 1); }
            let e = skip_ows(&s, d + 1);
            proof { lemma_digits_end_bounds(s@, e as int); }
            match parse_u64_at(&s, e) {
                Some((last, f)) => {
                    proof { lemma_ows_end_bounds(s@, f as int); }
                    if skip_ows(&s, f) == n {
                        Some(BytesRange::IntRange(first, Some(last)))
                    } else {
                        None
                    }
                },
                None => {
                    if e == n {
                        Some(BytesRange::IntRange(first, None))
                    } else {
                        None
                    }
                },
            }
        },
        None => {
            if b < n && s[b] == '-' {
                proof { lemma_digits_end_bounds(s@, b + 1); }
                match parse_u64_at(&s, b + 1) {
                    Some((v, g)) => {
                        proof { lemma_ows_end_bounds(s@, g as int); }
                        if skip_ows(&s, g) == n {
                            Some(BytesRange::SuffixRange(v))
                        } else {
                            None
                        }
                    },
                    None => None,
                }
            } else {
                None
            }
        },
    }
}

/// The canonical spelling of a range: `bytes=first-last`, `bytes=first-`
/// or `bytes=-n`, with shortest decimal numerals.
pub open spec fn render_bytes_range(r: BytesRange) -> Seq<char> {
    let unit = seq!['b', 'y', 't', 'e', 's', '='];
    match r {
        BytesRange::IntRange(first, Some(last)) => unit + decimal(first as nat) + seq!['-']
            + decimal(last as nat),
        BytesRange::IntRange(first, None) => unit + decimal(first as nat) + seq!['-'],
        BytesRange::SuffixRange(n) => unit + seq!['-'] + decimal(n as nat),
    }
}

/// Every range, written in its canonical spelling, is read back as itself.
pub proof fn lemma_bytes_range_round_trip(r: BytesRange)
    ensures
        spec_bytes_range_specifier(render_bytes_range(r)) == Some(r),
{
    let s = render_bytes_range(r);
    let unit = seq!['b', 'y', 't', 'e', 's', '='];
    assert(s.subrange(0, 6) =~= unit);
    assert(s[5] == '=');
    lemma_ows_end_frame(s, 5, 5);
    match r {
        BytesRange::IntRange(first, Some(last)) => {
            let d1 = decimal(first as nat);
            let d2 = decimal(last as nat);
            lemma_decimal(first as nat);
            lemma_decimal(last as nat);
            let c: int = 6 + d1.len() as int;
            assert(s.subrange(6, c) =~= d1);
            assert(s[6] == d1[0] && is_digit(d1[0]));
            lemma_ows_end_frame(s, 6, 6);
            assert(s[c] == '-');
            lemma_u64_at_decimal(s, 6, first);
            lemma_ows_end_frame(s, c, c);
            lemma_ows_end_frame(s, c + 1, c + 1);
            assert(s.subrange(c + 1, c + 1 + d2.len() as int) =~= d2);
            lemma_u64_at_decimal(s, c + 1, last);
            lemma_ows_end_frame(s, s.len() as int, s.len() as int);
        },
        BytesRange::IntRange(first, None) => {
            let d1 = decimal(first as nat);
            lemma_decimal(first as nat);
            let c: int = 6 + d1.len() as int;
            assert(s.subrange(6, c) =~= d1);
            assert(s[6] == d1[0] && is_digit(d1[0]));
            lemma_ows_end_frame(s, 6, 6);
            assert(s[c] == '-');
            lemma_u64_at_decimal(s, 6, first);
            lemma_ows_end_frame(s, c, c);
            lemma_ows_end_frame(s, c + 1, c + 1);
            assert(s.len() == c + 1);
            assert(digits_end(s, c + 1) == c + 1);
        },
        BytesRange::SuffixRange(n) => {
            let d = decimal(n as nat);
            lemma_decimal(n as nat);
            assert(s[6] == '-');
            lemma_ows_end_frame(s, 6, 6);
            assert(!is_digit(s[6]));
            assert(digits_end(s, 6) == 6);
            assert(s.subrange(7, 7 + d.len() as int) =~= d);
            lemma_u64_at_decimal(s, 7, n);
            lemma_ows_end_frame(s, s.len() as int, s.len() as int);
        },
    }
}

/// What a satisfiable range selects of a resource of `entire_size` bytes:
/// `first-last` runs from `first` to `last` or to the end of the resource,
/// whichever comes first; `first-` runs from `first` to the end; `-n`
/// covers the last `n` bytes (all of them when there are fewer). It is
/// unsatisfiable exactly when it starts beyond the resource, ends before it
/// starts, or asks for no bytes.
pub proof fn lemma_normalize_selects(r: BytesRange, entire_size: u64)
    requires
        entire_size > 0,
    ensures
        match r {
            BytesRange::IntRange(first, None) => match spec_normalize(r, entire_size) {
                Some(n) => first < entire_size && n.start == first && n.end == entire_size - 1,
                None => first >= entire_size,
            },
            BytesRange::IntRange(first, Some(last)) => match spec_normalize(r, entire_size) {
                Some(n) => first < entire_size && first <= last && n.start == first && n.end <= last
                    && n.end < entire_size && (n.end == last || n.end == entire_size - 1),
                None => first >= entire_size || last < first,
            },
            BytesRange::SuffixRange(k) => match spec_normalize(r, entire_size) {
                Some(n) => k > 0 && n.end == entire_size - 1 && n.end - n.start + 1 == (if k < entire_size {
                    k as int
                } else {
                    entire_size as int
                }),
                None => k == 0,
            },
        },
{
}

} // verus!
