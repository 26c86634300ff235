use blobservices::http_range::{bytes_range_specifier, BytesRange, NormalizedBytesRange};
use blobservices::rfc::ows_rfc9110;

use nom::branch::alt;
use nom::bytes::complete::{tag, tag_no_case};
use nom::combinator::{all_consuming, opt, recognize};
use nom::multi::many0;
use nom::sequence::{delimited, preceded, separated_pair};
use nom::{IResult, Parser};

/// The grammar written with parser combinators, as an independent reading
/// of the same rules.
fn reference_ows(input: &str) -> IResult<&str, ()> {
    recognize(many0(alt((tag(" "), tag("\t")))))
        .parse(input)
        .map(|(rest, _)| (rest, ()))
}

fn reference_parse(input: &str) -> Option<BytesRange> {
    let parsed: IResult<&str, BytesRange> = all_consuming(delimited(
        preceded(
            tag_no_case("bytes"),
            delimited(reference_ows, tag("="), reference_ows),
        ),
        alt((
            separated_pair(
                nom::character::complete::u64,
                delimited(reference_ows, tag("-"), reference_ows),
                opt(nom::character::complete::u64),
            )
            .map(|x| BytesRange::IntRange(x.0, x.1)),
            preceded(tag("-"), nom::character::complete::u64).map(BytesRange::SuffixRange),
        )),
        reference_ows,
    ))
    .parse(input);
    parsed.ok().map(|(_, r)| r)
}

#[test]
fn parses_closed_range() {
    assert_eq!(bytes_range_specifier("bytes=1-2"), Some(BytesRange::IntRange(1, Some(2))));
}

#[test]
fn parses_open_range() {
    assert_eq!(bytes_range_specifier("bytes=3-"), Some(BytesRange::IntRange(3, None)));
}

#[test]
fn parses_suffix_range() {
    assert_eq!(bytes_range_specifier("bytes=-3"), Some(BytesRange::SuffixRange(3)));
}

#[test]
fn unit_is_case_insensitive_and_white_space_is_optional() {
    assert_eq!(
        bytes_range_specifier("BYTES \t= 10 - 20\t "),
        Some(BytesRange::IntRange(10, Some(20)))
    );
    assert_eq!(bytes_range_specifier("ByTeS=0-"), Some(BytesRange::IntRange(0, None)));
}

#[test]
fn refuses_other_units_and_lists() {
    assert_eq!(bytes_range_specifier("items=1-2"), None);
    assert_eq!(bytes_range_specifier("bytes=1-2,3-4"), None);
    assert_eq!(bytes_range_specifier("bytes=a-b"), None);
    assert_eq!(bytes_range_specifier("bytes="), None);
    assert_eq!(bytes_range_specifier(""), None);
    assert_eq!(bytes_range_specifier(" bytes=1-2"), None);
    assert_eq!(bytes_range_specifier("bytes=- 3"), None);
}

#[test]
fn refuses_numbers_beyond_64_bits() {
    assert_eq!(
        bytes_range_specifier("bytes=18446744073709551615-"),
        Some(BytesRange::IntRange(u64::MAX, None))
    );
    assert_eq!(bytes_range_specifier("bytes=18446744073709551616-"), None);
    assert_eq!(bytes_range_specifier("bytes=0-18446744073709551616"), None);
}

#[test]
fn agrees_with_combinator_grammar() {
    let pieces = [
        "", "bytes", "Bytes", "byte", "=", " ", "\t", "-", "0", "1", "42", "007",
        "18446744073709551615", "18446744073709551616", ",", "x", "+1",
    ];
    let mut inputs: Vec<String> = Vec::new();
    for a in pieces.iter() {
        for b in pieces.iter() {
            for c in pieces.iter() {
                for d in pieces.iter() {
                    inputs.push(format!("bytes={}{}{}{}", a, b, c, d));
                }
                inputs.push(format!("{}{}{}", a, b, c));
            }
        }
    }
    for input in inputs.iter() {
        assert_eq!(
            bytes_range_specifier(input),
            reference_parse(input),
            "input {:?}",
            input
        );
    }
}

#[test]
fn optional_white_space_is_skipped() {
    assert_eq!(ows_rfc9110(" \t x "), "x ");
    assert_eq!(ows_rfc9110("x"), "x");
    assert_eq!(ows_rfc9110(""), "");
    for input in [" a", "\t\tb", "c", "  ", "\u{3000}d"] {
        let (rest, _) = reference_ows(input).unwrap();
        assert_eq!(ows_rfc9110(input), rest);
    }
}

#[test]
fn normalizes_closed_ranges() {
    assert_eq!(
        BytesRange::IntRange(2, Some(5)).normalize(10),
        Some(NormalizedBytesRange { start: 2, end: 5 })
    );
    assert_eq!(
        BytesRange::IntRange(2, Some(50)).normalize(10),
        Some(NormalizedBytesRange { start: 2, end: 9 })
    );
    assert_eq!(
        BytesRange::IntRange(9, None).normalize(10),
        Some(NormalizedBytesRange { start: 9, end: 9 })
    );
}

#[test]
fn refuses_unsatisfiable_ranges() {
    assert_eq!(BytesRange::IntRange(10, None).normalize(10), None);
    assert_eq!(BytesRange::IntRange(5, Some(4)).normalize(10), None);
    assert_eq!(BytesRange::SuffixRange(0).normalize(10), None);
}

#[test]
fn normalizes_suffix_ranges() {
    assert_eq!(
        BytesRange::SuffixRange(3).normalize(10),
        Some(NormalizedBytesRange { start: 7, end: 9 })
    );
    assert_eq!(
        BytesRange::SuffixRange(10).normalize(10),
        Some(NormalizedBytesRange { start: 0, end: 9 })
    );
    assert_eq!(
        BytesRange::SuffixRange(u64::MAX).normalize(1),
        Some(NormalizedBytesRange { start: 0, end: 0 })
    );
}

#[test]
fn normalized_ranges_lie_within_the_resource() {
    let ranges = [
        BytesRange::IntRange(0, None),
        BytesRange::IntRange(0, Some(0)),
        BytesRange::IntRange(3, Some(100)),
        BytesRange::IntRange(u64::MAX - 1, Some(u64::MAX)),
        BytesRange::SuffixRange(1),
        BytesRange::SuffixRange(7),
        BytesRange::SuffixRange(u64::MAX),
    ];
    for size in [1u64, 2, 7, 100, u64::MAX] {
        for r in ranges.iter() {
            if let Some(n) = r.normalize(size) {
                assert!(n.start <= n.end && n.end < size);
            }
        }
    }
}

#[test]
fn written_ranges_read_back() {
    for (start, end) in [(0u64, Some(0u64)), (5, None), (7, Some(3)), (u64::MAX, Some(u64::MAX))] {
        let text = match end {
            Some(e) => format!("bytes={}-{}", start, e),
            None => format!("bytes={}-", start),
        };
        assert_eq!(bytes_range_specifier(&text), Some(BytesRange::IntRange(start, end)));
    }
    for n in [0u64, 1, 1000, u64::MAX] {
        assert_eq!(bytes_range_specifier(&format!("bytes=-{}", n)), Some(BytesRange::SuffixRange(n)));
    }
}
