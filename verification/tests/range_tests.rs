use http_serve::range::{parse, parse_range_header, ByteRangeSpec, HttpRange, ResolvedRanges};

fn rng(start: u64, end: u64) -> HttpRange {
    HttpRange { start, end }
}

/// Tests the specific examples enumerated in RFC 7233 (the 14.35.1 set).
#[test]
fn test_resolve_ranges_rfc() {
    let mut v: Vec<HttpRange> = Vec::new();

    v.push(rng(0, 500));
    assert_eq!(
        ResolvedRanges::Satisfiable(v.clone()),
        parse_range_header(Some(&vec![ByteRangeSpec::FromTo(0, 499)]), 10000)
    );

    v.clear();
    v.push(rng(500, 1000));
    assert_eq!(
        ResolvedRanges::Satisfiable(v.clone()),
        parse_range_header(Some(&vec![ByteRangeSpec::FromTo(500, 999)]), 10000)
    );

    v.clear();
    v.push(rng(9500, 10000));
    assert_eq!(
        ResolvedRanges::Satisfiable(v.clone()),
        parse_range_header(Some(&vec![ByteRangeSpec::Last(500)]), 10000)
    );

    v.clear();
    v.push(rng(9500, 10000));
    assert_eq!(
        ResolvedRanges::Satisfiable(v.clone()),
        parse_range_header(Some(&vec![ByteRangeSpec::AllFrom(9500)]), 10000)
    );

    v.clear();
    v.push(rng(0, 1));
    v.push(rng(9999, 10000));
    assert_eq!(
        ResolvedRanges::Satisfiable(v.clone()),
        parse_range_header(
            Some(&vec![ByteRangeSpec::FromTo(0, 0), ByteRangeSpec::Last(1)]),
            10000
        )
    );

    // Non-canonical ranges. Possibly the point of these is that the adjacent
    // and overlapping ranges are supposed to be coalesced into one? This
    // library preserves them as given.

    v.clear();
    v.push(rng(500, 601));
    v.push(rng(601, 1000));
    assert_eq!(
        ResolvedRanges::Satisfiable(v.clone()),
        parse_range_header(
            Some(&vec![
                ByteRangeSpec::FromTo(500, 600),
                ByteRangeSpec::FromTo(601, 999)
            ]),
            10000
        )
    );

    v.clear();
    v.push(rng(500, 701));
    v.push(rng(601, 1000));
    assert_eq!(
        ResolvedRanges::Satisfiable(v.clone()),
        parse_range_header(
            Some(&vec![
                ByteRangeSpec::FromTo(500, 700),
                ByteRangeSpec::FromTo(601, 999)
            ]),
            10000
        )
    );
}

#[test]
fn test_resolve_ranges_satisfiability() {
    assert_eq!(
        ResolvedRanges::NotSatisfiable,
        parse_range_header(Some(&vec![ByteRangeSpec::AllFrom(10000)]), 10000)
    );

    let mut v: Vec<HttpRange> = Vec::new();
    v.push(rng(0, 500));
    assert_eq!(
        ResolvedRanges::Satisfiable(v.clone()),
        parse_range_header(
            Some(&vec![
                ByteRangeSpec::FromTo(0, 499),
                ByteRangeSpec::AllFrom(10000)
            ]),
            10000
        )
    );

    assert_eq!(
        ResolvedRanges::NotSatisfiable,
        parse_range_header(Some(&vec![ByteRangeSpec::Last(1)]), 0)
    );
    assert_eq!(
        ResolvedRanges::NotSatisfiable,
        parse_range_header(Some(&vec![ByteRangeSpec::FromTo(0, 0)]), 0)
    );
    assert_eq!(
        ResolvedRanges::NotSatisfiable,
        parse_range_header(Some(&vec![ByteRangeSpec::AllFrom(0)]), 0)
    );

    v.clear();
    v.push(rng(0, 1));
    assert_eq!(
        ResolvedRanges::Satisfiable(v.clone()),
        parse_range_header(Some(&vec![ByteRangeSpec::FromTo(0, 0)]), 1)
    );

    v.clear();
    v.push(rng(0, 500));
    assert_eq!(
        ResolvedRanges::Satisfiable(v.clone()),
        parse_range_header(Some(&vec![ByteRangeSpec::FromTo(0, 10000)]), 500)
    );
}

#[test]
fn test_resolve_ranges_absent_or_invalid() {
    assert_eq!(ResolvedRanges::Absent, parse_range_header(None, 10000));
}

#[test]
fn test_parse_text_single() {
    let mut v: Vec<HttpRange> = Vec::new();
    v.push(rng(0, 500));
    assert_eq!(
        ResolvedRanges::Satisfiable(v.clone()),
        parse(Some(b"bytes=0-499".as_slice()), 10000)
    );
}

#[test]
fn test_parse_text_suffix_and_open() {
    let mut v: Vec<HttpRange> = Vec::new();
    v.push(rng(9500, 10000));
    assert_eq!(
        ResolvedRanges::Satisfiable(v.clone()),
        parse(Some(b"bytes=-500".as_slice()), 10000)
    );
    assert_eq!(
        ResolvedRanges::Satisfiable(v.clone()),
        parse(Some(b"bytes=9500-".as_slice()), 10000)
    );
}

#[test]
fn test_parse_text_list_whitespace() {
    let mut v: Vec<HttpRange> = Vec::new();
    v.push(rng(0, 1));
    v.push(rng(9999, 10000));
    assert_eq!(
        ResolvedRanges::Satisfiable(v.clone()),
        parse(Some(b"bytes=0-0, -1".as_slice()), 10000)
    );
    assert_eq!(
        ResolvedRanges::Satisfiable(v.clone()),
        parse(Some(b"bytes= 0-0 ,\t-1 ".as_slice()), 10000)
    );
}

#[test]
fn test_parse_text_suffix_zero_not_satisfiable() {
    assert_eq!(ResolvedRanges::NotSatisfiable, parse(Some(b"bytes=-0".as_slice()), 10000));
}

#[test]
fn test_parse_text_not_bytes_form() {
    assert_eq!(ResolvedRanges::Absent, parse(None, 10000));
    assert_eq!(ResolvedRanges::Absent, parse(Some(b"items=0-499".as_slice()), 10000));
    assert_eq!(ResolvedRanges::Absent, parse(Some(b"bytes=abc".as_slice()), 10000));
    assert_eq!(ResolvedRanges::Absent, parse(Some(b"bytes=".as_slice()), 10000));
    assert_eq!(ResolvedRanges::Absent, parse(Some(b"bytes=0-499,".as_slice()), 10000));
    assert_eq!(ResolvedRanges::Absent, parse(Some(b"bytes=1-2-3".as_slice()), 10000));
}

#[test]
fn test_parse_text_u64_bounds() {
    // u64::MAX parses; one past it makes the header unreadable.
    let mut v: Vec<HttpRange> = Vec::new();
    v.push(rng(0, 500));
    assert_eq!(
        ResolvedRanges::Satisfiable(v.clone()),
        parse(Some(b"bytes=0-18446744073709551615".as_slice()), 500)
    );
    assert_eq!(
        ResolvedRanges::Absent,
        parse(Some(b"bytes=0-18446744073709551616".as_slice()), 500)
    );
}
