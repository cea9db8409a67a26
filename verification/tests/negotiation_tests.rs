use http_serve::should_gzip;

#[test]
fn test_should_gzip_absent_header() {
    assert!(!should_gzip(None));
}

#[test]
fn test_should_gzip_plain_tokens() {
    assert!(should_gzip(Some(b"gzip".as_slice())));
    assert!(!should_gzip(Some(b"identity".as_slice())));
    assert!(should_gzip(Some(b"gzip, identity".as_slice())));
    assert!(should_gzip(Some(b"*".as_slice())));
}

#[test]
fn test_should_gzip_qvalues() {
    assert!(!should_gzip(Some(b"gzip;q=0".as_slice())));
    assert!(!should_gzip(Some(b"gzip;q=0.5, identity;q=0.8".as_slice())));
    assert!(should_gzip(Some(b"gzip;q=0.8, identity;q=0.5".as_slice())));
    // identity defaults to the full weight, so a tiny gzip weight loses.
    assert!(!should_gzip(Some(b"gzip;q=0.001".as_slice())));
    assert!(should_gzip(Some(b"gzip;q=1.000, identity;q=1".as_slice())));
    assert!(!should_gzip(Some(b"identity;q=0, gzip;q=0".as_slice())));
}

#[test]
fn test_should_gzip_star_fallback() {
    // gzip inherits the * weight; identity keeps its own.
    assert!(should_gzip(Some(b"*;q=0.5, identity;q=0.4".as_slice())));
    assert!(!should_gzip(Some(b"*;q=0".as_slice())));
    assert!(!should_gzip(Some(b"gzip;q=0.4, *;q=0.5".as_slice())));
}

#[test]
fn test_should_gzip_whitespace_and_case() {
    assert!(should_gzip(Some(b" GZip ; q=0.9 , identity ; q=0.8 ".as_slice())));
}

#[test]
fn test_should_gzip_unparseable() {
    // Any malformed element makes the whole header unusable: identity wins.
    assert!(!should_gzip(Some(b"gzip;q=1.001".as_slice())));
    assert!(!should_gzip(Some(b"gzip;q=0.5555".as_slice())));
    assert!(!should_gzip(Some(b"gzip;level=2".as_slice())));
    assert!(!should_gzip(Some(b"gzip,,identity".as_slice())));
    assert!(!should_gzip(Some(b"gzip;q=.5".as_slice())));
}

#[test]
fn test_should_gzip_monotone_instance() {
    // Raising gzip's q-value, all else equal, cannot turn the decision off.
    assert!(!should_gzip(Some(b"gzip;q=0.4, identity;q=0.5".as_slice())));
    assert!(should_gzip(Some(b"gzip;q=0.5, identity;q=0.5".as_slice())));
    assert!(should_gzip(Some(b"gzip;q=0.6, identity;q=0.5".as_slice())));
}

#[test]
fn test_should_gzip_last_occurrence_wins() {
    assert!(!should_gzip(Some(b"gzip;q=1, gzip;q=0".as_slice())));
    assert!(should_gzip(Some(b"gzip;q=0, gzip;q=1".as_slice())));
}
