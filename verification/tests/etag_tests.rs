use http_serve::etag::{any_match, none_match, strong_eq, weak_eq};

#[test]
fn test_strong_eq() {
    assert!(strong_eq(b"\"a\"", b"\"a\""));
    assert!(!strong_eq(b"\"a\"", b"\"b\""));
    assert!(!strong_eq(b"W/\"a\"", b"\"a\""));
    assert!(!strong_eq(b"\"a\"", b"W/\"a\""));
    assert!(!strong_eq(b"W/\"a\"", b"W/\"a\""));
}

#[test]
fn test_weak_eq() {
    assert!(weak_eq(b"\"a\"", b"\"a\""));
    assert!(weak_eq(b"W/\"a\"", b"\"a\""));
    assert!(weak_eq(b"\"a\"", b"W/\"a\""));
    assert!(weak_eq(b"W/\"a\"", b"W/\"a\""));
    assert!(!weak_eq(b"W/\"a\"", b"W/\"b\""));
}

#[test]
fn test_any_match_lists() {
    let etag = Some(b"\"abc\"".to_vec());
    assert_eq!(any_match(&etag, None), Ok(true));
    assert_eq!(any_match(&etag, Some(b"*")), Ok(true));
    assert_eq!(any_match(&etag, Some(b"\"abc\"")), Ok(true));
    assert_eq!(any_match(&etag, Some(b"\"xyz\", \"abc\"")), Ok(true));
    assert_eq!(any_match(&etag, Some(b"\"xyz\"")), Ok(false));
    assert_eq!(any_match(&etag, Some(b"W/\"abc\"")), Ok(false));
    assert_eq!(any_match(&None, Some(b"\"abc\"")), Ok(false));
    assert_eq!(any_match(&etag, Some(b"abc")), Err(()));
    assert_eq!(any_match(&etag, Some(b"\"abc")), Err(()));
    assert_eq!(any_match(&etag, Some(b"")), Err(()));
}

#[test]
fn test_none_match_lists() {
    let etag = Some(b"\"abc\"".to_vec());
    assert_eq!(none_match(&etag, None), Ok(true));
    assert_eq!(none_match(&etag, Some(b"*")), Ok(false));
    assert_eq!(none_match(&etag, Some(b"\"abc\"")), Ok(false));
    assert_eq!(none_match(&etag, Some(b"W/\"abc\"")), Ok(false));
    assert_eq!(none_match(&etag, Some(b"\"xyz\"")), Ok(true));
    assert_eq!(none_match(&None, Some(b"\"abc\"")), Ok(true));
    assert_eq!(none_match(&etag, Some(b"oops")), Err(()));
}

#[test]
fn test_tag_with_comma_inside() {
    // A comma inside the quoted opaque part is part of the tag, not a
    // list separator.
    let etag = Some(b"\"a,b\"".to_vec());
    assert_eq!(any_match(&etag, Some(b"\"a,b\"")), Ok(true));
    assert_eq!(any_match(&etag, Some(b"\"x\", \"a,b\"")), Ok(true));
}
