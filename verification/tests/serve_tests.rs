use http_serve::{body_bytes, serve, serve_at, MemEntity, Method, Request, Response};

/// The 10000-byte test content: a repeating byte pattern.
fn content() -> Vec<u8> {
    let mut w = Vec::with_capacity(10000);
    for i in 0..10000u64 {
        w.push((i % 251) as u8);
    }
    w
}

fn entity() -> MemEntity {
    MemEntity {
        bytes: content(),
        etag: Some(b"\"abc\"".to_vec()),
        last_modified: None,
        extra_headers: Vec::new(),
    }
}

fn get() -> Request {
    Request::bare(Method::Get)
}

fn header<'a>(resp: &'a Response, name: &str) -> Option<&'a [u8]> {
    for (k, v) in &resp.headers {
        if k.as_slice() == name.as_bytes() {
            return Some(v.as_slice());
        }
    }
    None
}

#[test]
fn test_get_whole() {
    let e = entity();
    let resp = serve(&e, &get());
    assert_eq!(resp.status, 200);
    assert_eq!(header(&resp, "content-length"), Some(b"10000".as_slice()));
    assert_eq!(header(&resp, "accept-ranges"), Some(b"bytes".as_slice()));
    assert_eq!(body_bytes(&e, &resp), content());
}

#[test]
fn test_get_single_range() {
    let e = entity();
    let mut req = get();
    req.range = Some(b"bytes=0-499".to_vec());
    let resp = serve(&e, &req);
    assert_eq!(resp.status, 206);
    assert_eq!(
        header(&resp, "content-range"),
        Some(b"bytes 0-499/10000".as_slice())
    );
    assert_eq!(header(&resp, "content-length"), Some(b"500".as_slice()));
    assert_eq!(body_bytes(&e, &resp), content()[0..500].to_vec());
}

#[test]
fn test_get_suffix_range() {
    let e = entity();
    let mut req = get();
    req.range = Some(b"bytes=-500".to_vec());
    let resp = serve(&e, &req);
    assert_eq!(resp.status, 206);
    assert_eq!(
        header(&resp, "content-range"),
        Some(b"bytes 9500-9999/10000".as_slice())
    );
    assert_eq!(header(&resp, "content-length"), Some(b"500".as_slice()));
    assert_eq!(body_bytes(&e, &resp), content()[9500..10000].to_vec());
}

#[test]
fn test_get_multipart() {
    let e = entity();
    let w = content();
    let mut req = get();
    req.range = Some(b"bytes=0-0,-1".to_vec());
    let resp = serve(&e, &req);
    assert_eq!(resp.status, 206);
    assert_eq!(
        header(&resp, "content-type"),
        Some(b"multipart/byteranges; boundary=B".as_slice())
    );
    let mut expected: Vec<u8> = Vec::new();
    expected.extend_from_slice(b"\r\n--B\r\nContent-Range: bytes 0-0/10000\r\n\r\n");
    expected.extend_from_slice(&w[0..1]);
    expected.extend_from_slice(b"\r\n--B\r\nContent-Range: bytes 9999-9999/10000\r\n\r\n");
    expected.extend_from_slice(&w[9999..10000]);
    expected.extend_from_slice(b"\r\n--B--\r\n");
    let body = body_bytes(&e, &resp);
    assert_eq!(body, expected);
    let cl = String::from_utf8(header(&resp, "content-length").unwrap().to_vec()).unwrap();
    assert_eq!(cl, format!("{}", expected.len()));
}

#[test]
fn test_get_range_not_satisfiable() {
    let e = entity();
    let mut req = get();
    req.range = Some(b"bytes=10000-".to_vec());
    let resp = serve(&e, &req);
    assert_eq!(resp.status, 416);
    assert_eq!(
        header(&resp, "content-range"),
        Some(b"bytes */10000".as_slice())
    );
    assert_eq!(body_bytes(&e, &resp), Vec::<u8>::new());
}

#[test]
fn test_get_if_none_match_matches() {
    let e = entity();
    let mut req = get();
    req.if_none_match = Some(b"\"abc\"".to_vec());
    let resp = serve(&e, &req);
    assert_eq!(resp.status, 304);
    assert_eq!(body_bytes(&e, &resp), Vec::<u8>::new());
    assert_eq!(header(&resp, "etag"), Some(b"\"abc\"".as_slice()));
    assert_eq!(header(&resp, "accept-ranges"), Some(b"bytes".as_slice()));
}

#[test]
fn test_post_method_not_allowed() {
    let e = entity();
    let resp = serve(&e, &Request::bare(Method::Other));
    assert_eq!(resp.status, 405);
    assert_eq!(header(&resp, "allow"), Some(b"get, head".as_slice()));
    assert_eq!(
        body_bytes(&e, &resp),
        b"This resource only supports GET and HEAD.".to_vec()
    );
}

#[test]
fn test_head_same_headers_as_get() {
    let e = entity();
    let get_resp = serve(&e, &get());
    let head_resp = serve(&e, &Request::bare(Method::Head));
    assert_eq!(get_resp.status, head_resp.status);
    assert_eq!(get_resp.headers, head_resp.headers);
    assert_eq!(body_bytes(&e, &head_resp), Vec::<u8>::new());
}

#[test]
fn test_head_with_range() {
    let e = entity();
    let mut req = Request::bare(Method::Head);
    req.range = Some(b"bytes=0-499".to_vec());
    let resp = serve(&e, &req);
    assert_eq!(resp.status, 206);
    assert_eq!(
        header(&resp, "content-range"),
        Some(b"bytes 0-499/10000".as_slice())
    );
    assert_eq!(header(&resp, "content-length"), Some(b"500".as_slice()));
    assert_eq!(body_bytes(&e, &resp), Vec::<u8>::new());
}

#[test]
fn test_get_if_none_match_differs() {
    let e = entity();
    let mut req = get();
    req.if_none_match = Some(b"\"xyz\"".to_vec());
    let resp = serve(&e, &req);
    assert_eq!(resp.status, 200);
}

#[test]
fn test_get_if_none_match_weak_comparison() {
    let e = entity();
    let mut req = get();
    req.if_none_match = Some(b"W/\"abc\"".to_vec());
    let resp = serve(&e, &req);
    assert_eq!(resp.status, 304);
}

#[test]
fn test_get_if_match_fails() {
    let e = entity();
    let mut req = get();
    req.if_match = Some(b"\"other\"".to_vec());
    let resp = serve(&e, &req);
    assert_eq!(resp.status, 412);
    assert_eq!(body_bytes(&e, &resp), b"Precondition failed".to_vec());
}

#[test]
fn test_get_if_match_weak_never_strong() {
    // A weak tag never strongly matches, even when the opaque parts agree.
    let mut e = entity();
    e.etag = Some(b"W/\"abc\"".to_vec());
    let mut req = get();
    req.if_match = Some(b"W/\"abc\"".to_vec());
    let resp = serve(&e, &req);
    assert_eq!(resp.status, 412);
}

#[test]
fn test_get_if_match_star() {
    let e = entity();
    let mut req = get();
    req.if_match = Some(b"*".to_vec());
    let resp = serve(&e, &req);
    assert_eq!(resp.status, 200);
}

#[test]
fn test_get_if_match_unparseable() {
    let e = entity();
    let mut req = get();
    req.if_match = Some(b"abc".to_vec());
    let resp = serve(&e, &req);
    assert_eq!(resp.status, 400);
    assert_eq!(
        body_bytes(&e, &resp),
        b"Unparseable If-Match header".to_vec()
    );
}

#[test]
fn test_if_range_matching_etag_honors_range() {
    let e = entity();
    let mut req = get();
    req.range = Some(b"bytes=0-499".to_vec());
    req.if_range = Some(b"\"abc\"".to_vec());
    let resp = serve(&e, &req);
    assert_eq!(resp.status, 206);
}

#[test]
fn test_if_range_mismatching_etag_serves_whole() {
    let e = entity();
    let mut req = get();
    req.range = Some(b"bytes=0-499".to_vec());
    req.if_range = Some(b"\"other\"".to_vec());
    let resp = serve(&e, &req);
    assert_eq!(resp.status, 200);
    assert_eq!(header(&resp, "content-length"), Some(b"10000".as_slice()));
}

#[test]
fn test_if_range_date_form_serves_whole() {
    let e = entity();
    let mut req = get();
    req.range = Some(b"bytes=0-499".to_vec());
    req.if_range = Some(b"Sun, 06 Nov 1994 08:49:37 GMT".to_vec());
    let resp = serve(&e, &req);
    assert_eq!(resp.status, 200);
}

#[test]
fn test_multipart_fallback_to_whole() {
    // Two ranges whose estimated multipart size reaches the resource length
    // fall back to a plain 200 of the whole entity.
    let mut e = entity();
    e.bytes = content()[0..100].to_vec();
    let mut req = get();
    req.range = Some(b"bytes=0-49,50-99".to_vec());
    let resp = serve(&e, &req);
    assert_eq!(resp.status, 200);
    assert_eq!(header(&resp, "content-length"), Some(b"100".as_slice()));
}

#[test]
fn test_multipart_with_entity_headers() {
    let mut e = entity();
    e.extra_headers = vec![(b"content-type".to_vec(), b"text/html".to_vec())];
    let w = content();
    let mut req = get();
    req.range = Some(b"bytes=0-0,-1".to_vec());
    let resp = serve(&e, &req);
    assert_eq!(resp.status, 206);
    let mut expected: Vec<u8> = Vec::new();
    expected.extend_from_slice(
        b"\r\n--B\r\nContent-Range: bytes 0-0/10000\r\ncontent-type: text/html\r\n\r\n",
    );
    expected.extend_from_slice(&w[0..1]);
    expected.extend_from_slice(
        b"\r\n--B\r\nContent-Range: bytes 9999-9999/10000\r\ncontent-type: text/html\r\n\r\n",
    );
    expected.extend_from_slice(&w[9999..10000]);
    expected.extend_from_slice(b"\r\n--B--\r\n");
    assert_eq!(body_bytes(&e, &resp), expected);
}

#[test]
fn test_entity_headers_on_full_response() {
    let mut e = entity();
    e.extra_headers = vec![(b"content-type".to_vec(), b"text/html".to_vec())];
    let resp = serve(&e, &get());
    assert_eq!(resp.status, 200);
    assert_eq!(header(&resp, "content-type"), Some(b"text/html".as_slice()));
}

#[test]
fn test_date_and_last_modified_headers() {
    let lm: u64 = 784111777;
    let now: u64 = 1475419451;
    let mut e = entity();
    e.last_modified = Some(lm);
    let resp = serve_at(&e, &get(), now);
    assert_eq!(resp.status, 200);
    assert_eq!(
        header(&resp, "date"),
        Some(b"Sun, 02 Oct 2016 14:44:11 GMT".as_slice())
    );
    // Last-Modified is clamped to Date; here it is older, so kept.
    assert_eq!(
        header(&resp, "last-modified"),
        Some(b"Sun, 06 Nov 1994 08:49:37 GMT".as_slice())
    );
}

#[test]
fn test_last_modified_clamped_to_now() {
    let lm: u64 = 1475419451;
    let now: u64 = 784111777;
    let mut e = entity();
    e.last_modified = Some(lm);
    let resp = serve_at(&e, &get(), now);
    assert_eq!(
        header(&resp, "last-modified"),
        Some(b"Sun, 06 Nov 1994 08:49:37 GMT".as_slice())
    );
}

#[test]
fn test_if_modified_since_not_modified() {
    let lm: u64 = 784111777;
    let mut e = entity();
    e.etag = None;
    e.last_modified = Some(lm);
    let mut req = get();
    req.if_modified_since = Some(b"Sun, 06 Nov 1994 08:49:37 GMT".to_vec());
    let resp = serve(&e, &req);
    assert_eq!(resp.status, 304);
}

#[test]
fn test_if_modified_since_modified() {
    let lm: u64 = 784111777;
    let mut e = entity();
    e.etag = None;
    e.last_modified = Some(lm);
    let mut req = get();
    // One second before the modification time.
    req.if_modified_since = Some(b"Sun, 06 Nov 1994 08:49:36 GMT".to_vec());
    let resp = serve(&e, &req);
    assert_eq!(resp.status, 200);
}

#[test]
fn test_if_unmodified_since_fails() {
    let lm: u64 = 784111777;
    let mut e = entity();
    e.etag = None;
    e.last_modified = Some(lm);
    let mut req = get();
    req.if_unmodified_since = Some(b"Sun, 06 Nov 1994 08:49:36 GMT".to_vec());
    let resp = serve(&e, &req);
    assert_eq!(resp.status, 412);
}

#[test]
fn test_if_modified_since_unparseable() {
    let mut e = entity();
    e.last_modified = Some(784111777);
    let mut req = get();
    req.if_modified_since = Some(b"yesterday".to_vec());
    let resp = serve(&e, &req);
    assert_eq!(resp.status, 400);
    assert_eq!(
        body_bytes(&e, &resp),
        b"Unparseable If-Modified-Since".to_vec()
    );
}

#[test]
fn test_date_headers_only_with_last_modified() {
    let e = entity();
    let resp = serve(&e, &get());
    assert_eq!(header(&resp, "date"), None);
    assert_eq!(header(&resp, "last-modified"), None);
}

#[test]
fn test_if_unmodified_since_unparseable() {
    let mut e = entity();
    e.last_modified = Some(784111777);
    let mut req = get();
    req.if_unmodified_since = Some(b"not a date".to_vec());
    let resp = serve(&e, &req);
    assert_eq!(resp.status, 400);
    assert_eq!(
        body_bytes(&e, &resp),
        b"Unparseable If-Unmodified-Since".to_vec()
    );
}

#[test]
fn test_if_none_match_unparseable_is_ignored() {
    // An unreadable If-None-Match header is ignored rather than answered
    // with an error.
    let e = entity();
    let mut req = get();
    req.if_none_match = Some(b"junk".to_vec());
    let resp = serve(&e, &req);
    assert_eq!(resp.status, 200);
}

#[test]
fn test_head_multipart_empty_body_same_headers() {
    let e = entity();
    let mut get_req = get();
    get_req.range = Some(b"bytes=0-0,-1".to_vec());
    let mut head_req = Request::bare(Method::Head);
    head_req.range = Some(b"bytes=0-0,-1".to_vec());
    let get_resp = serve(&e, &get_req);
    let head_resp = serve(&e, &head_req);
    assert_eq!(head_resp.status, 206);
    assert_eq!(get_resp.headers, head_resp.headers);
    assert_eq!(body_bytes(&e, &head_resp), Vec::<u8>::new());
}
