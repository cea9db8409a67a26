use http_serve::{streaming_body, BodyCoding, ChunkedSink, Method, Request, SinkState};

#[test]
fn test_sink_chunking_and_order() {
    let mut sink = ChunkedSink::new(4);
    let mut got: Vec<u8> = Vec::new();
    let chunks = sink.write(b"abcdefghij");
    assert_eq!(chunks.len(), 2);
    for c in &chunks {
        assert_eq!(c.len(), 4);
        got.extend_from_slice(c);
    }
    let more = sink.write(b"kl");
    assert_eq!(more.len(), 1);
    got.extend_from_slice(&more[0]);
    if let Some(p) = sink.close() {
        got.extend_from_slice(&p);
    }
    assert_eq!(got, b"abcdefghijkl".to_vec());
}

#[test]
fn test_sink_flush_partial() {
    let mut sink = ChunkedSink::new(8);
    assert!(sink.write(b"abc").is_empty());
    assert_eq!(sink.flush(), Some(b"abc".to_vec()));
    assert_eq!(sink.flush(), None);
    assert_eq!(sink.close(), None);
}

#[test]
fn test_streaming_build_gzip() {
    let mut req = Request::bare(Method::Get);
    req.accept_encoding = Some(b"gzip".to_vec());
    let (headers, writer) = streaming_body(&req).build();
    assert_eq!(headers.len(), 2);
    assert_eq!(headers[0].0, b"vary".to_vec());
    assert_eq!(headers[0].1, b"accept-encoding".to_vec());
    assert_eq!(headers[1].0, b"content-encoding".to_vec());
    assert_eq!(headers[1].1, b"gzip".to_vec());
    let (coding, _sink) = writer.unwrap();
    assert_eq!(coding, BodyCoding::Gzipped(6));
}

#[test]
fn test_streaming_build_identity() {
    let req = Request::bare(Method::Get);
    let (headers, writer) = streaming_body(&req).build();
    assert_eq!(headers.len(), 1);
    assert_eq!(headers[0].0, b"vary".to_vec());
    let (coding, _sink) = writer.unwrap();
    assert_eq!(coding, BodyCoding::Raw);
}

#[test]
fn test_streaming_build_gzip_level_zero_is_raw() {
    let mut req = Request::bare(Method::Get);
    req.accept_encoding = Some(b"gzip".to_vec());
    let (headers, writer) = streaming_body(&req).gzip_level(0).build();
    assert_eq!(headers.len(), 1);
    let (coding, _sink) = writer.unwrap();
    assert_eq!(coding, BodyCoding::Raw);
}

#[test]
fn test_streaming_build_head_has_no_writer() {
    let mut req = Request::bare(Method::Head);
    req.accept_encoding = Some(b"gzip".to_vec());
    let (headers, writer) = streaming_body(&req).build();
    assert_eq!(headers.len(), 2);
    assert!(writer.is_none());
}

#[test]
fn test_streaming_chunk_size_override() {
    let req = Request::bare(Method::Get);
    let (_headers, writer) = streaming_body(&req).chunk_size(2).build();
    let (_coding, mut sink) = writer.unwrap();
    let chunks = sink.write(b"abcd");
    assert_eq!(chunks.len(), 2);
    assert_eq!(chunks[0], b"ab".to_vec());
    assert_eq!(chunks[1], b"cd".to_vec());
}

#[test]
fn test_sink_states() {
    let mut sink = ChunkedSink::new(4);
    assert_eq!(sink.state(), SinkState::Open);
    sink.write(b"ab");
    sink.close();
    assert_eq!(sink.state(), SinkState::Closed);

    let mut aborted = ChunkedSink::new(4);
    aborted.abort();
    assert_eq!(aborted.state(), SinkState::Aborted);
    aborted.abort();
    assert_eq!(aborted.state(), SinkState::Aborted);
}
