//! Laws of `serve`, stated over its specification and proved once for
//! every entity value, request and clock instant.

use vstd::prelude::*;
use vstd::string::*;

use crate::dec::dec_digits;
use crate::etag::{lemma_tag_list_not_star, spec_parse_tag_list, spec_weak_eq};
use crate::range::{lemma_parse_fromto, spec_fromto_header, spec_resolve_list, spec_resolve_one,
    ByteRangeSpec, HttpRange};
use crate::serving::{accept_ranges_header, lemma_body_bytes_push, lemma_mp_len_exact,
    lemma_mp_len_int_nonneg, lemma_multipart_chunks_len, mp_trailer, sat_add, spec_body_bytes,
    spec_common_headers, spec_content_range_value, spec_mp_len, spec_mp_len_int,
    spec_multipart_chunks, spec_multipart_resp, spec_part_headers_block, spec_serve, ChunkView,
    EntityView, Method, RequestView};

verus! {

/// A GET whose only header is `Range: bytes={a}-{b}`, with `[a, b]` inside
/// the entity, is answered 206 with a body of exactly the entity's bytes
/// over `[a, b]` and a `Content-Length` of the interval's width.
pub proof fn lemma_serve_range_body(ev: EntityView, rq: RequestView, now: u64, a: u64, b: u64)
    requires
        rq.method == Method::Get,
        rq.if_match is None,
        rq.if_none_match is None,
        rq.if_unmodified_since is None,
        rq.if_modified_since is None,
        rq.if_range is None,
        rq.range == Option::Some(spec_fromto_header(a, b)),
        ev.bytes.len() <= u64::MAX,
        a <= b,
        b < ev.bytes.len(),
    ensures
        spec_serve(ev, rq, now).status == 206,
        spec_serve(ev, rq, now).body == seq![ChunkView::FromEntity(a, (b + 1) as u64)],
        spec_body_bytes(spec_serve(ev, rq, now).body, ev.bytes) == ev.bytes.subrange(
            a as int,
            b as int + 1,
        ),
        exists|i: int|
            0 <= i < spec_serve(ev, rq, now).headers.len() && spec_serve(ev, rq, now).headers[i]
                == (("content-length".spec_bytes(), dec_digits((b + 1 - a) as u64))),
{
    let len = ev.bytes.len() as u64;
    lemma_parse_fromto(a, b, len);
    let r = HttpRange { start: a, end: (b + 1) as u64 };
    let specs = seq![ByteRangeSpec::FromTo(a, b)];
    assert(specs.drop_last() =~= Seq::<ByteRangeSpec>::empty());
    assert(specs.last() == ByteRangeSpec::FromTo(a, b));
    assert(spec_resolve_one(ByteRangeSpec::FromTo(a, b), len) == Option::Some(r));
    assert(spec_resolve_list(Seq::<ByteRangeSpec>::empty(), len) == Seq::<HttpRange>::empty());
    assert(spec_resolve_list(specs, len) =~= seq![r]);
    let resp = spec_serve(ev, rq, now);
    assert(resp.status == 206);
    assert(resp.body =~= seq![ChunkView::FromEntity(a, (b + 1) as u64)]);
    assert(spec_body_bytes(resp.body, ev.bytes) == ev.bytes.subrange(a as int, b as int + 1)) by {
        assert(resp.body.drop_last() =~= Seq::<ChunkView>::empty());
        assert(spec_body_bytes(Seq::<ChunkView>::empty(), ev.bytes) == Seq::<u8>::empty());
        assert(Seq::<u8>::empty() + ev.bytes.subrange(a as int, b as int + 1) =~= ev.bytes.subrange(
            a as int,
            b as int + 1,
        ));
    }
    let hc = spec_common_headers(ev.etag, ev.last_modified, now);
    assert(resp.headers[hc.len() as int + 1] == (
        (
            "content-length".spec_bytes(),
            dec_digits((b + 1 - a) as u64),
        )
    ));
}

/// A HEAD request is answered with exactly the status and header set of
/// the corresponding GET; only the body differs.
pub proof fn lemma_head_get_same_headers(
    ev: EntityView,
    get_rq: RequestView,
    head_rq: RequestView,
    now: u64,
)
    requires
        get_rq.method == Method::Get,
        head_rq.method == Method::Head,
        head_rq.if_match == get_rq.if_match,
        head_rq.if_none_match == get_rq.if_none_match,
        head_rq.if_unmodified_since == get_rq.if_unmodified_since,
        head_rq.if_modified_since == get_rq.if_modified_since,
        head_rq.if_range == get_rq.if_range,
        head_rq.range == get_rq.range,
    ensures
        spec_serve(ev, head_rq, now).status == spec_serve(ev, get_rq, now).status,
        spec_serve(ev, head_rq, now).headers == spec_serve(ev, get_rq, now).headers,
        spec_serve(ev, head_rq, now).status == 200 || spec_serve(ev, head_rq, now).status == 206
            || spec_serve(ev, head_rq, now).status == 304 || spec_serve(ev, head_rq, now).status
            == 416 ==> spec_serve(ev, head_rq, now).body.len() == 0,
{
}

/// A HEAD request carrying `Range: bytes={a}-{b}` is still answered 206,
/// with `Content-Range` and the interval's `Content-Length`, and an empty
/// body.
pub proof fn lemma_head_range(ev: EntityView, rq: RequestView, now: u64, a: u64, b: u64)
    requires
        rq.method == Method::Head,
        rq.if_match is None,
        rq.if_none_match is None,
        rq.if_unmodified_since is None,
        rq.if_modified_since is None,
        rq.if_range is None,
        rq.range == Option::Some(spec_fromto_header(a, b)),
        ev.bytes.len() <= u64::MAX,
        a <= b,
        b < ev.bytes.len(),
    ensures
        spec_serve(ev, rq, now).status == 206,
        spec_serve(ev, rq, now).body.len() == 0,
        exists|i: int|
            0 <= i < spec_serve(ev, rq, now).headers.len() && spec_serve(ev, rq, now).headers[i]
                == ((
            "content-range".spec_bytes(),
            spec_content_range_value(a, (b + 1) as u64, ev.bytes.len() as u64),
            )),
        exists|i: int|
            0 <= i < spec_serve(ev, rq, now).headers.len() && spec_serve(ev, rq, now).headers[i]
                == (("content-length".spec_bytes(), dec_digits((b + 1 - a) as u64))),
{
    let len = ev.bytes.len() as u64;
    lemma_parse_fromto(a, b, len);
    let r = HttpRange { start: a, end: (b + 1) as u64 };
    let specs = seq![ByteRangeSpec::FromTo(a, b)];
    assert(specs.drop_last() =~= Seq::<ByteRangeSpec>::empty());
    assert(specs.last() == ByteRangeSpec::FromTo(a, b));
    assert(spec_resolve_one(ByteRangeSpec::FromTo(a, b), len) == Option::Some(r));
    assert(spec_resolve_list(Seq::<ByteRangeSpec>::empty(), len) == Seq::<HttpRange>::empty());
    assert(spec_resolve_list(specs, len) =~= seq![r]);
    let resp = spec_serve(ev, rq, now);
    let hc = spec_common_headers(ev.etag, ev.last_modified, now);
    assert(resp.headers[hc.len() as int] == (
        (
            "content-range".spec_bytes(),
            spec_content_range_value(a, (b + 1) as u64, len),
        )
    ));
    assert(resp.headers[hc.len() as int + 1] == (
        (
            "content-length".spec_bytes(),
            dec_digits((b + 1 - a) as u64),
        )
    ));
}

/// A multipart response's `Content-Length` is the exact byte count of the
/// body it carries, whenever that count fits the header's integer type.
pub proof fn lemma_multipart_content_length(
    ev: EntityView,
    hdrs: Seq<(Seq<u8>, Seq<u8>)>,
    rs: Seq<HttpRange>,
    len: u64,
    include_entity_headers: bool,
)
    requires
        forall|i: int|
            0 <= i < rs.len() ==> ((#[trigger] rs[i]).start < rs[i].end <= ev.bytes.len()),
        len == ev.bytes.len(),
        spec_mp_len_int(rs, len, spec_part_headers_block(ev.extra_headers, include_entity_headers))
            + mp_trailer().len() <= u64::MAX,
    ensures
        ({
            let resp = spec_multipart_resp(ev, Method::Get, hdrs, rs, len, include_entity_headers);
            resp.headers[hdrs.len() as int] == ((
                "content-length".spec_bytes(),
                dec_digits(spec_body_bytes(resp.body, ev.bytes).len() as u64),
            ))
        }),
{
    let eph = spec_part_headers_block(ev.extra_headers, include_entity_headers);
    lemma_mp_len_int_nonneg(rs, len, eph);
    lemma_mp_len_exact(rs, len, eph);
    lemma_multipart_chunks_len(rs, len, eph, ev.bytes);
    let chunks = spec_multipart_chunks(rs, len, eph);
    let resp = spec_multipart_resp(ev, Method::Get, hdrs, rs, len, include_entity_headers);
    assert(resp.body =~= chunks.push(ChunkView::Bytes(mp_trailer())));
    lemma_body_bytes_push(chunks, ChunkView::Bytes(mp_trailer()), ev.bytes);
    assert(spec_body_bytes(resp.body, ev.bytes).len() == spec_mp_len_int(rs, len, eph)
        + mp_trailer().len());
    assert(resp.headers[hdrs.len() as int] == ((
        "content-length".spec_bytes(),
        dec_digits(sat_add(spec_mp_len(rs, len, eph), mp_trailer().len() as u64)),
    )));
}

/// A GET whose `If-None-Match` lists exactly the entity's tag is answered
/// 304 with an empty body, still carrying the `ETag` and `Accept-Ranges`
/// headers.
pub proof fn lemma_if_none_match_not_modified(
    ev: EntityView,
    rq: RequestView,
    now: u64,
    t: Seq<u8>,
)
    requires
        rq.method == Method::Get,
        ev.etag == Option::Some(t),
        rq.if_match is None,
        rq.if_unmodified_since is None,
        rq.if_none_match is Some,
        spec_parse_tag_list(rq.if_none_match->Some_0) == Option::Some(seq![t]),
    ensures
        spec_serve(ev, rq, now).status == 304,
        spec_serve(ev, rq, now).body.len() == 0,
        exists|i: int|
            0 <= i < spec_serve(ev, rq, now).headers.len() && spec_serve(ev, rq, now).headers[i]
                == (("etag".spec_bytes(), t)),
        exists|i: int|
            0 <= i < spec_serve(ev, rq, now).headers.len() && spec_serve(ev, rq, now).headers[i]
                == accept_ranges_header(),
{
    let hdr = rq.if_none_match->Some_0;
    lemma_tag_list_not_star(hdr);
    let ptags = spec_parse_tag_list(hdr)->Some_0;
    assert(ptags == seq![t]);
    assert(ptags[0] == t);
    assert(spec_weak_eq(ptags[0], t));
    assert(exists|i: int|
        0 <= i < ptags.len() && spec_weak_eq(#[trigger] ptags[i], ev.etag->Some_0));
    assert(crate::etag::spec_none_match(ev.etag, rq.if_none_match) == Result::<bool, ()>::Ok(
        false,
    ));
    let resp = spec_serve(ev, rq, now);
    assert(resp.status == 304);
    let hc = spec_common_headers(ev.etag, ev.last_modified, now);
    assert(resp.headers == hc);
    assert(hc[hc.len() - 1] == (("etag".spec_bytes(), t)));
    assert(hc[0] == accept_ranges_header());
}

} // verus!
