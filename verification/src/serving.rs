//! GET and HEAD serving for a byte-rangeable entity: conditional request
//! evaluation, range resolution, header synthesis, and multipart framing.
//!
//! `serve` returns a [`Response`] whose body is a sequence of chunks; a
//! chunk is either literal bytes or a reference to an interval of the
//! entity's content, to be produced lazily by the caller's transport.

use vstd::prelude::*;
use vstd::string::*;

use crate::bytes::push_bytes;
use crate::dates::{fmt_http_date_bytes, http_date_format, http_date_value, now_unix_secs,
    HTTP_DATE_LIMIT};
use crate::dec::{dec_digits, push_dec, u64_to_dec};
use crate::etag::{any_match, none_match, spec_any_match, spec_none_match, spec_strong_eq,
    strong_eq};
use crate::range::{lemma_parse_wf, spec_parse, view_opt_bytes, HttpRange, RangesView,
    ResolvedRanges};

verus! {

broadcast use crate::bytes::lemma_vec_u8_deep_view;

/// The request method, as far as this library distinguishes them.
#[derive(Clone, Copy, Debug, PartialEq, Eq, Structural)]
pub enum Method {
    Get,
    Head,
    Other,
}

/// The request headers this library reads, each in its raw wire form.
pub struct Request {
    pub method: Method,
    pub if_match: Option<Vec<u8>>,
    pub if_none_match: Option<Vec<u8>>,
    pub if_unmodified_since: Option<Vec<u8>>,
    pub if_modified_since: Option<Vec<u8>>,
    pub if_range: Option<Vec<u8>>,
    pub range: Option<Vec<u8>>,
    pub accept_encoding: Option<Vec<u8>>,
}

/// Mathematical value of a [`Request`].
pub struct RequestView {
    pub method: Method,
    pub if_match: Option<Seq<u8>>,
    pub if_none_match: Option<Seq<u8>>,
    pub if_unmodified_since: Option<Seq<u8>>,
    pub if_modified_since: Option<Seq<u8>>,
    pub if_range: Option<Seq<u8>>,
    pub range: Option<Seq<u8>>,
    pub accept_encoding: Option<Seq<u8>>,
}

impl View for Request {
    type V = RequestView;

    open spec fn view(&self) -> RequestView {
        RequestView {
            method: self.method,
            if_match: self.if_match.deep_view(),
            if_none_match: self.if_none_match.deep_view(),
            if_unmodified_since: self.if_unmodified_since.deep_view(),
            if_modified_since: self.if_modified_since.deep_view(),
            if_range: self.if_range.deep_view(),
            range: self.range.deep_view(),
            accept_encoding: self.accept_encoding.deep_view(),
        }
    }
}

impl Request {
    /// A request with the given method and no headers.
    pub fn bare(method: Method) -> (r: Request)
        ensures
            r@.method == method,
            r@.if_match is None,
            r@.if_none_match is None,
            r@.if_unmodified_since is None,
            r@.if_modified_since is None,
            r@.if_range is None,
            r@.range is None,
            r@.accept_encoding is None,
    {
        Request {
            method,
            if_match: None,
            if_none_match: None,
            if_unmodified_since: None,
            if_modified_since: None,
            if_range: None,
            range: None,
            accept_encoding: None,
        }
    }
}

/// One piece of a response body: literal bytes, or the entity's content
/// over `[start, end)`, produced lazily by the transport.
pub enum BodyChunk {
    Bytes(Vec<u8>),
    FromEntity(u64, u64),
}

/// Mathematical value of a [`BodyChunk`].
pub enum ChunkView {
    Bytes(Seq<u8>),
    FromEntity(u64, u64),
}

impl View for BodyChunk {
    type V = ChunkView;

    open spec fn view(&self) -> ChunkView {
        match self {
            BodyChunk::Bytes(v) => ChunkView::Bytes(v@),
            BodyChunk::FromEntity(a, b) => ChunkView::FromEntity(*a, *b),
        }
    }
}

/// A response: status code, header fields in emission order, body chunks.
pub struct Response {
    pub status: u16,
    pub headers: Vec<(Vec<u8>, Vec<u8>)>,
    pub body: Vec<BodyChunk>,
}

/// Mathematical value of a [`Response`].
#[verifier::ext_equal]
pub struct ResponseView {
    pub status: u16,
    pub headers: Seq<(Seq<u8>, Seq<u8>)>,
    pub body: Seq<ChunkView>,
}

impl View for Response {
    type V = ResponseView;

    open spec fn view(&self) -> ResponseView {
        ResponseView {
            status: self.status,
            headers: self.headers.deep_view(),
            body: Seq::new(self.body@.len(), |i: int| self.body@[i]@),
        }
    }
}

/// A validator header the request carried that could not be read.
/// `serve` answers it with a 400 response carrying the message as body.
#[derive(Clone, Copy, Debug, PartialEq, Eq, Structural)]
pub enum ParseError {
    IfMatch,
    IfUnmodifiedSince,
    IfModifiedSince,
}

impl ParseError {
    pub open spec fn spec_message(self) -> Seq<u8> {
        match self {
            ParseError::IfMatch => "Unparseable If-Match header".spec_bytes(),
            ParseError::IfUnmodifiedSince => "Unparseable If-Unmodified-Since".spec_bytes(),
            ParseError::IfModifiedSince => "Unparseable If-Modified-Since".spec_bytes(),
        }
    }

    /// The single-line explanation served with the 400 status.
    pub fn message(&self) -> (r: Vec<u8>)
        ensures
            r@ == self.spec_message(),
    {
        match self {
            ParseError::IfMatch => "Unparseable If-Match header".as_bytes_vec(),
            ParseError::IfUnmodifiedSince => "Unparseable If-Unmodified-Since".as_bytes_vec(),
            ParseError::IfModifiedSince => "Unparseable If-Modified-Since".as_bytes_vec(),
        }
    }
}

/// The abstract value of an entity: its bytes, validators, and the
/// representation headers it wants on responses that carry its content.
pub struct EntityView {
    pub bytes: Seq<u8>,
    pub etag: Option<Seq<u8>>,
    pub last_modified: Option<u64>,
    pub extra_headers: Seq<(Seq<u8>, Seq<u8>)>,
}

/// An HTTP entity for GET and HEAD serving: a read-only, byte-rangeable
/// resource with optional validators. An implementation chooses a model
/// and proves each operation faithful to it; the model must not change
/// between calls on the same value.
pub trait Entity {
    /// The abstract value this entity represents.
    spec fn model(&self) -> EntityView;

    /// The length of the entity in bytes.
    fn len(&self) -> (r: u64)
        ensures
            r == self.model().bytes.len(),
    ;

    /// The entity's bytes over `[start, end)`.
    fn get_range(&self, start: u64, end: u64) -> (r: Vec<u8>)
        requires
            start <= end <= self.model().bytes.len(),
        ensures
            r@ == self.model().bytes.subrange(start as int, end as int),
    ;

    /// The entity's tag, in wire form (quotes and any `W/` included).
    fn etag(&self) -> (r: Option<Vec<u8>>)
        ensures
            r.deep_view() == self.model().etag,
    ;

    /// The entity's last modification time, in whole seconds since the
    /// Unix epoch.
    fn last_modified(&self) -> (r: Option<u64>)
        ensures
            r == self.model().last_modified,
    ;

    /// Appends the entity's representation headers (such as
    /// `Content-Type`) to `out`. These must not include `Content-Range`,
    /// `Date`, `ETag`, `Content-Location`, `Expires`, `Cache-Control`,
    /// or `Vary`.
    fn add_headers(&self, out: &mut Vec<(Vec<u8>, Vec<u8>)>)
        ensures
            final(out).deep_view() == old(out).deep_view() + self.model().extra_headers,
    ;
}

/// `a + b`, clamped at `u64::MAX`.
pub open spec fn sat_add(a: u64, b: u64) -> u64 {
    if a + b > u64::MAX {
        u64::MAX
    } else {
        (a + b) as u64
    }
}

fn sat_add_exec(a: u64, b: u64) -> (r: u64)
    ensures
        r == sat_add(a, b),
{
    if a > u64::MAX - b {
        u64::MAX
    } else {
        a + b
    }
}

/// The width of an interval, 0 for a malformed one.
pub open spec fn range_width(r: HttpRange) -> u64 {
    if r.start <= r.end {
        (r.end - r.start) as u64
    } else {
        0
    }
}

/// Evaluation of the validator headers into
/// `(precondition_failed, not_modified)`. An unreadable `If-Match`,
/// `If-Unmodified-Since` or `If-Modified-Since` header is an error; an
/// unreadable `If-None-Match` header is ignored. A date header takes
/// part only when the entity has a modification time.
pub open spec fn spec_parse_modified_hdrs(
    etag: Option<Seq<u8>>,
    if_match: Option<Seq<u8>>,
    if_none_match: Option<Seq<u8>>,
    if_unmodified_since: Option<Seq<u8>>,
    if_modified_since: Option<Seq<u8>>,
    last_modified: Option<u64>,
) -> Result<(bool, bool), ParseError> {
    match spec_any_match(etag, if_match) {
        Result::Err(_) => Result::Err(ParseError::IfMatch),
        Result::Ok(am) => {
            let pf_r: Result<bool, ParseError> = if !am {
                Result::Ok(true)
            } else if last_modified is Some && if_unmodified_since is Some {
                match http_date_value(if_unmodified_since->Some_0) {
                    Option::Some(t) => Result::Ok(last_modified->Some_0 > t),
                    Option::None => Result::Err(ParseError::IfUnmodifiedSince),
                }
            } else {
                Result::Ok(false)
            };
            match pf_r {
                Result::Err(e) => Result::Err(e),
                Result::Ok(pf) => {
                    let nm0 = match spec_none_match(etag, if_none_match) {
                        Result::Ok(b) => b,
                        Result::Err(_) => true,
                    };
                    let nm_r: Result<bool, ParseError> = if !nm0 {
                        Result::Ok(true)
                    } else if last_modified is Some && if_modified_since is Some {
                        match http_date_value(if_modified_since->Some_0) {
                            Option::Some(t) => Result::Ok(last_modified->Some_0 <= t),
                            Option::None => Result::Err(ParseError::IfModifiedSince),
                        }
                    } else {
                        Result::Ok(false)
                    };
                    match nm_r {
                        Result::Err(e) => Result::Err(e),
                        Result::Ok(nm) => Result::Ok((pf, nm)),
                    }
                },
            }
        },
    }
}

pub(crate) fn opt_slice<'a>(o: &'a Option<Vec<u8>>) -> (r: Option<&'a [u8]>)
    ensures
        view_opt_bytes(r) == o.deep_view(),
{
    match o {
        Some(v) => Some(v.as_slice()),
        None => None,
    }
}

/// Evaluates the request's validator headers against the entity's
/// validators.
pub fn parse_modified_hdrs(etag: &Option<Vec<u8>>, req: &Request, last_modified: Option<u64>) -> (r:
    Result<(bool, bool), ParseError>)
    ensures
        r == spec_parse_modified_hdrs(
            etag.deep_view(),
            req@.if_match,
            req@.if_none_match,
            req@.if_unmodified_since,
            req@.if_modified_since,
            last_modified,
        ),
{
    let am = match any_match(etag, opt_slice(&req.if_match)) {
        Err(_) => {
            return Err(ParseError::IfMatch);
        },
        Ok(b) => b,
    };
    let precondition_failed = if !am {
        true
    } else {
        match (last_modified, &req.if_unmodified_since) {
            (Some(m), Some(since)) => match crate::dates::parse_http_date_bytes(
                since.as_slice(),
            ) {
                Some(t) => m > t,
                None => {
                    return Err(ParseError::IfUnmodifiedSince);
                },
            },
            _ => false,
        }
    };
    let nm0 = match none_match(etag, opt_slice(&req.if_none_match)) {
        Err(_) => true,
        Ok(b) => b,
    };
    let not_modified = if !nm0 {
        true
    } else {
        match (last_modified, &req.if_modified_since) {
            (Some(m), Some(since)) => match crate::dates::parse_http_date_bytes(
                since.as_slice(),
            ) {
                Some(t) => m <= t,
                None => {
                    return Err(ParseError::IfModifiedSince);
                },
            },
            _ => false,
        }
    };
    Ok((precondition_failed, not_modified))
}

/// The `If-Range` decision: the range header to honor (if any) and whether
/// representation headers go into a partial response. An `If-Range` in
/// entity-tag form honors the range only on a strong match; one in date
/// form never does, because dates lack the resolution for a safe match.
pub open spec fn spec_if_range(
    etag: Option<Seq<u8>>,
    if_range: Option<Seq<u8>>,
    range: Option<Seq<u8>>,
) -> (Option<Seq<u8>>, bool) {
    match if_range {
        Option::None => (range, true),
        Option::Some(ir) => {
            let tag_form = (ir.len() >= 1 && ir[0] == 34) || (ir.len() >= 3 && ir[0] == 87
                && ir[1] == 47 && ir[2] == 34);
            if tag_form && etag is Some && spec_strong_eq(ir, etag->Some_0) {
                (range, false)
            } else {
                (Option::None, true)
            }
        },
    }
}

pub open spec fn accept_ranges_header() -> (Seq<u8>, Seq<u8>) {
    ("accept-ranges".spec_bytes(), "bytes".spec_bytes())
}

/// The headers every conditional-capable response starts with:
/// `Accept-Ranges`, then (when the entity has a modification time) `Date`
/// for `now` and `Last-Modified` clamped to `now`, then `ETag`.
pub open spec fn spec_common_headers(
    etag: Option<Seq<u8>>,
    last_modified: Option<u64>,
    now: u64,
) -> Seq<(Seq<u8>, Seq<u8>)> {
    let h0 = seq![accept_ranges_header()];
    let h1 = if last_modified is Some {
        let m = last_modified->Some_0;
        let clamped: u64 = if m <= now {
            m
        } else {
            now
        };
        h0 + seq![
            ("date".spec_bytes(), http_date_format(now)),
            ("last-modified".spec_bytes(), http_date_format(clamped)),
        ]
    } else {
        h0
    };
    if etag is Some {
        h1 + seq![("etag".spec_bytes(), etag->Some_0)]
    } else {
        h1
    }
}

pub(crate) fn push_header(hdrs: &mut Vec<(Vec<u8>, Vec<u8>)>, name: Vec<u8>, value: Vec<u8>)
    ensures
        final(hdrs).deep_view() == old(hdrs).deep_view() + seq![(name@, value@)],
{
    proof {
        assert(name.deep_view() =~= name@);
        assert(value.deep_view() =~= value@);
    }
    let ghost n = name@;
    let ghost v = value@;
    hdrs.push((name, value));
    proof {
        assert(hdrs.deep_view() =~~= old(hdrs).deep_view() + seq![(n, v)]);
    }
}

fn common_headers(etag: &Option<Vec<u8>>, last_modified: Option<u64>, now: u64) -> (hdrs: Vec<
    (Vec<u8>, Vec<u8>),
>)
    requires
        now < HTTP_DATE_LIMIT,
    ensures
        hdrs.deep_view() == spec_common_headers(etag.deep_view(), last_modified, now),
{
    let mut hdrs: Vec<(Vec<u8>, Vec<u8>)> = Vec::new();
    proof {
        assert(hdrs.deep_view() =~~= Seq::<(Seq<u8>, Seq<u8>)>::empty());
    }
    push_header(&mut hdrs, "accept-ranges".as_bytes_vec(), "bytes".as_bytes_vec());
    if let Some(m) = last_modified {
        push_header(&mut hdrs, "date".as_bytes_vec(), fmt_http_date_bytes(now));
        let clamped = if m <= now {
            m
        } else {
            now
        };
        push_header(&mut hdrs, "last-modified".as_bytes_vec(), fmt_http_date_bytes(clamped));
    }
    if let Some(t) = etag {
        push_header(&mut hdrs, "etag".as_bytes_vec(), vstd::slice::slice_to_vec(t.as_slice()));
    }
    proof {
        assert(hdrs.deep_view() =~~= spec_common_headers(etag.deep_view(), last_modified, now));
    }
    hdrs
}

/// The `Content-Range` value `bytes S-E/L` for the interval `[start, end)`.
pub open spec fn spec_content_range_value(start: u64, end: u64, len: u64) -> Seq<u8> {
    let em1: u64 = if end >= 1 {
        (end - 1) as u64
    } else {
        0
    };
    "bytes ".spec_bytes() + dec_digits(start) + seq![45u8] + dec_digits(em1) + seq![47u8]
        + dec_digits(len)
}

fn content_range_value(start: u64, end: u64, len: u64) -> (r: Vec<u8>)
    requires
        end >= 1,
    ensures
        r@ == spec_content_range_value(start, end, len),
{
    let mut out = "bytes ".as_bytes_vec();
    push_dec(start, &mut out);
    out.push(45);
    push_dec(end - 1, &mut out);
    out.push(47);
    push_dec(len, &mut out);
    proof {
        assert(out@ =~= spec_content_range_value(start, end, len));
    }
    out
}

/// The `Content-Range` value `bytes */L` of a 416 response.
pub open spec fn spec_unsat_content_range(len: u64) -> Seq<u8> {
    "bytes */".spec_bytes() + dec_digits(len)
}

/// A 200 or 206 response carrying one interval of the entity:
/// `Content-Length`, then the entity's representation headers when they
/// are to be included; the body is the interval itself, or empty for HEAD.
pub open spec fn spec_single_range_resp(
    ev: EntityView,
    method: Method,
    hdrs: Seq<(Seq<u8>, Seq<u8>)>,
    status: u16,
    r: HttpRange,
    include_entity_headers: bool,
) -> ResponseView {
    let h2 = hdrs + seq![("content-length".spec_bytes(), dec_digits(range_width(r)))];
    let h3 = if include_entity_headers {
        h2 + ev.extra_headers
    } else {
        h2
    };
    ResponseView {
        status,
        headers: h3,
        body: if method == Method::Head {
            Seq::empty()
        } else {
            seq![ChunkView::FromEntity(r.start, r.end)]
        },
    }
}

fn single_range_resp<E: Entity>(
    e: &E,
    method: Method,
    hdrs: Vec<(Vec<u8>, Vec<u8>)>,
    status: u16,
    r: HttpRange,
    include_entity_headers: bool,
) -> (resp: Response)
    requires
        r.start <= r.end,
    ensures
        resp@ == spec_single_range_resp(
            e.model(),
            method,
            hdrs.deep_view(),
            status,
            r,
            include_entity_headers,
        ),
{
    let ghost hdrs0 = hdrs.deep_view();
    let mut hdrs = hdrs;
    push_header(&mut hdrs, "content-length".as_bytes_vec(), u64_to_dec(r.width()));
    if include_entity_headers {
        e.add_headers(&mut hdrs);
    }
    let mut body: Vec<BodyChunk> = Vec::new();
    if method != Method::Head {
        body.push(BodyChunk::FromEntity(r.start, r.end));
    }
    let resp = Response { status, headers: hdrs, body };
    proof {
        assert(resp@.headers =~~= spec_single_range_resp(
            e.model(),
            method,
            hdrs0,
            status,
            r,
            include_entity_headers,
        ).headers);
        assert(resp@.body =~~= spec_single_range_resp(
            e.model(),
            method,
            hdrs0,
            status,
            r,
            include_entity_headers,
        ).body);
        assert(resp@ =~~= spec_single_range_resp(
            e.model(),
            method,
            hdrs0,
            status,
            r,
            include_entity_headers,
        ));
    }
    resp
}

/// The rendering of representation headers inside a multipart part:
/// `name: value\r\n` for each, in order.
pub open spec fn spec_render_headers(hs: Seq<(Seq<u8>, Seq<u8>)>) -> Seq<u8>
    decreases hs.len(),
{
    if hs.len() == 0 {
        Seq::empty()
    } else {
        spec_render_headers(hs.drop_last()) + hs.last().0 + ": ".spec_bytes() + hs.last().1
            + "\r\n".spec_bytes()
    }
}

/// What follows each part's `Content-Range` line: the representation
/// headers when included, then the blank line ending the part header.
pub open spec fn spec_part_headers_block(
    extra: Seq<(Seq<u8>, Seq<u8>)>,
    include_entity_headers: bool,
) -> Seq<u8> {
    (if include_entity_headers {
        spec_render_headers(extra)
    } else {
        Seq::<u8>::empty()
    }) + "\r\n".spec_bytes()
}

fn part_headers_block<E: Entity>(e: &E, include_entity_headers: bool) -> (r: Vec<u8>)
    ensures
        r@ == spec_part_headers_block(e.model().extra_headers, include_entity_headers),
{
    let mut out: Vec<u8> = Vec::new();
    let ghost extra = e.model().extra_headers;
    if include_entity_headers {
        let mut hs: Vec<(Vec<u8>, Vec<u8>)> = Vec::new();
        proof {
            assert(hs.deep_view() =~~= Seq::<(Seq<u8>, Seq<u8>)>::empty());
        }
        e.add_headers(&mut hs);
        proof {
            assert(hs.deep_view() =~~= extra);
            assert(extra.subrange(0, 0) =~= Seq::<(Seq<u8>, Seq<u8>)>::empty());
        }
        let n = hs.len();
        let mut i: usize = 0;
        while i < n
            invariant
                0 <= i <= n,
                n == hs@.len(),
                hs.deep_view() == extra,
                out@ == spec_render_headers(extra.subrange(0, i as int)),
            decreases n - i,
        {
            proof {
                let ghost p = hs@[i as int];
                assert(extra[i as int] == (p.0.deep_view(), p.1.deep_view()));
                assert(p.0.deep_view() =~= p.0@);
                assert(p.1.deep_view() =~= p.1@);
                assert(extra.subrange(0, i as int + 1).drop_last() =~= extra.subrange(0, i as int));
                assert(extra.subrange(0, i as int + 1).last() == extra[i as int]);
            }
            let pair = &hs[i];
            push_bytes(&mut out, pair.0.as_slice());
            let mut cs = ": ".as_bytes_vec();
            out.append(&mut cs);
            push_bytes(&mut out, pair.1.as_slice());
            let mut nl = "\r\n".as_bytes_vec();
            out.append(&mut nl);
            proof {
                assert(out@ =~= spec_render_headers(extra.subrange(0, i as int + 1)));
            }
            i = i + 1;
        }
        proof {
            assert(extra.subrange(0, n as int) =~= extra);
        }
    }
    let mut nl = "\r\n".as_bytes_vec();
    out.append(&mut nl);
    proof {
        assert(out@ =~= spec_part_headers_block(extra, include_entity_headers));
    }
    out
}

/// The header block standing before part `i` of a multipart body:
/// `\r\n--B\r\n`, the part's `Content-Range` line, then `eph`.
pub open spec fn spec_part_header(r: HttpRange, len: u64, eph: Seq<u8>) -> Seq<u8> {
    let em1: u64 = if r.end >= 1 {
        (r.end - 1) as u64
    } else {
        0
    };
    "\r\n--B\r\nContent-Range: bytes ".spec_bytes() + dec_digits(r.start) + seq![45u8]
        + dec_digits(em1) + seq![47u8] + dec_digits(len) + "\r\n".spec_bytes() + eph
}

/// The multipart body length before the trailer: for each part, its header
/// block plus its interval width, summed with saturation as the
/// implementation does.
pub open spec fn spec_mp_len(rs: Seq<HttpRange>, len: u64, eph: Seq<u8>) -> u64
    decreases rs.len(),
{
    if rs.len() == 0 {
        0
    } else {
        sat_add(
            spec_mp_len(rs.drop_last(), len, eph),
            sat_add(spec_part_header(rs.last(), len, eph).len() as u64, range_width(rs.last())),
        )
    }
}

/// The chunks of a multipart GET body, without the final trailer: for each
/// interval in order, its header block then the interval itself.
pub open spec fn spec_multipart_chunks(rs: Seq<HttpRange>, len: u64, eph: Seq<u8>) -> Seq<
    ChunkView,
>
    decreases rs.len(),
{
    if rs.len() == 0 {
        Seq::empty()
    } else {
        spec_multipart_chunks(rs.drop_last(), len, eph) + seq![
            ChunkView::Bytes(spec_part_header(rs.last(), len, eph)),
            ChunkView::FromEntity(rs.last().start, rs.last().end),
        ]
    }
}

pub open spec fn mp_trailer() -> Seq<u8> {
    "\r\n--B--\r\n".spec_bytes()
}

/// The multipart body length before the trailer, as an unbounded sum.
pub open spec fn spec_mp_len_int(rs: Seq<HttpRange>, len: u64, eph: Seq<u8>) -> int
    decreases rs.len(),
{
    if rs.len() == 0 {
        0
    } else {
        spec_mp_len_int(rs.drop_last(), len, eph) + spec_part_header(rs.last(), len, eph).len()
            + range_width(rs.last())
    }
}

pub proof fn lemma_mp_len_int_nonneg(rs: Seq<HttpRange>, len: u64, eph: Seq<u8>)
    ensures
        spec_mp_len_int(rs, len, eph) >= 0,
    decreases rs.len(),
{
    if rs.len() > 0 {
        lemma_mp_len_int_nonneg(rs.drop_last(), len, eph);
    }
}

/// While the total stays in range, the saturating sum is the exact sum.
pub proof fn lemma_mp_len_exact(rs: Seq<HttpRange>, len: u64, eph: Seq<u8>)
    requires
        spec_mp_len_int(rs, len, eph) <= u64::MAX,
    ensures
        spec_mp_len(rs, len, eph) == spec_mp_len_int(rs, len, eph),
    decreases rs.len(),
{
    if rs.len() > 0 {
        lemma_mp_len_int_nonneg(rs.drop_last(), len, eph);
        lemma_mp_len_exact(rs.drop_last(), len, eph);
    }
}

/// Appending one chunk to a body appends exactly that chunk's bytes.
pub proof fn lemma_body_bytes_push(cs: Seq<ChunkView>, c: ChunkView, bytes: Seq<u8>)
    ensures
        spec_body_bytes(cs.push(c), bytes) == spec_body_bytes(cs, bytes) + (match c {
            ChunkView::Bytes(b) => b,
            ChunkView::FromEntity(a, b) => if a <= b <= bytes.len() {
                bytes.subrange(a as int, b as int)
            } else {
                Seq::<u8>::empty()
            },
        }),
{
    assert(cs.push(c).drop_last() =~= cs);
    assert(cs.push(c).last() == c);
}

/// The bytes of a multipart body before the trailer number exactly the
/// unbounded sum of part header blocks and interval widths.
pub proof fn lemma_multipart_chunks_len(rs: Seq<HttpRange>, len: u64, eph: Seq<u8>, bytes: Seq<u8>)
    requires
        forall|i: int| 0 <= i < rs.len() ==> ((#[trigger] rs[i]).start < rs[i].end <= bytes.len()),
    ensures
        spec_body_bytes(spec_multipart_chunks(rs, len, eph), bytes).len() == spec_mp_len_int(
            rs,
            len,
            eph,
        ),
    decreases rs.len(),
{
    if rs.len() > 0 {
        let dl = rs.drop_last();
        assert(forall|i: int|
            0 <= i < dl.len() ==> ((#[trigger] dl[i]).start < dl[i].end <= bytes.len())) by {
            assert(forall|i: int| 0 <= i < dl.len() ==> dl[i] == rs[i]);
        }
        lemma_multipart_chunks_len(dl, len, eph, bytes);
        let r = rs.last();
        let ph = spec_part_header(r, len, eph);
        let prev = spec_multipart_chunks(dl, len, eph);
        assert(spec_multipart_chunks(rs, len, eph) =~= prev.push(ChunkView::Bytes(ph)).push(
            ChunkView::FromEntity(r.start, r.end),
        ));
        lemma_body_bytes_push(prev, ChunkView::Bytes(ph), bytes);
        lemma_body_bytes_push(prev.push(ChunkView::Bytes(ph)), ChunkView::FromEntity(
            r.start,
            r.end,
        ), bytes);
        assert(bytes.subrange(r.start as int, r.end as int).len() == range_width(r));
    }
}

/// A 206 multipart/byteranges response: `Content-Length` is the exact body
/// length; the body interleaves part header blocks with the intervals and
/// ends with the trailer, or is empty for HEAD.
pub open spec fn spec_multipart_resp(
    ev: EntityView,
    method: Method,
    hdrs: Seq<(Seq<u8>, Seq<u8>)>,
    rs: Seq<HttpRange>,
    len: u64,
    include_entity_headers: bool,
) -> ResponseView {
    let eph = spec_part_headers_block(ev.extra_headers, include_entity_headers);
    let total = sat_add(spec_mp_len(rs, len, eph), mp_trailer().len() as u64);
    let h = hdrs + seq![
        ("content-length".spec_bytes(), dec_digits(total)),
        ("content-type".spec_bytes(), "multipart/byteranges; boundary=B".spec_bytes()),
    ];
    ResponseView {
        status: 206,
        headers: h,
        body: if method == Method::Head {
            Seq::empty()
        } else {
            spec_multipart_chunks(rs, len, eph) + seq![ChunkView::Bytes(mp_trailer())]
        },
    }
}

/// Builds the multipart/byteranges response for two or more intervals.
#[verifier::loop_isolation(false)]
fn send_multipart<E: Entity>(
    e: &E,
    method: Method,
    hdrs: Vec<(Vec<u8>, Vec<u8>)>,
    rs: &Vec<HttpRange>,
    len: u64,
    include_entity_headers: bool,
) -> (resp: Response)
    requires
        forall|i: int| 0 <= i < rs@.len() ==> rs@[i].start < rs@[i].end,
    ensures
        resp@ == spec_multipart_resp(
            e.model(),
            method,
            hdrs.deep_view(),
            rs@,
            len,
            include_entity_headers,
        ),
{
    let ghost hdrs0 = hdrs.deep_view();
    let ghost spec = spec_multipart_resp(
        e.model(),
        method,
        hdrs0,
        rs@,
        len,
        include_entity_headers,
    );
    let each_part_headers = part_headers_block(e, include_entity_headers);
    let ghost eph = each_part_headers@;
    let n = rs.len();
    let mut part_headers: Vec<Vec<u8>> = Vec::new();
    let mut body_len: u64 = 0;
    let mut i: usize = 0;
    proof {
        assert(rs@.subrange(0, 0) =~= Seq::<HttpRange>::empty());
    }
    while i < n
        invariant
            0 <= i <= n,
            part_headers@.len() == i,
            forall|j: int|
                0 <= j < i ==> (#[trigger] part_headers@[j])@ == spec_part_header(
                    rs@[j],
                    len,
                    eph,
                ),
            body_len == spec_mp_len(rs@.subrange(0, i as int), len, eph),
        decreases n - i,
    {
        let r = rs[i];
        let mut buf = "\r\n--B\r\nContent-Range: bytes ".as_bytes_vec();
        push_dec(r.start, &mut buf);
        buf.push(45);
        push_dec(r.end - 1, &mut buf);
        buf.push(47);
        push_dec(len, &mut buf);
        let mut nl = "\r\n".as_bytes_vec();
        buf.append(&mut nl);
        let mut eph2 = vstd::slice::slice_to_vec(each_part_headers.as_slice());
        buf.append(&mut eph2);
        proof {
            assert(buf@ =~= spec_part_header(r, len, eph));
        }
        body_len = sat_add_exec(body_len, sat_add_exec(buf.len() as u64, r.end - r.start));
        part_headers.push(buf);
        proof {
            assert(rs@.subrange(0, i as int + 1).drop_last() =~= rs@.subrange(0, i as int));
            assert(rs@.subrange(0, i as int + 1).last() == rs@[i as int]);
        }
        i = i + 1;
    }
    proof {
        assert(rs@.subrange(0, n as int) =~= rs@);
    }
    let trailer = "\r\n--B--\r\n".as_bytes_vec();
    let total = sat_add_exec(body_len, trailer.len() as u64);
    let mut hdrs = hdrs;
    push_header(&mut hdrs, "content-length".as_bytes_vec(), u64_to_dec(total));
    push_header(
        &mut hdrs,
        "content-type".as_bytes_vec(),
        "multipart/byteranges; boundary=B".as_bytes_vec(),
    );
    proof {
        assert(hdrs.deep_view() =~~= spec.headers);
    }
    if method == Method::Head {
        let resp = Response { status: 206, headers: hdrs, body: Vec::new() };
        proof {
            assert(resp@.body =~~= spec.body);
            assert(resp@ =~~= spec);
        }
        return resp;
    }
    let mut part_headers = part_headers;
    let mut chunks: Vec<BodyChunk> = Vec::new();
    let mut i: usize = 0;
    proof {
        assert(Seq::new(chunks@.len(), |k: int| chunks@[k]@) =~~= spec_multipart_chunks(
            rs@.subrange(0, 0),
            len,
            eph,
        ));
    }
    while i < n
        invariant
            0 <= i <= n,
            part_headers@.len() == n - i,
            forall|j: int|
                0 <= j < n - i ==> (#[trigger] part_headers@[j])@ == spec_part_header(
                    rs@[j + i],
                    len,
                    eph,
                ),
            Seq::new(chunks@.len(), |k: int| chunks@[k]@) =~~= spec_multipart_chunks(
                rs@.subrange(0, i as int),
                len,
                eph,
            ),
        decreases n - i,
    {
        let ph = part_headers.remove(0);
        proof {
            assert(ph@ == spec_part_header(rs@[i as int], len, eph));
        }
        chunks.push(BodyChunk::Bytes(ph));
        let r = rs[i];
        chunks.push(BodyChunk::FromEntity(r.start, r.end));
        proof {
            assert(rs@.subrange(0, i as int + 1).drop_last() =~= rs@.subrange(0, i as int));
            assert(rs@.subrange(0, i as int + 1).last() == rs@[i as int]);
            assert(Seq::new(chunks@.len(), |k: int| chunks@[k]@) =~~= spec_multipart_chunks(
                rs@.subrange(0, i as int + 1),
                len,
                eph,
            ));
        }
        i = i + 1;
    }
    chunks.push(BodyChunk::Bytes(trailer));
    let resp = Response { status: 206, headers: hdrs, body: chunks };
    proof {
        assert(resp@.body =~~= spec.body);
        assert(resp@ =~~= spec);
    }
    resp
}

/// What `serve` returns: the response determined by the entity's value,
/// the request headers, and the `now` timestamp used for the `Date`
/// header.
pub open spec fn spec_serve(ev: EntityView, rq: RequestView, now: u64) -> ResponseView {
    if rq.method != Method::Get && rq.method != Method::Head {
        ResponseView {
            status: 405,
            headers: seq![("allow".spec_bytes(), "get, head".spec_bytes())],
            body: seq![
                ChunkView::Bytes("This resource only supports GET and HEAD.".spec_bytes()),
            ],
        }
    } else {
        match spec_parse_modified_hdrs(
            ev.etag,
            rq.if_match,
            rq.if_none_match,
            rq.if_unmodified_since,
            rq.if_modified_since,
            ev.last_modified,
        ) {
            Result::Err(pe) => ResponseView {
                status: 400,
                headers: Seq::empty(),
                body: seq![ChunkView::Bytes(pe.spec_message())],
            },
            Result::Ok(pn) => {
                let range_if = spec_if_range(ev.etag, rq.if_range, rq.range);
                let hdrs = spec_common_headers(ev.etag, ev.last_modified, now);
                if pn.0 {
                    ResponseView {
                        status: 412,
                        headers: hdrs,
                        body: seq![ChunkView::Bytes("Precondition failed".spec_bytes())],
                    }
                } else if pn.1 {
                    ResponseView { status: 304, headers: hdrs, body: Seq::empty() }
                } else {
                    let len = ev.bytes.len() as u64;
                    match spec_parse(range_if.0, len) {
                        RangesView::Absent => spec_single_range_resp(
                            ev,
                            rq.method,
                            hdrs,
                            200,
                            HttpRange { start: 0, end: len },
                            true,
                        ),
                        RangesView::NotSatisfiable => ResponseView {
                            status: 416,
                            headers: hdrs + seq![
                                ("content-range".spec_bytes(), spec_unsat_content_range(len)),
                            ],
                            body: Seq::empty(),
                        },
                        RangesView::Satisfiable(rs) => {
                            if rs.len() == 1 {
                                spec_single_range_resp(
                                    ev,
                                    rq.method,
                                    hdrs + seq![
                                        (
                                            "content-range".spec_bytes(),
                                            spec_content_range_value(rs[0].start, rs[0].end, len),
                                        ),
                                    ],
                                    206,
                                    rs[0],
                                    range_if.1,
                                )
                            } else {
                                if spec_est_len(rs) < len {
                                    spec_multipart_resp(ev, rq.method, hdrs, rs, len, range_if.1)
                                } else {
                                    spec_single_range_resp(
                                        ev,
                                        rq.method,
                                        hdrs,
                                        200,
                                        HttpRange { start: 0, end: len },
                                        true,
                                    )
                                }
                            }
                        },
                    }
                }
            },
        }
    }
}

/// The estimated multipart length: 80 bytes of overhead per part plus the
/// part widths, summed with saturation. When this is no smaller than the
/// resource itself, the whole entity is served instead.
pub open spec fn spec_est_len(rs: Seq<HttpRange>) -> u64
    decreases rs.len(),
{
    if rs.len() == 0 {
        0
    } else {
        sat_add(spec_est_len(rs.drop_last()), sat_add(80, range_width(rs.last())))
    }
}

/// Serves the request from the entity, stamping `Date` with the `now`
/// timestamp. Deterministic; `serve` supplies the clock.
#[verifier::loop_isolation(false)]
pub fn serve_at<E: Entity>(e: &E, req: &Request, now: u64) -> (resp: Response)
    requires
        now < HTTP_DATE_LIMIT,
    ensures
        resp@ == spec_serve(e.model(), req@, now),
{
    let ghost ev = e.model();
    let ghost rq = req@;
    let ghost spec = spec_serve(ev, rq, now);
    if req.method != Method::Get && req.method != Method::Head {
        let mut hdrs: Vec<(Vec<u8>, Vec<u8>)> = Vec::new();
        proof {
            assert(hdrs.deep_view() =~~= Seq::<(Seq<u8>, Seq<u8>)>::empty());
        }
        push_header(&mut hdrs, "allow".as_bytes_vec(), "get, head".as_bytes_vec());
        let mut body: Vec<BodyChunk> = Vec::new();
        body.push(
            BodyChunk::Bytes("This resource only supports GET and HEAD.".as_bytes_vec()),
        );
        let resp = Response { status: 405, headers: hdrs, body };
        proof {
            assert(resp@.headers =~~= spec.headers);
            assert(resp@.body =~~= spec.body);
            assert(resp@ =~~= spec);
        }
        return resp;
    }
    let last_modified = e.last_modified();
    let etag = e.etag();
    let pn = match parse_modified_hdrs(&etag, req, last_modified) {
        Err(pe) => {
            let mut body: Vec<BodyChunk> = Vec::new();
            body.push(BodyChunk::Bytes(pe.message()));
            let resp = Response { status: 400, headers: Vec::new(), body };
            proof {
                assert(resp@.headers =~~= spec.headers);
                assert(resp@.body =~~= spec.body);
                assert(resp@ =~~= spec);
            }
            return resp;
        },
        Ok(pn) => pn,
    };
    let (precondition_failed, not_modified) = pn;
    let mut drop_range = false;
    let mut include_entity_headers_on_range = true;
    match &req.if_range {
        None => {},
        Some(ir) => {
            let tag_form = (ir.len() >= 1 && ir[0] == 34) || (ir.len() >= 3 && ir[0] == 87
                && ir[1] == 47 && ir[2] == 34);
            let strong = tag_form && match &etag {
                Some(t) => strong_eq(ir.as_slice(), t.as_slice()),
                None => false,
            };
            if strong {
                include_entity_headers_on_range = false;
            } else {
                drop_range = true;
            }
        },
    }
    let range_hdr: Option<&[u8]> = if drop_range {
        None
    } else {
        opt_slice(&req.range)
    };
    proof {
        assert((view_opt_bytes(range_hdr), include_entity_headers_on_range) == spec_if_range(
            ev.etag,
            rq.if_range,
            rq.range,
        ));
    }
    let mut hdrs = common_headers(&etag, last_modified, now);
    if precondition_failed {
        let mut body: Vec<BodyChunk> = Vec::new();
        body.push(BodyChunk::Bytes("Precondition failed".as_bytes_vec()));
        let resp = Response { status: 412, headers: hdrs, body };
        proof {
            assert(resp@.body =~~= spec.body);
            assert(resp@ =~~= spec);
        }
        return resp;
    }
    if not_modified {
        let resp = Response { status: 304, headers: hdrs, body: Vec::new() };
        proof {
            assert(resp@.body =~~= spec.body);
            assert(resp@ =~~= spec);
        }
        return resp;
    }
    let len = e.len();
    match crate::range::parse(range_hdr, len) {
        ResolvedRanges::Absent => {
            single_range_resp(e, req.method, hdrs, 200, HttpRange { start: 0, end: len }, true)
        },
        ResolvedRanges::NotSatisfiable => {
            let mut v = "bytes */".as_bytes_vec();
            push_dec(len, &mut v);
            proof {
                assert(v@ =~= spec_unsat_content_range(len));
            }
            push_header(&mut hdrs, "content-range".as_bytes_vec(), v);
            let resp = Response { status: 416, headers: hdrs, body: Vec::new() };
            proof {
                assert(resp@.headers =~~= spec.headers);
                assert(resp@.body =~~= spec.body);
                assert(resp@ =~~= spec);
            }
            resp
        },
        ResolvedRanges::Satisfiable(rs) => {
            proof {
                lemma_parse_wf(view_opt_bytes(range_hdr), len);
                assert(forall|i: int|
                    0 <= i < rs@.len() ==> ((#[trigger] rs@[i]).start < rs@[i].end <= len));
            }
            if rs.len() == 1 {
                let r0 = rs[0];
                push_header(
                    &mut hdrs,
                    "content-range".as_bytes_vec(),
                    content_range_value(r0.start, r0.end, len),
                );
                single_range_resp(e, req.method, hdrs, 206, r0, include_entity_headers_on_range)
            } else {
                let n = rs.len();
                let mut est: u64 = 0;
                let mut i: usize = 0;
                proof {
                    assert(rs@.subrange(0, 0) =~= Seq::<HttpRange>::empty());
                }
                while i < n
                    invariant
                        0 <= i <= n,
                        est == spec_est_len(rs@.subrange(0, i as int)),
                    decreases n - i,
                {
                    let r = rs[i];
                    est = sat_add_exec(est, sat_add_exec(80, r.end - r.start));
                    proof {
                        assert(rs@.subrange(0, i as int + 1).drop_last() =~= rs@.subrange(
                            0,
                            i as int,
                        ));
                        assert(rs@.subrange(0, i as int + 1).last() == rs@[i as int]);
                    }
                    i = i + 1;
                }
                proof {
                    assert(rs@.subrange(0, n as int) =~= rs@);
                }
                if est < len {
                    send_multipart(e, req.method, hdrs, &rs, len, include_entity_headers_on_range)
                } else {
                    single_range_resp(
                        e,
                        req.method,
                        hdrs,
                        200,
                        HttpRange { start: 0, end: len },
                        true,
                    )
                }
            }
        },
    }
}

/// The bytes a body denotes: its literal chunks, with each entity interval
/// replaced by the entity's content over it.
pub open spec fn spec_body_bytes(chunks: Seq<ChunkView>, bytes: Seq<u8>) -> Seq<u8>
    decreases chunks.len(),
{
    if chunks.len() == 0 {
        Seq::empty()
    } else {
        spec_body_bytes(chunks.drop_last(), bytes) + (match chunks.last() {
            ChunkView::Bytes(b) => b,
            ChunkView::FromEntity(a, b) => if a <= b <= bytes.len() {
                bytes.subrange(a as int, b as int)
            } else {
                Seq::empty()
            },
        })
    }
}

/// Every entity interval of the body lies within the entity.
pub open spec fn spec_body_wf(chunks: Seq<ChunkView>, bytes: Seq<u8>) -> bool {
    forall|i: int|
        0 <= i < chunks.len() ==> (#[trigger] chunks[i] matches ChunkView::FromEntity(a, b)
            ==> a <= b <= bytes.len())
}

/// Materializes a response body against the entity it was served from.
#[verifier::loop_isolation(false)]
pub fn body_bytes<E: Entity>(e: &E, resp: &Response) -> (r: Vec<u8>)
    requires
        spec_body_wf(resp@.body, e.model().bytes),
    ensures
        r@ == spec_body_bytes(resp@.body, e.model().bytes),
{
    let ghost chunks = resp@.body;
    let ghost bytes = e.model().bytes;
    let mut out: Vec<u8> = Vec::new();
    let n = resp.body.len();
    let mut i: usize = 0;
    proof {
        assert(out@ =~= spec_body_bytes(chunks.subrange(0, 0), bytes));
    }
    while i < n
        invariant
            0 <= i <= n,
            out@ == spec_body_bytes(chunks.subrange(0, i as int), bytes),
        decreases n - i,
    {
        proof {
            assert(chunks[i as int] == resp.body@[i as int]@);
            assert(chunks.subrange(0, i as int + 1).drop_last() =~= chunks.subrange(0, i as int));
            assert(chunks.subrange(0, i as int + 1).last() == chunks[i as int]);
        }
        match &resp.body[i] {
            BodyChunk::Bytes(b) => {
                push_bytes(&mut out, b.as_slice());
            },
            BodyChunk::FromEntity(a, b) => {
                let mut v = e.get_range(*a, *b);
                out.append(&mut v);
            },
        }
        proof {
            assert(out@ =~= spec_body_bytes(chunks.subrange(0, i as int + 1), bytes));
        }
        i = i + 1;
    }
    proof {
        assert(chunks.subrange(0, n as int) =~= chunks);
    }
    out
}

/// Serves GET and HEAD requests for a given byte-ranged entity, handling
/// conditional and subrange requests. The caller is expected to have
/// already determined the correct entity and to append `Expires`,
/// `Cache-Control` and `Vary` headers if desired. The clock is read once
/// for the `Date` header; everything else is `serve_at` on that instant.
pub fn serve<E: Entity>(e: &E, req: &Request) -> (resp: Response)
    ensures
        exists|now: u64|
            now < HTTP_DATE_LIMIT && resp@ == #[trigger] spec_serve(e.model(), req@, now),
{
    let mut now = now_unix_secs();
    if now >= HTTP_DATE_LIMIT {
        now = HTTP_DATE_LIMIT - 1;
    }
    serve_at(e, req, now)
}

} // verus!
