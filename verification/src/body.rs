//! The streaming body machinery: a fixed-size buffered sink that yields
//! complete chunks to a downstream consumer, and the builder that decides
//! the headers and writer of a streaming response.
//!
//! The sink is the pure state machine; a transport runs it from its writer
//! task and pushes the returned chunks to the reader side. Its contract
//! carries the ordering guarantee: the bytes handed downstream are exactly
//! the bytes written, in order, once the sink is closed.

use vstd::prelude::*;
use vstd::string::*;

use crate::negotiation::{should_gzip, spec_should_gzip};
use crate::serving::{Method, Request};

verus! {

broadcast use crate::bytes::lemma_vec_u8_deep_view;

/// The lifecycle of a chunked sink.
#[derive(Clone, Copy, Debug, PartialEq, Eq, Structural)]
pub enum SinkState {
    /// Accepting writes.
    Open,
    /// Flushed and finished; the downstream sees end-of-stream.
    Closed,
    /// Abandoned; the downstream sees a fatal error.
    Aborted,
}

/// The concatenation of a sequence of chunks.
pub open spec fn concat_chunks(cs: Seq<Seq<u8>>) -> Seq<u8>
    decreases cs.len(),
{
    if cs.len() == 0 {
        Seq::empty()
    } else {
        concat_chunks(cs.drop_last()) + cs.last()
    }
}

/// A fixed-size buffered byte sink. Writes accumulate in a buffer of
/// `chunk_size` bytes; each time the buffer fills, one complete chunk is
/// handed back for the downstream consumer. Flushing hands back any
/// partial buffer; closing flushes and ends the stream.
pub struct ChunkedSink {
    chunk_size: usize,
    buf: Vec<u8>,
    state: SinkState,
    written: Ghost<Seq<u8>>,
    emitted: Ghost<Seq<u8>>,
}

impl ChunkedSink {
    /// All bytes accepted by writes so far.
    pub closed spec fn written(&self) -> Seq<u8> {
        self.written@
    }

    /// All bytes handed downstream so far.
    pub closed spec fn emitted(&self) -> Seq<u8> {
        self.emitted@
    }

    pub closed spec fn sink_state(&self) -> SinkState {
        self.state
    }

    pub closed spec fn spec_chunk_size(&self) -> usize {
        self.chunk_size
    }

    /// The sink's invariant: the buffer is always strictly smaller than a
    /// chunk, and what was handed downstream plus what is buffered is
    /// exactly what was written.
    pub closed spec fn wf(&self) -> bool {
        &&& self.chunk_size > 0
        &&& self.buf@.len() < self.chunk_size
        &&& self.emitted@ + self.buf@ == self.written@
    }

    /// The sink's current lifecycle state.
    pub fn state(&self) -> (r: SinkState)
        ensures
            r == self.sink_state(),
    {
        self.state
    }

    /// A fresh, open sink buffering up to `chunk_size` bytes.
    pub fn new(chunk_size: usize) -> (r: ChunkedSink)
        requires
            chunk_size > 0,
        ensures
            r.wf(),
            r.sink_state() == SinkState::Open,
            r.spec_chunk_size() == chunk_size,
            r.written() == Seq::<u8>::empty(),
            r.emitted() == Seq::<u8>::empty(),
    {
        let r = ChunkedSink {
            chunk_size,
            buf: Vec::new(),
            state: SinkState::Open,
            written: Ghost(Seq::empty()),
            emitted: Ghost(Seq::empty()),
        };
        proof {
            assert(r.emitted@ + r.buf@ =~= r.written@);
        }
        r
    }

    /// Accepts `data`, returning the complete chunks (each exactly
    /// `chunk_size` bytes) to hand downstream, in order.
    #[verifier::loop_isolation(false)]
    pub fn write(&mut self, data: &[u8]) -> (out: Vec<Vec<u8>>)
        requires
            old(self).wf(),
            old(self).sink_state() == SinkState::Open,
        ensures
            final(self).wf(),
            final(self).sink_state() == SinkState::Open,
            final(self).spec_chunk_size() == old(self).spec_chunk_size(),
            final(self).written() == old(self).written() + data@,
            final(self).emitted() == old(self).emitted() + concat_chunks(out.deep_view()),
            forall|i: int|
                0 <= i < out.deep_view().len() ==> (#[trigger] out.deep_view()[i]).len()
                    == final(self).spec_chunk_size(),
    {
        let mut out: Vec<Vec<u8>> = Vec::new();
        let n = data.len();
        let mut i: usize = 0;
        proof {
            assert(out.deep_view() =~~= Seq::<Seq<u8>>::empty());
            assert(data@.subrange(0, 0) =~= Seq::<u8>::empty());
            assert(self.written@ + data@.subrange(0, 0) =~= self.written@);
            assert(self.emitted@ + concat_chunks(out.deep_view()) =~= self.emitted@);
        }
        while i < n
            invariant
                0 <= i <= n,
                self.wf(),
                self.state == SinkState::Open,
                self.chunk_size == old(self).chunk_size,
                self.written@ == old(self).written@ + data@.subrange(0, i as int),
                self.emitted@ == old(self).emitted@ + concat_chunks(out.deep_view()),
                forall|j: int|
                    0 <= j < out.deep_view().len() ==> (#[trigger] out.deep_view()[j]).len()
                        == self.chunk_size,
            decreases n - i,
        {
            let b = *vstd::slice::slice_index_get(data, i);
            self.buf.push(b);
            proof {
                self.written@ = self.written@ + seq![b];
                assert(data@.subrange(0, i as int + 1) =~= data@.subrange(0, i as int) + seq![b]);
                assert(self.written@ =~= old(self).written@ + data@.subrange(0, i as int + 1));
            }
            if self.buf.len() == self.chunk_size {
                let mut full: Vec<u8> = Vec::new();
                std::mem::swap(&mut full, &mut self.buf);
                proof {
                    self.emitted@ = self.emitted@ + full@;
                    assert(self.emitted@ + self.buf@ =~= self.written@);
                }
                let ghost prev = out.deep_view();
                out.push(full);
                proof {
                    assert(out.deep_view() =~~= prev + seq![full@]);
                    assert((prev + seq![full@]).drop_last() =~= prev);
                    assert(concat_chunks(out.deep_view()) =~= concat_chunks(prev) + full@);
                    assert(self.emitted@ =~= old(self).emitted@ + concat_chunks(out.deep_view()));
                }
            }
            proof {
                assert(self.emitted@ + self.buf@ =~= self.written@);
            }
            i = i + 1;
        }
        proof {
            assert(data@.subrange(0, n as int) =~= data@);
        }
        out
    }

    /// Hands back the partial buffer, if any: after a flush everything
    /// written has been handed downstream.
    pub fn flush(&mut self) -> (out: Option<Vec<u8>>)
        requires
            old(self).wf(),
            old(self).sink_state() == SinkState::Open,
        ensures
            final(self).wf(),
            final(self).sink_state() == SinkState::Open,
            final(self).spec_chunk_size() == old(self).spec_chunk_size(),
            final(self).written() == old(self).written(),
            final(self).emitted() == final(self).written(),
            match out {
                Some(c) => old(self).emitted() + c@ == final(self).emitted() && c@.len() > 0,
                None => old(self).emitted() == final(self).emitted(),
            },
    {
        if self.buf.len() == 0 {
            proof {
                assert(self.emitted@ =~= self.written@);
            }
            return None;
        }
        let mut partial: Vec<u8> = Vec::new();
        std::mem::swap(&mut partial, &mut self.buf);
        proof {
            self.emitted@ = self.emitted@ + partial@;
            assert(self.emitted@ =~= self.written@);
            assert(self.emitted@ + self.buf@ =~= self.written@);
        }
        Some(partial)
    }

    /// Flushes and ends the stream. Once closed, the bytes handed
    /// downstream are exactly the bytes written, in order.
    pub fn close(&mut self) -> (out: Option<Vec<u8>>)
        requires
            old(self).wf(),
            old(self).sink_state() == SinkState::Open,
        ensures
            final(self).wf(),
            final(self).sink_state() == SinkState::Closed,
            final(self).spec_chunk_size() == old(self).spec_chunk_size(),
            final(self).written() == old(self).written(),
            final(self).emitted() == final(self).written(),
            match out {
                Some(c) => old(self).emitted() + c@ == final(self).emitted() && c@.len() > 0,
                None => old(self).emitted() == final(self).emitted(),
            },
    {
        let out = self.flush();
        self.state = SinkState::Closed;
        out
    }

    /// Abandons the stream: the downstream consumer is to see a fatal
    /// error in place of end-of-stream. Idempotent.
    pub fn abort(&mut self)
        requires
            old(self).wf(),
        ensures
            final(self).wf(),
            final(self).sink_state() == SinkState::Aborted,
            final(self).written() == old(self).written(),
            final(self).emitted() == old(self).emitted(),
    {
        self.state = SinkState::Aborted;
    }
}

/// What a streaming response's writer is to do with the bytes: pass them
/// through, or feed them through a gzip compressor at the given level
/// before the sink. The compressor itself lives with the transport.
#[derive(Clone, Copy, Debug, PartialEq, Eq, Structural)]
pub enum BodyCoding {
    Raw,
    Gzipped(u8),
}

/// A builder for a streaming response: decides content coding from the
/// request and hands out the sink the caller writes into.
pub struct StreamingBody {
    method: Method,
    accept_encoding: Option<Vec<u8>>,
    chunk_size: usize,
    gzip_level: u8,
}

impl StreamingBody {
    pub closed spec fn spec_method(&self) -> Method {
        self.method
    }

    pub closed spec fn spec_accept_encoding(&self) -> Option<Seq<u8>> {
        self.accept_encoding.deep_view()
    }

    pub closed spec fn spec_chunk_size(&self) -> usize {
        self.chunk_size
    }

    pub closed spec fn spec_gzip_level(&self) -> u8 {
        self.gzip_level
    }

    pub closed spec fn wf(&self) -> bool {
        self.chunk_size > 0 && self.gzip_level <= 9
    }

    /// Overrides the sink's chunk size (default 4096).
    pub fn chunk_size(self, n: usize) -> (r: StreamingBody)
        requires
            n > 0,
        ensures
            r.spec_chunk_size() == n,
            r.spec_method() == self.spec_method(),
            r.spec_accept_encoding() == self.spec_accept_encoding(),
            r.spec_gzip_level() == self.spec_gzip_level(),
    {
        StreamingBody { chunk_size: n, ..self }
    }

    /// Overrides the gzip compression level (default 6); 0 disables
    /// compression.
    pub fn gzip_level(self, n: u8) -> (r: StreamingBody)
        requires
            n <= 9,
        ensures
            r.spec_gzip_level() == n,
            r.spec_method() == self.spec_method(),
            r.spec_accept_encoding() == self.spec_accept_encoding(),
            r.spec_chunk_size() == self.spec_chunk_size(),
    {
        StreamingBody { gzip_level: n, ..self }
    }

    /// Decides the response: the headers to append (`Vary` always,
    /// `Content-Encoding: gzip` when negotiation chose gzip and the level
    /// is positive), and for anything but HEAD the coding and the sink the
    /// caller streams the body through. No `Content-Length` is set; the
    /// transport supplies chunked framing.
    pub fn build(self) -> (r: (Vec<(Vec<u8>, Vec<u8>)>, Option<(BodyCoding, ChunkedSink)>))
        requires
            self.wf(),
        ensures
            r.0.deep_view() == spec_streaming_headers(
                self.spec_accept_encoding(),
                self.spec_gzip_level(),
            ),
            r.1 is Some <==> self.spec_method() != Method::Head,
            r.1 is Some ==> {
                let (coding, sink) = r.1->Some_0;
                &&& coding == spec_streaming_coding(
                    self.spec_accept_encoding(),
                    self.spec_gzip_level(),
                )
                &&& sink.wf()
                &&& sink.sink_state() == SinkState::Open
                &&& sink.spec_chunk_size() == self.spec_chunk_size()
                &&& sink.written() == Seq::<u8>::empty()
            },
    {
        let gz = should_gzip(crate::serving::opt_slice(&self.accept_encoding))
            && self.gzip_level > 0;
        let mut hdrs: Vec<(Vec<u8>, Vec<u8>)> = Vec::new();
        proof {
            assert(hdrs.deep_view() =~~= Seq::<(Seq<u8>, Seq<u8>)>::empty());
        }
        crate::serving::push_header(
            &mut hdrs,
            "vary".as_bytes_vec(),
            "accept-encoding".as_bytes_vec(),
        );
        if gz {
            crate::serving::push_header(
                &mut hdrs,
                "content-encoding".as_bytes_vec(),
                "gzip".as_bytes_vec(),
            );
        }
        proof {
            assert(hdrs.deep_view() =~~= spec_streaming_headers(
                self.spec_accept_encoding(),
                self.spec_gzip_level(),
            ));
        }
        if self.method == Method::Head {
            (hdrs, None)
        } else {
            let coding = if gz {
                BodyCoding::Gzipped(self.gzip_level)
            } else {
                BodyCoding::Raw
            };
            let sink = ChunkedSink::new(self.chunk_size);
            (hdrs, Some((coding, sink)))
        }
    }
}

/// The headers a streaming response carries.
pub open spec fn spec_streaming_headers(
    accept_encoding: Option<Seq<u8>>,
    gzip_level: u8,
) -> Seq<(Seq<u8>, Seq<u8>)> {
    let h = seq![("vary".spec_bytes(), "accept-encoding".spec_bytes())];
    if spec_should_gzip(accept_encoding) && gzip_level > 0 {
        h + seq![("content-encoding".spec_bytes(), "gzip".spec_bytes())]
    } else {
        h
    }
}

/// The coding a streaming response's writer applies.
pub open spec fn spec_streaming_coding(
    accept_encoding: Option<Seq<u8>>,
    gzip_level: u8,
) -> BodyCoding {
    if spec_should_gzip(accept_encoding) && gzip_level > 0 {
        BodyCoding::Gzipped(gzip_level)
    } else {
        BodyCoding::Raw
    }
}

/// Starts a streaming response for the request: chunk size 4096 and gzip
/// level 6 unless overridden.
pub fn streaming_body(req: &Request) -> (r: StreamingBody)
    ensures
        r.spec_method() == req@.method,
        r.spec_accept_encoding() == req@.accept_encoding,
        r.spec_chunk_size() == 4096,
        r.spec_gzip_level() == 6,
        r.wf(),
{
    StreamingBody {
        method: req.method,
        accept_encoding: match &req.accept_encoding {
            Some(v) => Some(vstd::slice::slice_to_vec(v.as_slice())),
            None => None,
        },
        chunk_size: 4096,
        gzip_level: 6,
    }
}

} // verus!
