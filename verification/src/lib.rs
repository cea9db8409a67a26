pub mod body;
pub mod bytes;
pub mod dates;
pub mod dec;
pub mod etag;
pub mod laws;
pub mod mem;
pub mod negotiation;
pub mod range;
pub mod serving;

pub use body::{streaming_body, BodyCoding, ChunkedSink, SinkState, StreamingBody};
pub use mem::MemEntity;
pub use negotiation::should_gzip;
pub use serving::{body_bytes, serve, serve_at, BodyChunk, Entity, Method, ParseError, Request,
    Response};
