//! Length-prefixed framing of independently encoded records over a byte stream.
//!
//! A frame is an 8-byte little-endian length followed by exactly that many
//! payload bytes; a stream is a concatenation of frames with nothing between
//! them. `SerializeAnyhow` appends frames to a byte sink, `DeserializeAnyhow`
//! takes them off a byte source one at a time or in bulk. What a record's
//! payload bytes mean is the caller's business: records go in and come out as
//! the bytes of their encoding.
//!
//! - `wire` is the format as mathematics, with the laws that tie writing to
//!   reading.
//! - `stream` is what the framing asks of a sink and of a source.
//! - `memory` holds a sink and a source that live in memory.
//! - `writer` and `reader` are the two ends; `error` is what they report.

pub mod error;
pub mod memory;
mod prefix;
pub mod reader;
pub mod stream;
pub mod wire;
pub mod writer;

pub use error::FrameError;
pub use memory::EndOfInput;
pub use memory::MemorySink;
pub use memory::MemorySource;
pub use memory::SinkFull;
pub use reader::DeserializeAnyhow;
pub use stream::ByteSink;
pub use stream::ByteSource;
pub use wire::PREFIX_LEN;
pub use writer::SerializeAnyhow;
