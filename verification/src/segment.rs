//! The immutable sorted-run segment: a stream of LZ4-framed, CRC-checked
//! value blocks plus a sparse block index.

pub mod index;
pub mod reader;
pub mod stream;
pub mod writer;
