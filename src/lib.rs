//! Chunked, nullable columns: iteration across chunk boundaries, a dense
//! fast path, and construction from a sequence of optional values.
pub mod builder;
pub mod chunk;
pub mod chunked_array;
pub mod iterator;
pub mod text;

pub use builder::PrimitiveChunkedBuilder;
pub use chunk::Chunk;
pub use chunked_array::{ChunkedArray, UInt32Chunked};
pub use iterator::{ChunkIterState, ChunkIterator, ChunkNumIter};
pub use text::{AppendError, Utf8Chunked, Utf8ChunkedBuilder, MAX_OFFSET};
