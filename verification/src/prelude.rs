//! The names that most users of the library need.

pub use crate::chunk::Chunk;
pub use crate::chunk::ChunkDataType;
pub use crate::chunk::ChunkIdentifier;
pub use crate::chunk::FileChunk;
pub use crate::chunk::RiffError;
pub use crate::chunk::RiffResult;
pub use crate::riff::ChunkIterator;
pub use crate::riff::RiffStream;
