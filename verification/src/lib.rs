//! Block-granular storage primitives for an embedded database engine:
//! block addresses, page buffers with a typed big-endian binary encoding,
//! and the arithmetic that maps blocks of a file to byte ranges on disk.

pub mod block_id;
pub mod codec;
pub mod layout;
pub mod page;
