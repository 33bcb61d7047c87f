//! Byte containers: an owned window over a buffer, and a writer that
//! serialises nested headers in place.

pub mod bytes;
pub mod cursor;
pub mod inline;
pub mod slice;
pub mod store;

pub use bytes::Bytes;
pub use cursor::Cursor;
pub use inline::Inline;
pub use slice::Slice;
pub use store::Store;
