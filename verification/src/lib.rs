//! Block-level storage primitives for a disk-based, record-oriented database:
//! block addresses, the page codec, and the arithmetic that maps blocks to
//! file offsets.

pub mod block;
pub mod codec;
pub mod filemanager;
pub mod page;
