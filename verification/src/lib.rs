//! Verified core of a content-addressed OCI storage backend.

pub mod basic_laws;
pub mod block;
pub mod bufpool;
pub mod cache;
pub mod chars;
pub mod dedupe;
pub mod digest;
pub mod error;
pub mod filter;
pub mod fs_storage;
pub mod gc;
pub mod hashing;
pub mod json;
pub mod layout;
pub mod lists;
pub mod metadata;
pub mod page;
pub mod table;
pub mod text;
