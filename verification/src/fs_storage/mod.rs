//! The filesystem backend: what it keeps in memory, and every decision that its
//! operations take. Touching files is left to the caller, which hands in what it
//! found and carries out what is decided.

pub mod blobs;
pub mod collect_laws;
pub mod dirty;
pub mod fast_restart;
pub mod gc;
pub mod index;
pub mod laws;
pub mod lifecycle;
pub mod listings;
pub mod locks;
pub mod manifests;
pub mod paths;
pub mod resolve_laws;
pub mod session_laws;
pub mod staged;
pub mod uploads;
