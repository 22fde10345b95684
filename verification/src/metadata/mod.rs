//! The metadata index: tags, manifest media types, referrers, backrefs and blob
//! checksums, derived from the layout and always rebuildable from it.

pub mod append_laws;
pub mod codec;
pub mod compact;
pub mod engine;
pub mod engine_laws;
pub mod format_laws;
pub mod image;
pub mod laws;
pub mod log;
pub mod log_store;
pub mod model;
pub mod query;
pub mod redb;
pub mod redb_laws;
pub mod redb_model;
pub mod redb_store;
pub mod referrers;
pub mod snapshot;
pub mod state;
pub mod state_laws;
pub mod store;
pub mod store_laws;
pub mod table_laws;
pub mod wal_hmac;

use crate::page::texts;
use model::Op;
use vstd::prelude::*;

verus! {

/// A tag/manifest/referrer/blob mutation the store can record and replay.
#[derive(Debug, Clone, PartialEq, Eq)]
pub enum MetaOp {
    /// A manifest was stored, committed together with everything derived from
    /// it.
    PutManifest {
        repo: String,
        digest: String,
        media_type: String,
        tag: Option<String>,
        /// Every object the manifest references gains `digest` in its backrefs.
        references: Vec<String>,
        /// `(subject, referrer descriptor)` when the manifest has a subject.
        referrer: Option<(String, Vec<u8>)>,
    },
    /// Backref edges recorded on their own.
    PutBackrefs { repo: String, manifest: String, blobs: Vec<String> },
    /// A manifest (and every tag pointing at it) was deleted.
    DeleteManifest { repo: String, digest: String },
    /// A referrer descriptor was recorded against a subject digest.
    PutReferrer { repo: String, subject: String, referrer: String, descriptor: Vec<u8> },
    /// A blob's CRC32C and size, recorded when it enters the store.
    PutChecksum { repo: String, digest: String, crc32c: u32, size: u64 },
    /// A blob left the store.
    DeleteBlob { repo: String, digest: String },
}

impl MetaOp {
    /// The mutation over models.
    pub open spec fn model(self) -> Op {
        match self {
            MetaOp::PutManifest { repo, digest, media_type, tag, references, referrer } =>
                Op::PutManifest {
                    repo: repo@,
                    digest: digest@,
                    media_type: media_type@,
                    tag: match tag {
                        Some(t) => Some(t@),
                        None => None,
                    },
                    references: texts(references@),
                    referrer: match referrer {
                        Some(r) => Some((r.0@, r.1@)),
                        None => None,
                    },
                },
            MetaOp::PutBackrefs { repo, manifest, blobs } => Op::PutBackrefs {
                repo: repo@,
                manifest: manifest@,
                blobs: texts(blobs@),
            },
            MetaOp::DeleteManifest { repo, digest } => Op::DeleteManifest {
                repo: repo@,
                digest: digest@,
            },
            MetaOp::PutReferrer { repo, subject, referrer, descriptor } => Op::PutReferrer {
                repo: repo@,
                subject: subject@,
                referrer: referrer@,
                descriptor: descriptor@,
            },
            MetaOp::PutChecksum { repo, digest, crc32c, size } => Op::PutChecksum {
                repo: repo@,
                digest: digest@,
                checksum: BlobChecksum { crc32c, size },
            },
            MetaOp::DeleteBlob { repo, digest } => Op::DeleteBlob { repo: repo@, digest: digest@ },
        }
    }
}

/// The CRC32C and size recorded for a blob when it was written.
#[derive(Debug, Clone, Copy, PartialEq, Eq, Structural)]
pub struct BlobChecksum {
    pub crc32c: u32,
    pub size: u64,
}

/// One referrer: its digest and its descriptor bytes.
pub type Referrer = (String, Vec<u8>);

} // verus!
