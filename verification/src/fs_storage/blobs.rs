//! Blobs: looking them up, reading, storing, deleting and mounting them.

use crate::cache::{blob_key, content_at, kept_with, used};
use crate::digest::{digest_of, digest_text, digest_under, Digest};
use crate::error::{IoFailure, StorageError};
use crate::fs_storage::lifecycle::{
    checksum_op, gc_entered, located, op_model, unlocated, FsStorage,
};
use crate::fs_storage::paths::{
    all_safe, blob_dir, blob_dir_rel, blob_path, blob_rel, first_unsafe, repo_path,
};
use crate::gc::touched;
use crate::hashing::{crc_call, crc_of};
use crate::metadata::store::MetadataStore;
use crate::metadata::{BlobChecksum, MetaOp};
use crate::page::texts;
use crate::text::{concat3, same, Text};
use vstd::prelude::*;

verus! {

broadcast use vstd::string::group_string_axioms;

/// What is known of a blob before the disk is asked.
#[derive(Debug, PartialEq, Eq)]
pub enum BlobLookup {
    /// It is not stored.
    Absent,
    /// It is stored, with this size on record.
    Recorded(u64),
    /// Only the file at this path tells.
    OnDisk(Vec<String>),
}

/// What a read of a blob goes by.
#[derive(Debug, PartialEq, Eq)]
pub enum BlobSource {
    /// The content is cached.
    Cached(Vec<u8>),
    /// The content is in the file at this path.
    File(Vec<String>),
}

/// What a mount does.
#[derive(Debug, PartialEq, Eq)]
pub enum MountStep {
    /// The source is not stored; the caller has to upload the blob.
    SourceAbsent,
    /// Source and destination are the same repository.
    AlreadyThere,
    /// The file is to be promoted from one directory to the other.
    Promote { from_dir: Vec<String>, to_dir: Vec<String>, leaf: String, size: u64 },
}

/// Why a promotion failed.
#[derive(Debug, Clone, PartialEq, Eq)]
pub enum PromoteFailure {
    /// Something that is no regular file stands at the destination.
    Exists,
    /// A directory on the way is missing.
    Gone,
    /// Anything else.
    Other(IoFailure),
}

/// The size of a regular file that was found; anything else is no blob.
pub fn size_found(stat: Option<(bool, u64)>) -> (r: Result<u64, StorageError>)
    ensures
        r == (if stat is Some && (stat->0).0 {
            Ok::<u64, StorageError>((stat->0).1)
        } else {
            Err::<u64, StorageError>(StorageError::NotFound)
        }),
{
    match stat {
        Some((regular, size)) => {
            if regular {
                Ok(size)
            } else {
                Err(StorageError::NotFound)
            }
        },
        None => Err(StorageError::NotFound),
    }
}

/// Checks that a content is what its digest says, under the digest's algorithm.
pub fn check_content(data: &[u8], digest: &Digest) -> (r: Result<(), StorageError>)
    ensures
        r is Ok <==> digest_under(data@, digest@.0) == digest@,
        r matches Err(e) ==> (e matches StorageError::DigestMismatch { expected, actual }
            && expected@ == digest_text(digest@) && actual@ == digest_text(
            digest_under(data@, digest@.0),
        )),
{
    let actual = digest_of(data, digest.algorithm());
    if actual.ct_eq(digest) {
        Ok(())
    } else {
        Err(
            StorageError::DigestMismatch {
                expected: digest.as_string(),
                actual: actual.as_string(),
            },
        )
    }
}

/// The checksum record of a content.
pub open spec fn checksum_of(data: Seq<u8>) -> BlobChecksum {
    BlobChecksum { crc32c: crc_of(data), size: data.len() as u64 }
}

/// Computes the checksum record of a content.
pub fn content_checksum(data: &[u8]) -> (r: BlobChecksum)
    ensures
        r == checksum_of(data@),
{
    BlobChecksum { crc32c: crc_call(data), size: data.len() as u64 }
}

/// What a failed mount is answered with.
pub fn mount_failed(failure: PromoteFailure, digest: &Digest) -> (r: StorageError)
    ensures
        (match failure {
            PromoteFailure::Exists => r matches StorageError::BadPath(p) && p@
                == "mount destination for "@ + digest_text(digest@) + " is not a regular file"@,
            PromoteFailure::Gone => r == StorageError::NotFound,
            PromoteFailure::Other(e) => r == StorageError::Io(e),
        }),
{
    match failure {
        PromoteFailure::Exists => StorageError::BadPath(
            concat3(
                "mount destination for ",
                digest.as_string().as_str(),
                " is not a regular file",
            ),
        ),
        PromoteFailure::Gone => StorageError::NotFound,
        PromoteFailure::Other(e) => StorageError::Io(e),
    }
}

impl<M: MetadataStore> FsStorage<M> {
    /// The key of a blob in the derived structures.
    pub open spec fn key_of(repo: Text, d: (Text, Text)) -> Text {
        blob_key(repo, digest_text(d))
    }

    /// Looks a blob up for a size or existence check. The path is validated
    /// first. A definite absence needs no disk; anything else is wanted from now
    /// on, and answered from the record where there is one.
    pub fn find_blob(&mut self, repo: &str, digest: &Digest, now: u64) -> (r: Result<
        BlobLookup,
        StorageError,
    >)
        requires
            old(self).wf(),
        ensures
            final(self).wf(),
            ({
                let k = (repo@, digest_text(digest@));
                match first_unsafe(repo_path(repo@)) {
                    Some(p) => r matches Err(StorageError::BadPath(s)) && s@ == p,
                    None => if !old(self).presence.may_hold(Self::key_of(repo@, digest@)) {
                        r matches Ok(BlobLookup::Absent)
                    } else if old(self).meta.tables().checksums.contains_key(k) {
                        r == Ok::<BlobLookup, StorageError>(
                            BlobLookup::Recorded(old(self).meta.tables().checksums[k].size),
                        )
                    } else {
                        r matches Ok(BlobLookup::OnDisk(path)) && texts(path@) == blob_path(
                            repo@,
                            digest@,
                        ) && all_safe(texts(path@))
                    },
                }
            }),
            final(self).gc@ == (if r is Err || (r matches Ok(BlobLookup::Absent)) {
                old(self).gc@
            } else {
                touched(old(self).gc@, (repo@, digest_text(digest@)), now)
            }),
            final(self).meta == old(self).meta,
            final(self).presence == old(self).presence,
            final(self).cache == old(self).cache,
            final(self).dedupe == old(self).dedupe,
            final(self).index_dirty == old(self).index_dirty,
    {
        let path = match blob_rel(repo, digest) {
            Ok(p) => p,
            Err(e) => {
                return Err(e);
            },
        };
        let name = digest.as_string();
        if !self.presence.maybe_present(repo, name.as_str()) {
            return Ok(BlobLookup::Absent);
        }
        self.want_blob(repo, name.as_str(), now);
        match self.meta.checksum(repo, name.as_str()) {
            Some(c) => Ok(BlobLookup::Recorded(c.size)),
            None => Ok(BlobLookup::OnDisk(path)),
        }
    }

    /// Where a blob is read from: the cache, or the file at a validated path. A
    /// definite absence is not found.
    pub fn blob_source(&mut self, repo: &str, digest: &Digest) -> (r: Result<
        BlobSource,
        StorageError,
    >)
        requires
            old(self).wf(),
        ensures
            final(self).wf(),
            (match content_at(old(self).cache.entries(), Self::key_of(repo@, digest@)) {
                Some(b) => r matches Ok(BlobSource::Cached(v)) && v@ == b,
                None => match first_unsafe(repo_path(repo@)) {
                    Some(p) => r matches Err(StorageError::BadPath(s)) && s@ == p,
                    None => if !old(self).presence.may_hold(Self::key_of(repo@, digest@)) {
                        r matches Err(StorageError::NotFound)
                    } else {
                        r matches Ok(BlobSource::File(path)) && texts(path@) == blob_path(
                            repo@,
                            digest@,
                        ) && all_safe(texts(path@))
                    },
                },
            }),
            final(self).cache.entries() == used(
                old(self).cache.entries(),
                Self::key_of(repo@, digest@),
            ),
            final(self).cache.limit() == old(self).cache.limit(),
            final(self).cache.budget() == old(self).cache.budget(),
            final(self).meta == old(self).meta,
            final(self).presence == old(self).presence,
            final(self).gc == old(self).gc,
            final(self).dedupe == old(self).dedupe,
            final(self).index_dirty == old(self).index_dirty,
    {
        let name = digest.as_string();
        if let Some(bytes) = self.cache.get(repo, name.as_str()) {
            return Ok(BlobSource::Cached(bytes));
        }
        let path = match blob_rel(repo, digest) {
            Ok(p) => p,
            Err(e) => {
                return Err(e);
            },
        };
        if !self.presence.maybe_present(repo, name.as_str()) {
            return Err(StorageError::NotFound);
        }
        Ok(BlobSource::File(path))
    }

    /// The file to stream a blob from. A definite absence is answered first.
    pub fn open_blob(&self, repo: &str, digest: &Digest) -> (r: Result<Vec<String>, StorageError>)
        requires
            self.wf(),
        ensures
            if !self.presence.may_hold(Self::key_of(repo@, digest@)) {
                r matches Err(StorageError::NotFound)
            } else {
                match first_unsafe(repo_path(repo@)) {
                    Some(p) => r matches Err(StorageError::BadPath(s)) && s@ == p,
                    None => r matches Ok(path) && texts(path@) == blob_path(repo@, digest@)
                        && all_safe(texts(path@)),
                }
            },
    {
        if !self.presence.maybe_present(repo, digest.as_string().as_str()) {
            return Err(StorageError::NotFound);
        }
        blob_rel(repo, digest)
    }

    /// Caches what was read of a blob.
    pub fn blob_was_read(&mut self, repo: &str, digest: &Digest, data: &[u8])
        requires
            old(self).wf(),
        ensures
            final(self).wf(),
            final(self).cache.entries() == kept_with(
                old(self).cache.entries(),
                old(self).cache.limit(),
                old(self).cache.budget(),
                Self::key_of(repo@, digest@),
                data@,
            ),
            final(self).cache.limit() == old(self).cache.limit(),
            final(self).cache.budget() == old(self).cache.budget(),
            final(self).meta == old(self).meta,
            final(self).presence == old(self).presence,
            final(self).gc == old(self).gc,
            final(self).dedupe == old(self).dedupe,
            final(self).index_dirty == old(self).index_dirty,
    {
        self.cache.put(repo, digest.as_string().as_str(), data);
    }

    /// Another repository's copy that a blob can be linked from: the repository
    /// and the directory the copy is in.
    pub fn dedupe_source(&self, repo: &str, digest: &Digest) -> (r: Option<(String, Vec<String>)>)
        requires
            self.wf(),
        ensures
            ({
                let m = self.dedupe.locations();
                let d = digest_text(digest@);
                &&& r is Some <==> self.dedupe.is_enabled() && m.contains_key(d) && m[d] != repo@
                    && first_unsafe(repo_path(m[d])) is None
                &&& r matches Some(s) ==> s.0@ == m[d] && texts(s.1@) == blob_dir(
                    m[d],
                    digest@.0,
                ) && all_safe(texts(s.1@))
            }),
    {
        let name = digest.as_string();
        let found = match self.dedupe.locate(name.as_str(), repo) {
            Some(f) => f,
            None => {
                return None;
            },
        };
        match blob_dir_rel(found.as_str(), digest) {
            Ok((dir, _)) => Some((found, dir)),
            Err(_) => None,
        }
    }

    /// Linking from another repository's copy failed: a location that is gone is
    /// forgotten.
    pub fn dedupe_failed(&mut self, source: &str, digest: &Digest, gone: bool)
        requires
            old(self).wf(),
        ensures
            final(self).wf(),
            final(self).dedupe.is_enabled() == old(self).dedupe.is_enabled(),
            final(self).dedupe.locations() == (if gone {
                unlocated(old(self).dedupe.locations(), source@, digest_text(digest@))
            } else {
                old(self).dedupe.locations()
            }),
            final(self).meta == old(self).meta,
            final(self).presence == old(self).presence,
            final(self).cache == old(self).cache,
            final(self).gc == old(self).gc,
            final(self).index_dirty == old(self).index_dirty,
    {
        if gone {
            self.dedupe.remove(source, digest.as_string().as_str());
        }
    }

    /// A blob given as bytes is stored: it enters the repository, and its content
    /// is cached. What is returned is to be recorded.
    pub fn blob_stored(&mut self, repo: &str, digest: &Digest, data: &[u8], now: u64) -> (r: Option<
        MetaOp,
    >)
        requires
            old(self).wf(),
        ensures
            final(self).wf(),
            op_model(r) == checksum_op(
                old(self).meta.tables(),
                repo@,
                digest_text(digest@),
                Some(checksum_of(data@)),
            ),
            final(self).presence.has_recorded(
                &old(self).presence,
                Self::key_of(repo@, digest@),
            ),
            final(self).presence.may_hold(Self::key_of(repo@, digest@)),
            forall|k: Text|
                old(self).presence.may_hold(k) ==> #[trigger] final(self).presence.may_hold(k),
            final(self).dedupe.is_enabled() == old(self).dedupe.is_enabled(),
            final(self).dedupe.locations() == located(
                old(self).dedupe.locations(),
                old(self).dedupe.is_enabled(),
                repo@,
                digest_text(digest@),
            ),
            final(self).gc@ == gc_entered(
                old(self).gc@,
                old(self).meta.tables(),
                repo@,
                digest_text(digest@),
                now,
            ),
            final(self).cache.entries() == kept_with(
                old(self).cache.entries(),
                old(self).cache.limit(),
                old(self).cache.budget(),
                Self::key_of(repo@, digest@),
                data@,
            ),
            final(self).cache.limit() == old(self).cache.limit(),
            final(self).cache.budget() == old(self).cache.budget(),
            final(self).meta == old(self).meta,
            final(self).index_dirty == old(self).index_dirty,
    {
        let name = digest.as_string();
        let op = self.blob_entered(repo, name.as_str(), Some(content_checksum(data)), now);
        self.cache.put(repo, name.as_str(), data);
        op
    }

    /// Starts a mount, given the size of the source or why there is none.
    pub fn mount_start(
        &mut self,
        from_repo: &str,
        to_repo: &str,
        digest: &Digest,
        size: Result<u64, StorageError>,
    ) -> (r: Result<MountStep, StorageError>)
        requires
            old(self).wf(),
        ensures
            final(self).wf(),
            (match size {
                Err(StorageError::NotFound) => r matches Ok(MountStep::SourceAbsent),
                Err(e) => r == Err::<MountStep, StorageError>(e),
                Ok(n) => match first_unsafe(repo_path(from_repo@)) {
                    Some(p) => r matches Err(StorageError::BadPath(s)) && s@ == p,
                    None => match first_unsafe(repo_path(to_repo@)) {
                        Some(p) => r matches Err(StorageError::BadPath(s)) && s@ == p,
                        None => if from_repo@ == to_repo@ {
                            r matches Ok(MountStep::AlreadyThere)
                        } else {
                            r matches Ok(MountStep::Promote { from_dir, to_dir, leaf, size })
                                && texts(from_dir@) == blob_dir(from_repo@, digest@.0)
                                && texts(to_dir@) == blob_dir(to_repo@, digest@.0) && leaf@
                                == digest@.1 && size == n
                        },
                    },
                },
            }),
            forall|k: Text|
                old(self).presence.may_hold(k) ==> #[trigger] final(self).presence.may_hold(k),
            (r matches Ok(MountStep::AlreadyThere)) ==> final(self).presence.may_hold(
                Self::key_of(to_repo@, digest@),
            ) && final(self).presence.has_recorded(
                &old(self).presence,
                Self::key_of(to_repo@, digest@),
            ),
            !(r matches Ok(MountStep::AlreadyThere)) ==> final(self).presence == old(
                self,
            ).presence,
            final(self).meta == old(self).meta,
            final(self).cache == old(self).cache,
            final(self).gc == old(self).gc,
            final(self).dedupe == old(self).dedupe,
            final(self).index_dirty == old(self).index_dirty,
    {
        let size: u64 = match size {
            Ok(n) => n,
            Err(StorageError::NotFound) => {
                return Ok(MountStep::SourceAbsent);
            },
            Err(e) => {
                return Err(e);
            },
        };
        let (from_dir, leaf) = match blob_dir_rel(from_repo, digest) {
            Ok(p) => p,
            Err(e) => {
                return Err(e);
            },
        };
        let (to_dir, _) = match blob_dir_rel(to_repo, digest) {
            Ok(p) => p,
            Err(e) => {
                return Err(e);
            },
        };
        if same(from_repo, to_repo) {
            self.presence.insert(to_repo, digest.as_string().as_str());
            return Ok(MountStep::AlreadyThere);
        }
        Ok(MountStep::Promote { from_dir, to_dir, leaf, size })
    }

    /// A mount was carried out: the blob enters the destination, with the
    /// checksum that the source has on record. What is returned is to be
    /// recorded.
    pub fn mount_done(&mut self, from_repo: &str, to_repo: &str, digest: &Digest, now: u64) -> (r:
        Option<MetaOp>)
        requires
            old(self).wf(),
        ensures
            final(self).wf(),
            op_model(r) == checksum_op(
                old(self).meta.tables(),
                to_repo@,
                digest_text(digest@),
                ({
                    let m = old(self).meta.tables().checksums;
                    let k = (from_repo@, digest_text(digest@));
                    if m.contains_key(k) {
                        Some(m[k])
                    } else {
                        None
                    }
                }),
            ),
            final(self).presence.has_recorded(
                &old(self).presence,
                Self::key_of(to_repo@, digest@),
            ),
            final(self).presence.may_hold(Self::key_of(to_repo@, digest@)),
            forall|k: Text|
                old(self).presence.may_hold(k) ==> #[trigger] final(self).presence.may_hold(k),
            final(self).dedupe.is_enabled() == old(self).dedupe.is_enabled(),
            final(self).dedupe.locations() == located(
                old(self).dedupe.locations(),
                old(self).dedupe.is_enabled(),
                to_repo@,
                digest_text(digest@),
            ),
            final(self).gc@ == gc_entered(
                old(self).gc@,
                old(self).meta.tables(),
                to_repo@,
                digest_text(digest@),
                now,
            ),
            final(self).meta == old(self).meta,
            final(self).cache == old(self).cache,
            final(self).index_dirty == old(self).index_dirty,
    {
        let name = digest.as_string();
        let checksum = self.meta.checksum(from_repo, name.as_str());
        self.blob_entered(to_repo, name.as_str(), checksum, now)
    }
}

} // verus!
