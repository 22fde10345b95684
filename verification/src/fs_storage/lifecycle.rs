//! What the backend keeps in memory, and the bookkeeping shared by every path
//! that adds a blob to a repository or removes one.

use crate::cache::{blob_key, content_at, without_key, SmallBlobCache};
use crate::dedupe::DedupeIndex;
use crate::digest::Digest;
use crate::error::{IoFailure, StorageError};
use crate::filter::BlobPresenceFilter;
use crate::fs_storage::dirty::{marked, IndexDirty};
use crate::gc::{cleared, stamped, touched, GcModel, GcTracker};
use crate::metadata::model::{backrefs_at, Op, Tables};
use crate::metadata::store::MetadataStore;
use crate::metadata::{BlobChecksum, MetaOp};
use crate::page::texts;
use crate::text::Text;
use vstd::multiset::Multiset;
use vstd::prelude::*;

verus! {

broadcast use vstd::string::group_string_axioms;

/// How a store is set up.
#[derive(Debug, Clone, Copy, PartialEq, Eq, Structural)]
pub struct StoragePolicy {
    /// How many bytes of small blobs are cached; 0 caches none.
    pub cache_max_bytes: usize,
    /// Blobs larger than this are not cached.
    pub small_blob_threshold: usize,
    /// Whether unreferenced blobs are collected.
    pub gc_enabled: bool,
    /// How long a blob stays unreferenced before it is collected, in
    /// nanoseconds.
    pub gc_delay: u64,
    /// Whether identical blobs of different repositories are linked.
    pub dedupe: bool,
}

/// The state of the filesystem backend.
pub struct FsStorage<M> {
    /// The metadata index.
    pub meta: M,
    /// Which blobs may be present.
    pub presence: BlobPresenceFilter,
    /// The contents of small blobs.
    pub cache: SmallBlobCache,
    /// What may be collected.
    pub gc: GcTracker,
    /// Where a copy of a blob is.
    pub dedupe: DedupeIndex,
    /// Which repositories' `index.json` lags the index.
    pub index_dirty: IndexDirty,
}

/// The model of an optional mutation.
pub open spec fn op_model(op: Option<MetaOp>) -> Option<Op> {
    match op {
        Some(op) => Some(op.model()),
        None => None,
    }
}

/// No manifest references the blob, and it is no manifest itself.
pub open spec fn unreferenced(t: Tables, repo: Text, digest: Text) -> bool {
    &&& backrefs_at(t.backrefs, (repo, digest)).len() == 0
    &&& !t.media_types.contains_key((repo, digest))
}

/// What records a blob's checksum, unless it is on record.
pub open spec fn checksum_op(
    t: Tables,
    repo: Text,
    digest: Text,
    checksum: Option<BlobChecksum>,
) -> Option<Op> {
    match checksum {
        Some(c) => if t.checksums.contains_key((repo, digest)) && t.checksums[(repo, digest)]
            == c {
            None
        } else {
            Some(Op::PutChecksum { repo, digest, checksum: c })
        },
        None => None,
    }
}

/// What records that a blob left, if its checksum is on record.
pub open spec fn removal_op(t: Tables, repo: Text, digest: Text) -> Option<Op> {
    if t.checksums.contains_key((repo, digest)) {
        Some(Op::DeleteBlob { repo, digest })
    } else {
        None
    }
}

/// The locations once `repo` is known to hold `digest`: the first one stays.
pub open spec fn located(m: Map<Text, Text>, enabled: bool, repo: Text, digest: Text) -> Map<
    Text,
    Text,
> {
    if enabled && !m.contains_key(digest) {
        m.insert(digest, repo)
    } else {
        m
    }
}

/// The locations once `repo` no longer holds `digest`.
pub open spec fn unlocated(m: Map<Text, Text>, repo: Text, digest: Text) -> Map<Text, Text> {
    if m.contains_key(digest) && m[digest] == repo {
        m.remove(digest)
    } else {
        m
    }
}

/// A blob that entered without being referenced is a candidate from then on.
pub open spec fn gc_entered(m: GcModel, t: Tables, repo: Text, digest: Text, now: u64) -> GcModel {
    if unreferenced(t, repo, digest) {
        stamped(m, (repo, digest), now)
    } else {
        m
    }
}

impl<M: MetadataStore> FsStorage<M> {
    /// Every part is in order.
    pub open spec fn wf(&self) -> bool {
        &&& self.meta.wf()
        &&& self.presence.wf()
        &&& self.cache.wf()
    }

    /// A store over `meta` that knows of no blob.
    pub fn with_config(meta: M, policy: &StoragePolicy) -> (r: FsStorage<M>)
        requires
            meta.wf(),
        ensures
            r.wf(),
            r.meta == meta,
            !r.presence.is_disabled(),
            r.presence.held() == Multiset::<int>::empty(),
            forall|k: Text| !#[trigger] r.presence.may_hold(k),
            r.cache.entries() == Seq::<(Text, Seq<u8>)>::empty(),
            r.cache.budget() == policy.cache_max_bytes,
            r.cache.limit() == (if policy.cache_max_bytes == 0 {
                0
            } else {
                policy.small_blob_threshold
            }),
            r.gc@ == (GcModel {
                enabled: policy.gc_enabled,
                delay: policy.gc_delay,
                candidates: Map::empty(),
                ready: false,
                roots: Set::empty(),
                unsafe_repos: Set::empty(),
            }),
            r.dedupe.is_enabled() == policy.dedupe,
            r.dedupe.locations() == Map::<Text, Text>::empty(),
            r.index_dirty@ == Map::<Text, u64>::empty(),
    {
        let cache = if policy.cache_max_bytes == 0 {
            SmallBlobCache::with_limits(0, 0)
        } else {
            SmallBlobCache::with_limits(policy.small_blob_threshold, policy.cache_max_bytes)
        };
        FsStorage {
            meta,
            presence: BlobPresenceFilter::new(),
            cache,
            gc: GcTracker::new(policy.gc_enabled, policy.gc_delay),
            dedupe: DedupeIndex::new(policy.dedupe),
            index_dirty: IndexDirty::new(),
        }
    }

    /// A blob found by the startup walk: it is present, and located.
    pub fn seed_blob(&mut self, repo: &str, digest: &str)
        requires
            old(self).wf(),
        ensures
            final(self).wf(),
            final(self).presence.has_recorded(&old(self).presence, blob_key(repo@, digest@)),
            final(self).presence.may_hold(blob_key(repo@, digest@)),
            forall|k: Text|
                old(self).presence.may_hold(k) ==> #[trigger] final(self).presence.may_hold(k),
            final(self).dedupe.is_enabled() == old(self).dedupe.is_enabled(),
            final(self).dedupe.locations() == located(
                old(self).dedupe.locations(),
                old(self).dedupe.is_enabled(),
                repo@,
                digest@,
            ),
            final(self).meta == old(self).meta,
            final(self).cache == old(self).cache,
            final(self).gc == old(self).gc,
            final(self).index_dirty == old(self).index_dirty,
    {
        self.presence.insert(repo, digest);
        self.dedupe.insert(repo, digest);
    }

    /// The manifests that reference a blob.
    pub fn backrefs(&self, repo: &str, blob: &Digest) -> (r: Vec<String>)
        requires
            self.wf(),
        ensures
            texts(r@) == backrefs_at(
                self.meta.tables().backrefs,
                (repo@, crate::digest::digest_text(blob@)),
            ),
    {
        self.meta.backrefs(repo, blob.as_string().as_str())
    }

    /// Something is about to depend on the blob: if it is a candidate, its grace
    /// period starts again.
    pub fn want_blob(&mut self, repo: &str, digest: &str, now: u64)
        requires
            old(self).wf(),
        ensures
            final(self).wf(),
            final(self).gc@ == touched(old(self).gc@, (repo@, digest@), now),
            final(self).meta == old(self).meta,
            final(self).presence == old(self).presence,
            final(self).cache == old(self).cache,
            final(self).dedupe == old(self).dedupe,
            final(self).index_dirty == old(self).index_dirty,
    {
        self.gc.touch(repo, digest, now);
    }

    /// Bookkeeping after a blob landed in a repository. What is returned is to be
    /// recorded; losing it only costs a later re-hash.
    pub fn blob_entered(
        &mut self,
        repo: &str,
        digest: &str,
        checksum: Option<BlobChecksum>,
        now: u64,
    ) -> (r: Option<MetaOp>)
        requires
            old(self).wf(),
        ensures
            final(self).wf(),
            op_model(r) == checksum_op(old(self).meta.tables(), repo@, digest@, checksum),
            final(self).presence.has_recorded(&old(self).presence, blob_key(repo@, digest@)),
            final(self).presence.may_hold(blob_key(repo@, digest@)),
            forall|k: Text|
                old(self).presence.may_hold(k) ==> #[trigger] final(self).presence.may_hold(k),
            final(self).dedupe.is_enabled() == old(self).dedupe.is_enabled(),
            final(self).dedupe.locations() == located(
                old(self).dedupe.locations(),
                old(self).dedupe.is_enabled(),
                repo@,
                digest@,
            ),
            final(self).gc@ == gc_entered(
                old(self).gc@,
                old(self).meta.tables(),
                repo@,
                digest@,
                now,
            ),
            final(self).meta == old(self).meta,
            final(self).cache == old(self).cache,
            final(self).index_dirty == old(self).index_dirty,
    {
        self.presence.insert(repo, digest);
        self.dedupe.insert(repo, digest);
        let known = self.meta.checksum(repo, digest);
        let op = match checksum {
            Some(c) => {
                let recorded = match known {
                    Some(k) => k == c,
                    None => false,
                };
                if recorded {
                    None
                } else {
                    Some(
                        MetaOp::PutChecksum {
                            repo: repo.to_owned(),
                            digest: digest.to_owned(),
                            crc32c: c.crc32c,
                            size: c.size,
                        },
                    )
                }
            },
            None => None,
        };
        let backrefs = self.meta.backrefs(repo, digest);
        assert(texts(backrefs@).len() == backrefs@.len());
        if backrefs.len() == 0 && self.meta.manifest_media_type(repo, digest).is_none() {
            self.gc.mark(repo, digest, now);
        }
        op
    }

    /// Bookkeeping after a blob left a repository: every derived structure
    /// forgets it. What is returned is to be recorded.
    pub fn blob_left(&mut self, repo: &str, digest: &str) -> (r: Option<MetaOp>)
        requires
            old(self).wf(),
        ensures
            final(self).wf(),
            op_model(r) == removal_op(old(self).meta.tables(), repo@, digest@),
            forall|k: Text| #[trigger]
                final(self).presence.may_hold(k) ==> old(self).presence.may_hold(k),
            final(self).presence.is_disabled() == old(self).presence.is_disabled(),
            final(self).presence.has_dropped(&old(self).presence, blob_key(repo@, digest@)),
            final(self).cache.entries() == without_key(
                old(self).cache.entries(),
                blob_key(repo@, digest@),
            ),
            content_at(final(self).cache.entries(), blob_key(repo@, digest@)) is None,
            final(self).cache.limit() == old(self).cache.limit(),
            final(self).cache.budget() == old(self).cache.budget(),
            final(self).dedupe.is_enabled() == old(self).dedupe.is_enabled(),
            final(self).dedupe.locations() == unlocated(
                old(self).dedupe.locations(),
                repo@,
                digest@,
            ),
            final(self).gc@ == cleared(old(self).gc@, (repo@, digest@)),
            final(self).meta == old(self).meta,
            final(self).index_dirty == old(self).index_dirty,
    {
        self.presence.remove(repo, digest);
        self.cache.invalidate(repo, digest);
        self.dedupe.remove(repo, digest);
        self.gc.clear(repo, digest);
        if self.meta.checksum(repo, digest).is_some() {
            Some(MetaOp::DeleteBlob { repo: repo.to_owned(), digest: digest.to_owned() })
        } else {
            None
        }
    }

    /// Marks a repository's `index.json` as lagging. Done before a mutation is
    /// recorded, so that no reader takes the file for current meanwhile.
    pub fn mark_index_dirty(&mut self, repo: &str)
        requires
            old(self).wf(),
        ensures
            final(self).wf(),
            final(self).index_dirty@ == marked(old(self).index_dirty@, repo@),
            final(self).meta == old(self).meta,
            final(self).presence == old(self).presence,
            final(self).cache == old(self).cache,
            final(self).gc == old(self).gc,
            final(self).dedupe == old(self).dedupe,
    {
        self.index_dirty.mark(repo);
    }

    /// Applies a mutation once it was recorded, and marks the repository again,
    /// so that a rebuild that predates the mutation does not count.
    pub fn apply_meta(&mut self, repo: &str, op: MetaOp, recorded: Result<(), IoFailure>) -> (r:
        Result<(), StorageError>)
        requires
            old(self).wf(),
        ensures
            final(self).wf(),
            recorded is Ok ==> r is Ok && final(self).meta.tables() == old(self).meta.after(
                op.model(),
            ),
            recorded matches Err(e) ==> r == Err::<(), StorageError>(StorageError::Io(e))
                && final(self).meta == old(self).meta,
            final(self).index_dirty@ == marked(old(self).index_dirty@, repo@),
            final(self).presence == old(self).presence,
            final(self).cache == old(self).cache,
            final(self).gc == old(self).gc,
            final(self).dedupe == old(self).dedupe,
    {
        let r = match recorded {
            Ok(()) => {
                self.meta.apply(op);
                Ok(())
            },
            Err(e) => Err(StorageError::Io(e)),
        };
        self.index_dirty.mark(repo);
        r
    }
}

/// Whether a blob about to land is charged: byte quotas are tracked, and no
/// regular file is there already.
pub fn is_charged(tracks_bytes: bool, existing: Option<(bool, u64)>) -> (r: bool)
    ensures
        r == (tracks_bytes && !(existing matches Some(e) && e.0)),
{
    let there = match existing {
        Some((regular, _)) => regular,
        None => false,
    };
    tracks_bytes && !there
}

/// The size to hand back to the quota for a blob that is removed: known only
/// where byte quotas are tracked and a regular file was found.
pub fn size_for_release(tracks_bytes: bool, found: Option<(bool, u64)>) -> (r: Option<u64>)
    ensures
        r == (if tracks_bytes && found is Some && (found->0).0 {
            Some((found->0).1)
        } else {
            None
        }),
{
    if !tracks_bytes {
        return None;
    }
    match found {
        Some((regular, size)) => {
            if regular {
                Some(size)
            } else {
                None
            }
        },
        None => None,
    }
}

} // verus!
