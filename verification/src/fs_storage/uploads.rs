//! Upload sessions: beginning, appending, finishing and aborting them.
//!
//! Finishing alternates file work and decisions. The caller carries out one
//! [`FinishAction`] after the other and hands back what came of each as a
//! [`FinishEvent`].

use crate::cache::{blob_key, kept_with};
use crate::digest::{digest_text, digest_under, hex_text_is_lower, is_lower_hex, Digest};
use crate::error::{map_not_found, IoFailure, StorageError};
use crate::fs_storage::blobs::checksum_of;
use crate::fs_storage::lifecycle::{checksum_op, gc_entered, located, op_model, FsStorage};
use crate::fs_storage::paths::{
    blob_dir, blob_dir_rel, first_unsafe, is_safe, repo_path, upload_dir, upload_dir_rel,
    upload_refused,
};
use crate::fs_storage::staged::StagedHash;
use crate::hashing::{crc_of, hex_call, hex_text};
use crate::metadata::store::MetadataStore;
use crate::metadata::{BlobChecksum, MetaOp};
use crate::page::texts;
use crate::text::{concat3, same, Text};
use vstd::prelude::*;

verus! {

broadcast use vstd::string::group_string_axioms;

/// The largest content that is read back to warm the cache, whatever the
/// configuration says.
pub const WARM_CAP: usize = 8388608;

/// Begins a session under an id made of random bytes: the id, and the directory
/// its staging file is created in.
pub fn begin_upload(repo: &str, random: &[u8]) -> (r: Result<(String, Vec<String>), StorageError>)
    requires
        random@.len() == 16,
    ensures
        r is Ok <==> first_unsafe(repo_path(repo@)) is None,
        r matches Ok(v) ==> v.0@ == hex_text(random@) && is_safe(v.0@) && texts(v.1@)
            == upload_dir(repo@),
        r matches Err(e) ==> (e matches StorageError::BadPath(p) && first_unsafe(repo_path(repo@))
            == Some(p@)),
{
    let id = hex_call(random);
    proof {
        hex_text_is_lower(random@);
        reveal_strlit(".");
        reveal_strlit("..");
        assert(id@.len() == 32);
        assert forall|i: int| 0 <= i < id@.len() implies id@[i] != '/' && id@[i] != '\\' && id@[i]
            != '\0' by {
            assert(is_lower_hex(hex_text(random@)[i]));
        }
        assert(is_safe(id@));
    }
    match upload_dir_rel(repo, id.as_str()) {
        Ok((dir, leaf)) => Ok((leaf, dir)),
        Err(e) => Err(e),
    }
}

/// Checks the offset that an append was declared at against how much is staged.
/// What is returned is whether hashing starts with this append: nothing is staged
/// and no hash is being kept.
pub fn append_start(current: u64, expected_offset: Option<u64>, hashing: bool) -> (r: Result<
    bool,
    StorageError,
>)
    ensures
        r == (if expected_offset is Some && expected_offset->0 != current {
            Err::<bool, StorageError>(
                StorageError::RangeNotSatisfiable { expected: current, got: expected_offset->0 },
            )
        } else {
            Ok::<bool, StorageError>(!hashing && current == 0)
        }),
{
    if let Some(offset) = expected_offset {
        if offset != current {
            return Err(StorageError::RangeNotSatisfiable { expected: current, got: offset });
        }
    }
    Ok(!hashing && current == 0)
}

/// What came of removing an aborted session's staging file: it was there, it was
/// not, or removing it failed.
pub fn abort_outcome(removed: Result<(), IoFailure>) -> (r: Result<bool, StorageError>)
    ensures
        (match removed {
            Ok(_) => r == Ok::<bool, StorageError>(true),
            Err(e) => if e.not_found {
                r == Ok::<bool, StorageError>(false)
            } else {
                r == Err::<bool, StorageError>(StorageError::Io(e))
            },
        }),
{
    match removed {
        Ok(()) => Ok(true),
        Err(e) => {
            if e.not_found {
                Ok(false)
            } else {
                Err(StorageError::Io(e))
            }
        },
    }
}

/// The staging file of a session, as it was found.
#[derive(Debug, Clone, Copy, PartialEq, Eq, Structural)]
pub enum Staging {
    Missing,
    NotRegular,
    /// A regular file of this many bytes.
    Ready(u64),
}

/// How far finishing an upload has come.
#[derive(Debug, Clone, Copy, PartialEq, Eq, Structural)]
pub enum FinishStage {
    /// The staging file is being looked for.
    Preparing,
    /// The trailing body is being appended.
    Appending,
    /// What is staged is being hashed.
    Verifying { size: u64 },
    /// The verified content is being moved into place.
    Landing { size: u64, crc32c: u32 },
    /// Nothing is left to do.
    Over,
}

/// What came of an action.
#[derive(Debug)]
pub enum FinishEvent {
    PrepareFailed(IoFailure),
    Prepared(Staging),
    AppendFailed(StorageError),
    /// `size` bytes are staged; a hash kept while writing covers `hashed` of
    /// them.
    Appended { size: u64, hashed: Option<u64> },
    HashFailed(IoFailure),
    /// Everything that is staged was fed to the hash.
    Hashed(StagedHash),
    /// The content was refused before anything was charged.
    LandRejected(StorageError),
    /// Moving the content failed after `charged` bytes were admitted.
    LandFailed { charged: u64, error: StorageError },
    /// The content is in place; `warm` is what was read back of it.
    Landed { warm: Option<Vec<u8>> },
}

/// What has to be put in order when finishing fails.
#[derive(Debug, Clone, Copy, PartialEq, Eq, Structural)]
pub enum Cleanup {
    /// Nothing; the session stays open.
    Nothing,
    /// The session's lock is dropped.
    DropLock,
    /// The staging file, the session and its lock are dropped.
    Discard,
    /// These bytes go back to the quota; the session stays open.
    Release(u64),
}

/// What the caller does next.
#[derive(Debug)]
pub enum FinishAction {
    /// Append the trailing body to what is staged; hashing starts with it if
    /// nothing is staged and no hash is being kept.
    Append { current: u64 },
    /// Give the hash of what is staged. It is read again if `rehash`, and synced
    /// first if `sync`; otherwise the hash kept while writing is taken.
    Hash { rehash: bool, sync: bool },
    /// Move the staged file to its place, or link another repository's copy.
    Land(Landing),
    /// Finishing failed.
    Fail { cleanup: Cleanup, error: StorageError },
    /// The blob is stored and the session over; the mutation is to be recorded.
    Complete { record: Option<MetaOp> },
}

/// Where a verified content goes.
#[derive(Debug)]
pub struct Landing {
    pub upload_dir: Vec<String>,
    pub upload_leaf: String,
    pub blob_dir: Vec<String>,
    pub blob_leaf: String,
    pub size: u64,
    /// How much is read back at most to warm the cache.
    pub warm_limit: usize,
}

/// An upload that is being finished.
#[derive(Debug)]
pub struct FinishUpload {
    pub repo: String,
    pub id: String,
    /// What the content has to hash to.
    pub expected: Digest,
    pub max_size: u64,
    /// Whether the content is synced before it is named.
    pub commit: bool,
    pub stage: FinishStage,
}

/// The event answers the action of the stage.
pub open spec fn answers_stage(stage: FinishStage, e: FinishEvent) -> bool {
    match stage {
        FinishStage::Preparing => e is PrepareFailed || e is Prepared,
        FinishStage::Appending => e is AppendFailed || e is Appended,
        FinishStage::Verifying { .. } => e is HashFailed || e is Hashed,
        FinishStage::Landing { .. } => e is LandRejected || e is LandFailed || e is Landed,
        FinishStage::Over => false,
    }
}

/// The stage that follows: anything but what the stage waits for ends it.
pub open spec fn next_stage(
    stage: FinishStage,
    e: FinishEvent,
    expected: (Text, Text),
    max_size: u64,
) -> FinishStage {
    match (stage, e) {
        (FinishStage::Preparing, FinishEvent::Prepared(Staging::Ready(_))) =>
            FinishStage::Appending,
        (FinishStage::Appending, FinishEvent::Appended { size, .. }) => if size <= max_size {
            FinishStage::Verifying { size }
        } else {
            FinishStage::Over
        },
        (FinishStage::Verifying { size }, FinishEvent::Hashed(h)) => if h.digest() == expected {
            FinishStage::Landing { size, crc32c: crc_of(h.content()) }
        } else {
            FinishStage::Over
        },
        _ => FinishStage::Over,
    }
}

/// The stage after a run of events.
pub open spec fn stage_after(events: Seq<FinishEvent>, expected: (Text, Text), max_size: u64) ->
    FinishStage
    decreases events.len(),
{
    if events.len() == 0 {
        FinishStage::Preparing
    } else {
        next_stage(
            stage_after(events.drop_last(), expected, max_size),
            events.last(),
            expected,
            max_size,
        )
    }
}

/// Whether the hash kept while writing is the hash of the content: it covers
/// every staged byte, and the expected digest is of its algorithm.
pub open spec fn is_covered(size: u64, hashed: Option<u64>, expected: (Text, Text)) -> bool {
    hashed == Some(size) && expected.0 == "sha256"@
}

/// Starts finishing an upload. The paths are validated here.
pub fn finish_upload(
    repo: &str,
    id: &str,
    expected: &Digest,
    max_size: u64,
    commit: bool,
) -> (r: Result<FinishUpload, StorageError>)
    ensures
        r is Ok <==> upload_refused(repo@, id@) is None,
        r matches Ok(f) ==> f.repo@ == repo@ && f.id@ == id@ && f.expected@ == expected@
            && f.max_size == max_size && f.commit == commit && f.stage == FinishStage::Preparing,
        r matches Err(e) ==> (e matches StorageError::BadPath(p) && upload_refused(repo@, id@)
            == Some(p@)),
{
    match upload_dir_rel(repo, id) {
        Ok(_) => Ok(
            FinishUpload {
                repo: repo.to_owned(),
                id: id.to_owned(),
                expected: expected.clone(),
                max_size,
                commit,
                stage: FinishStage::Preparing,
            },
        ),
        Err(e) => Err(e),
    }
}

/// Whether a content is read back to warm the cache.
pub fn is_warmed(size: u64, warm_limit: usize) -> (r: bool)
    ensures
        r == (warm_limit > 0 && size <= warm_limit),
{
    warm_limit > 0 && size <= warm_limit as u64
}

/// What was read back is kept only if it is within the limit.
pub fn keep_warm(bytes: Vec<u8>, warm_limit: usize) -> (r: Option<Vec<u8>>)
    ensures
        r == (if bytes@.len() <= warm_limit {
            Some(bytes)
        } else {
            None
        }),
{
    if bytes.len() <= warm_limit {
        Some(bytes)
    } else {
        None
    }
}

/// The answer to an event before the content is in place.
pub open spec fn finish_answer(f: FinishUpload, e: FinishEvent, warm_limit: usize, a: FinishAction) -> bool {
    match e {
        FinishEvent::PrepareFailed(err) => a == (FinishAction::Fail {
            cleanup: Cleanup::Nothing,
            error: if err.not_found {
                StorageError::NotFound
            } else {
                StorageError::Io(err)
            },
        }),
        FinishEvent::Prepared(Staging::Missing) => a == (FinishAction::Fail {
            cleanup: Cleanup::DropLock,
            error: StorageError::NotFound,
        }),
        FinishEvent::Prepared(Staging::NotRegular) => a matches FinishAction::Fail {
            cleanup,
            error: StorageError::BadPath(p),
        } && cleanup == Cleanup::Discard && p@ == "upload "@ + f.id@ + " is not a regular file"@,
        FinishEvent::Prepared(Staging::Ready(n)) => a == (FinishAction::Append { current: n }),
        FinishEvent::AppendFailed(error) => a == (FinishAction::Fail {
            cleanup: Cleanup::Nothing,
            error,
        }),
        FinishEvent::Appended { size, hashed } => if size > f.max_size {
            a == (FinishAction::Fail {
                cleanup: Cleanup::Discard,
                error: StorageError::TooLarge { limit: f.max_size, actual: size },
            })
        } else {
            a == (FinishAction::Hash {
                rehash: !is_covered(size, hashed, f.expected@),
                sync: f.commit,
            })
        },
        FinishEvent::HashFailed(err) => a == (FinishAction::Fail {
            cleanup: Cleanup::Nothing,
            error: if err.not_found {
                StorageError::NotFound
            } else {
                StorageError::Io(err)
            },
        }),
        FinishEvent::Hashed(h) => if h.digest() != f.expected@ {
            a matches FinishAction::Fail {
                cleanup,
                error: StorageError::DigestMismatch { expected, actual },
            } && cleanup == Cleanup::Discard && expected@ == digest_text(f.expected@) && actual@
                == digest_text(h.digest())
        } else {
            a matches FinishAction::Land(l) && texts(l.upload_dir@) == upload_dir(f.repo@)
                && l.upload_leaf@ == f.id@ && texts(l.blob_dir@) == blob_dir(
                f.repo@,
                f.expected@.0,
            ) && l.blob_leaf@ == f.expected@.1 && (f.stage matches FinishStage::Verifying { size }
                && l.size == size) && l.warm_limit == warm_limit
        },
        FinishEvent::LandRejected(error) => a == (FinishAction::Fail {
            cleanup: Cleanup::Discard,
            error,
        }),
        FinishEvent::LandFailed { charged, error } => a == (FinishAction::Fail {
            cleanup: Cleanup::Release(charged),
            error,
        }),
        FinishEvent::Landed { .. } => a is Complete,
    }
}

impl<M: MetadataStore> FsStorage<M> {
    /// How much is read back at most to warm the cache.
    pub open spec fn warm_limit(&self) -> usize {
        if self.cache.limit() < WARM_CAP {
            self.cache.limit()
        } else {
            WARM_CAP
        }
    }

    /// One step of finishing an upload: the event of the last action decides the
    /// next. Nothing but the content's arrival changes the store.
    pub fn finish_step(&mut self, f: &mut FinishUpload, event: FinishEvent, now: u64) -> (r:
        FinishAction)
        requires
            old(self).wf(),
            upload_refused(old(f).repo@, old(f).id@) is None,
            answers_stage(old(f).stage, event),
            event matches FinishEvent::Hashed(h) ==> h.wf(),
        ensures
            final(self).wf(),
            finish_answer(*old(f), event, old(self).warm_limit(), r),
            *final(f) == (FinishUpload {
                stage: next_stage(old(f).stage, event, old(f).expected@, old(f).max_size),
                ..*old(f)
            }),
            !(event is Landed) ==> *final(self) == *old(self),
            event is Landed ==> {
                let d = digest_text(old(f).expected@);
                let repo = old(f).repo@;
                &&& r matches FinishAction::Complete { record } && op_model(record) == checksum_op(
                    old(self).meta.tables(),
                    repo,
                    d,
                    Some(
                        BlobChecksum {
                            crc32c: old(f).stage->Landing_crc32c,
                            size: old(f).stage->Landing_size,
                        },
                    ),
                )
                &&& final(self).presence.has_recorded(&old(self).presence, blob_key(repo, d))
                &&& final(self).presence.may_hold(blob_key(repo, d))
                &&& forall|k: Text|
                    old(self).presence.may_hold(k) ==> #[trigger] final(self).presence.may_hold(k)
                &&& final(self).dedupe.is_enabled() == old(self).dedupe.is_enabled()
                &&& final(self).dedupe.locations() == located(
                    old(self).dedupe.locations(),
                    old(self).dedupe.is_enabled(),
                    repo,
                    d,
                )
                &&& final(self).gc@ == gc_entered(
                    old(self).gc@,
                    old(self).meta.tables(),
                    repo,
                    d,
                    now,
                )
                &&& final(self).cache.entries() == (match event->Landed_warm {
                    Some(b) => kept_with(
                        old(self).cache.entries(),
                        old(self).cache.limit(),
                        old(self).cache.budget(),
                        blob_key(repo, d),
                        b@,
                    ),
                    None => old(self).cache.entries(),
                })
                &&& final(self).cache.limit() == old(self).cache.limit()
                &&& final(self).cache.budget() == old(self).cache.budget()
                &&& final(self).meta == old(self).meta
                &&& final(self).index_dirty == old(self).index_dirty
            },
    {
        let stage = f.stage;
        f.stage = FinishStage::Over;
        match event {
            FinishEvent::PrepareFailed(e) => FinishAction::Fail {
                cleanup: Cleanup::Nothing,
                error: map_not_found(e),
            },
            FinishEvent::Prepared(staging) => match staging {
                Staging::Missing => FinishAction::Fail {
                    cleanup: Cleanup::DropLock,
                    error: StorageError::NotFound,
                },
                Staging::NotRegular => FinishAction::Fail {
                    cleanup: Cleanup::Discard,
                    error: StorageError::BadPath(
                        concat3("upload ", f.id.as_str(), " is not a regular file"),
                    ),
                },
                Staging::Ready(n) => {
                    f.stage = FinishStage::Appending;
                    FinishAction::Append { current: n }
                },
            },
            FinishEvent::AppendFailed(error) => FinishAction::Fail {
                cleanup: Cleanup::Nothing,
                error,
            },
            FinishEvent::Appended { size, hashed } => {
                if size > f.max_size {
                    return FinishAction::Fail {
                        cleanup: Cleanup::Discard,
                        error: StorageError::TooLarge { limit: f.max_size, actual: size },
                    };
                }
                let all = match hashed {
                    Some(n) => n == size,
                    None => false,
                };
                let covered = all && same(f.expected.algorithm(), "sha256");
                f.stage = FinishStage::Verifying { size };
                FinishAction::Hash { rehash: !covered, sync: f.commit }
            },
            FinishEvent::HashFailed(e) => FinishAction::Fail {
                cleanup: Cleanup::Nothing,
                error: map_not_found(e),
            },
            FinishEvent::Hashed(h) => {
                let (digest, checksum) = h.finish();
                if !digest.ct_eq(&f.expected) {
                    return FinishAction::Fail {
                        cleanup: Cleanup::Discard,
                        error: StorageError::DigestMismatch {
                            expected: f.expected.as_string(),
                            actual: digest.as_string(),
                        },
                    };
                }
                self.land_step(f, stage, checksum.crc32c)
            },
            FinishEvent::LandRejected(error) => FinishAction::Fail {
                cleanup: Cleanup::Discard,
                error,
            },
            FinishEvent::LandFailed { charged, error } => FinishAction::Fail {
                cleanup: Cleanup::Release(charged),
                error,
            },
            FinishEvent::Landed { warm } => {
                let checksum = match stage {
                    FinishStage::Landing { size, crc32c } => Some(BlobChecksum { crc32c, size }),
                    _ => None,
                };
                let name = f.expected.as_string();
                let record = self.blob_entered(f.repo.as_str(), name.as_str(), checksum, now);
                if let Some(bytes) = warm {
                    self.cache.put(f.repo.as_str(), name.as_str(), bytes.as_slice());
                }
                FinishAction::Complete { record }
            },
        }
    }

    /// The content is what it should be: where it goes.
    fn land_step(&self, f: &mut FinishUpload, stage: FinishStage, crc32c: u32) -> (r: FinishAction)
        requires
            self.wf(),
            upload_refused(old(f).repo@, old(f).id@) is None,
            stage is Verifying,
        ensures
            r matches FinishAction::Land(l) && texts(l.upload_dir@) == upload_dir(old(f).repo@)
                && l.upload_leaf@ == old(f).id@ && texts(l.blob_dir@) == blob_dir(
                old(f).repo@,
                old(f).expected@.0,
            ) && l.blob_leaf@ == old(f).expected@.1 && l.size == stage->Verifying_size
                && l.warm_limit == self.warm_limit(),
            *final(f) == (FinishUpload {
                stage: FinishStage::Landing { size: stage->Verifying_size, crc32c },
                ..*old(f)
            }),
    {
        let size: u64 = match stage {
            FinishStage::Verifying { size } => size,
            _ => 0,
        };
        f.stage = FinishStage::Landing { size, crc32c };
        let (upload_dir, upload_leaf) = match upload_dir_rel(f.repo.as_str(), f.id.as_str()) {
            Ok(p) => p,
            Err(error) => {
                return FinishAction::Fail { cleanup: Cleanup::Nothing, error };
            },
        };
        let (blob_dir, blob_leaf) = match blob_dir_rel(f.repo.as_str(), &f.expected) {
            Ok(p) => p,
            Err(error) => {
                return FinishAction::Fail { cleanup: Cleanup::Nothing, error };
            },
        };
        let limit: usize = self.cache.threshold();
        let warm_limit: usize = if limit < WARM_CAP {
            limit
        } else {
            WARM_CAP
        };
        FinishAction::Land(
            Landing { upload_dir, upload_leaf, blob_dir, blob_leaf, size, warm_limit },
        )
    }
}

/// A content is moved into place only after it was hashed to what was expected,
/// under the size and checksum that are then recorded, and within the size limit.
pub proof fn only_verified_content_lands(
    events: Seq<FinishEvent>,
    expected: (Text, Text),
    max_size: u64,
)
    ensures
        stage_after(events, expected, max_size) matches FinishStage::Landing { size, crc32c } ==> {
            &&& size <= max_size
            &&& events.len() > 0
            &&& events.last() matches FinishEvent::Hashed(h) && h.digest() == expected && crc_of(
                h.content(),
            ) == crc32c
            &&& exists|i: int|
                #![trigger events[i]]
                0 <= i < events.len() && (events[i] matches FinishEvent::Appended { size: s, .. }
                    && s == size)
        },
{
    if events.len() > 0 {
        let init = events.drop_last();
        let before = stage_after(init, expected, max_size);
        if let FinishStage::Landing { size, crc32c } = stage_after(events, expected, max_size) {
            assert(before == (FinishStage::Verifying { size }));
            lemma_appended(init, expected, max_size);
            let i = choose|i: int|
                #![trigger init[i]]
                0 <= i < init.len() && (init[i] matches FinishEvent::Appended { size: s, .. } && s
                    == size);
            assert(events[i] == init[i]);
        }
    }
}

/// Whether the session is over once an action is carried out: it was completed, or
/// what is left of it is dropped.
pub open spec fn ends_session(a: FinishAction) -> bool {
    match a {
        FinishAction::Fail { cleanup, .. } => cleanup == Cleanup::Discard || cleanup
            == Cleanup::DropLock,
        FinishAction::Complete { .. } => true,
        _ => false,
    }
}

/// The caller could not carry an action out.
pub open spec fn is_failure(e: FinishEvent) -> bool {
    e is PrepareFailed || e is AppendFailed || e is HashFailed || e is LandFailed
}

/// Finishing an upload ends its session, whether it is completed or refused: it
/// stays open only where an action could not be carried out, and as long as there
/// is something left to do.
pub proof fn finished_upload_ends_its_session(
    f: FinishUpload,
    e: FinishEvent,
    warm_limit: usize,
    a: FinishAction,
)
    requires
        answers_stage(f.stage, e),
        finish_answer(f, e, warm_limit, a),
    ensures
        ends_session(a) <==> next_stage(f.stage, e, f.expected@, f.max_size) is Over
            && !is_failure(e),
{
}

/// Where every action is carried out, the content decides: what is too large is
/// refused, then what does not hash to the expected digest, and everything else is
/// moved to its place and completed, under its own size and checksum. In each case
/// the session is over.
pub proof fn content_decides_an_upload(
    f: FinishUpload,
    content: Seq<u8>,
    hashed: Option<u64>,
    hash: StagedHash,
    warm: Option<Vec<u8>>,
    warm_limit: usize,
    appended: FinishAction,
    verified: FinishAction,
    landed: FinishAction,
)
    requires
        f.stage == FinishStage::Appending,
        content.len() <= u64::MAX,
        hash.content() == content,
        hash.wide() == (f.expected@.0 == "sha512"@),
        finish_answer(
            f,
            FinishEvent::Appended { size: content.len() as u64, hashed },
            warm_limit,
            appended,
        ),
        finish_answer(
            FinishUpload { stage: FinishStage::Verifying { size: content.len() as u64 }, ..f },
            FinishEvent::Hashed(hash),
            warm_limit,
            verified,
        ),
        finish_answer(
            FinishUpload {
                stage: FinishStage::Landing {
                    size: content.len() as u64,
                    crc32c: crc_of(content),
                },
                ..f
            },
            FinishEvent::Landed { warm },
            warm_limit,
            landed,
        ),
    ensures
        ({
            let size = content.len() as u64;
            let e1 = FinishEvent::Appended { size, hashed };
            let e2 = FinishEvent::Hashed(hash);
            let s1 = next_stage(f.stage, e1, f.expected@, f.max_size);
            let s2 = next_stage(s1, e2, f.expected@, f.max_size);
            if content.len() > f.max_size {
                &&& s1 is Over
                &&& ends_session(appended)
                &&& appended matches FinishAction::Fail {
                    error: StorageError::TooLarge { limit, actual },
                    ..
                } && limit == f.max_size && actual == size
            } else if digest_under(content, f.expected@.0) != f.expected@ {
                &&& s1 == (FinishStage::Verifying { size })
                &&& s2 is Over
                &&& ends_session(verified)
                &&& verified matches FinishAction::Fail {
                    error: StorageError::DigestMismatch { expected, actual },
                    ..
                } && expected@ == digest_text(f.expected@) && actual@ == digest_text(
                    digest_under(content, f.expected@.0),
                )
            } else {
                &&& s1 == (FinishStage::Verifying { size })
                &&& s2 matches FinishStage::Landing { size: n, crc32c } && (BlobChecksum {
                    crc32c,
                    size: n,
                }) == checksum_of(content)
                &&& verified is Land
                &&& landed is Complete && ends_session(landed)
            }
        }),
{
    reveal_strlit("sha256");
    reveal_strlit("sha512");
    assert("sha256"@[3] != "sha512"@[3]);
    assert(hash.digest() == digest_under(content, f.expected@.0));
}

/// What is hashed was appended before.
proof fn lemma_appended(events: Seq<FinishEvent>, expected: (Text, Text), max_size: u64)
    ensures
        stage_after(events, expected, max_size) matches FinishStage::Verifying { size } ==> size
            <= max_size && exists|i: int|
            #![trigger events[i]]
            0 <= i < events.len() && (events[i] matches FinishEvent::Appended { size: s, .. } && s
                == size),
{
    if events.len() > 0 {
        if let FinishStage::Verifying { size } = stage_after(events, expected, max_size) {
            let i = events.len() - 1;
            assert(events[i] == events.last());
        }
    }
}

/// Once finishing is over, nothing follows.
pub proof fn nothing_follows_the_end(
    events: Seq<FinishEvent>,
    more: Seq<FinishEvent>,
    expected: (Text, Text),
    max_size: u64,
)
    requires
        stage_after(events, expected, max_size) is Over,
    ensures
        stage_after(events + more, expected, max_size) is Over,
    decreases more.len(),
{
    if more.len() == 0 {
        assert(events + more =~= events);
    } else {
        nothing_follows_the_end(events, more.drop_last(), expected, max_size);
        assert((events + more).drop_last() =~= events + more.drop_last());
    }
}

} // verus!
