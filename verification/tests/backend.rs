//! The filesystem backend's decisions, from what was found on disk to what is
//! done next.

use roci_storage::cache::{SmallBlobCache, DEFAULT_SMALL_BLOB_THRESHOLD};
use roci_storage::digest::{digest_of, sha256_of, Digest};
use roci_storage::error::{IoFailure, StorageError};
use roci_storage::fs_storage::blobs::{
    check_content, content_checksum, mount_failed, size_found, BlobLookup, BlobSource, MountStep,
    PromoteFailure,
};
use roci_storage::fs_storage::dirty::IndexDirty;
use roci_storage::fs_storage::fast_restart::validate_stamp;
use roci_storage::fs_storage::gc::{
    is_stale_upload, SweepOutcome, SweepStat, SweepStep, SWEEP_BATCH_SIZE,
};
use roci_storage::fs_storage::index::{
    index_media_type_for_digest, index_resolve_tag, read_existing, FileRead, IndexView,
};
use roci_storage::fs_storage::lifecycle::{
    is_charged, size_for_release, FsStorage, StoragePolicy,
};
use roci_storage::fs_storage::listings::{
    referrers_in_index, referrers_in_manifest, referrers_read, referrers_tag, tags_in_index,
    ReferrersStep,
};
use roci_storage::fs_storage::locks::LockTable;
use roci_storage::fs_storage::manifests::{
    find_in_index, plan_manifest, read_references, recheck_required, referrer_descriptor,
    ManifestLanded, ManifestLinks, ManifestLookup, ManifestStep,
};
use roci_storage::fs_storage::paths::{
    blob_dir_rel, blob_rel, repo_rel, temp_name, upload_dir_rel, upload_rel, SafeComponent,
};
use roci_storage::fs_storage::staged::{seed_hash, staged_total, StagedHash};
use roci_storage::fs_storage::uploads::{
    abort_outcome, append_start, begin_upload, finish_upload, is_warmed, keep_warm, Cleanup,
    FinishAction, FinishEvent, FinishStage, Staging,
};
use roci_storage::hashing::crc32c;
use roci_storage::json::{parse, to_bytes, Json};
use roci_storage::metadata::log_store::LogMetadataStore;
use roci_storage::metadata::store::MetadataStore;
use roci_storage::metadata::{BlobChecksum, MetaOp};
use roci_storage::table::Table;

type Store = FsStorage<LogMetadataStore>;

const DELAY: u64 = 100;

fn store() -> Store {
    let policy = StoragePolicy {
        cache_max_bytes: 1 << 20,
        small_blob_threshold: DEFAULT_SMALL_BLOB_THRESHOLD,
        gc_enabled: true,
        gc_delay: DELAY,
        dedupe: true,
    };
    FsStorage::with_config(LogMetadataStore::open(None).0, &policy)
}

fn gone() -> IoFailure {
    IoFailure { not_found: true, message: "gone".into() }
}

fn denied() -> IoFailure {
    IoFailure { not_found: false, message: "denied".into() }
}

fn doc(text: &str) -> Json {
    parse(text.as_bytes()).unwrap()
}

fn record(s: &mut Store, op: Option<MetaOp>) {
    if let Some(op) = op {
        s.meta.apply(op);
    }
}

/// Stores a blob and records what is to be recorded.
fn store_blob(s: &mut Store, repo: &str, data: &[u8], now: u64) -> Digest {
    let d = sha256_of(data);
    check_content(data, &d).unwrap();
    let op = s.blob_stored(repo, &d, data, now);
    record(s, op);
    d
}

/// Pushes a manifest that references `refs`.
fn push(s: &mut Store, repo: &str, tag: Option<&str>, data: &[u8], refs: &[&Digest], now: u64) -> Digest {
    let d = sha256_of(data);
    let links = ManifestLinks {
        subject: None,
        required: refs.iter().map(|r| (*r).clone()).collect(),
        references: refs.iter().map(|r| (*r).clone()).collect(),
    };
    let plan = plan_manifest(repo, tag, &d, "mt", data, &links).unwrap();
    let stats = plan.required.iter().map(|_| Ok(Some((true, 1)))).collect();
    let (op, step) =
        s.manifest_landed(repo, &d, data, &links.required, recheck_required(&stats), now);
    record(s, op);
    assert!(matches!(step, ManifestStep::Commit));
    s.mark_index_dirty(repo);
    s.apply_meta(repo, plan.op, Ok(())).unwrap();
    s.manifest_committed(repo, &d, &links.references);
    d
}

#[test]
fn unsafe_components_are_refused() {
    for bad in ["", ".", "..", "a/b", "a\\b", "a\0b", "/"] {
        assert_eq!(
            SafeComponent::new(bad).unwrap_err(),
            StorageError::BadPath(bad.to_string())
        );
    }
    for good in ["a", "...", "a.b", "héllo", "sha256:x"] {
        assert_eq!(SafeComponent::new(good).unwrap().as_str(), good);
    }
}

#[test]
fn paths_are_built_from_checked_parts() {
    let d = sha256_of(b"x");
    assert_eq!(repo_rel("library/alpine").unwrap(), vec!["library", "alpine"]);
    assert_eq!(repo_rel("a/../b").unwrap_err(), StorageError::BadPath("..".into()));
    assert_eq!(repo_rel("a//b").unwrap_err(), StorageError::BadPath("".into()));
    assert_eq!(repo_rel("").unwrap_err(), StorageError::BadPath("".into()));
    let (dir, leaf) = blob_dir_rel("a/b", &d).unwrap();
    assert_eq!(dir, vec!["a", "b", "blobs", "sha256"]);
    assert_eq!(leaf, d.hex());
    assert_eq!(blob_rel("a", &d).unwrap(), vec!["a", "blobs", "sha256", d.hex()]);
    assert_eq!(
        upload_dir_rel("a", "id1").unwrap(),
        (vec!["a".to_string(), "uploads".to_string()], "id1".to_string())
    );
    assert_eq!(upload_rel("a", "id1").unwrap(), vec!["a", "uploads", "id1"]);
    assert_eq!(upload_rel("a", "..").unwrap_err(), StorageError::BadPath("..".into()));
    // The repository is checked before the id.
    assert_eq!(upload_rel(".", "..").unwrap_err(), StorageError::BadPath(".".into()));
}

#[test]
fn session_locks_are_kept_per_session_and_not_for_bad_ids() {
    let mut locks: LockTable<u32> = LockTable::new();
    assert_eq!(*locks.session_lock("r", "id", 1).unwrap(), 1);
    assert_eq!(*locks.session_lock("r", "id", 2).unwrap(), 1);
    assert_eq!(*locks.session_lock("r2", "id", 3).unwrap(), 3);
    assert!(locks.session_lock("r", "../x", 4).is_err());
    assert!(locks.get("r", "../x").is_none());
    locks.drop_session_lock("r", "id");
    assert!(locks.get("r", "id").is_none());
    assert!(locks.get("r2", "id").is_some());
}

#[test]
fn admission_locks_stay_while_someone_waits() {
    let mut locks: LockTable<u32> = LockTable::new();
    assert_eq!(locks.blob_admit_lock("r", "d", 5), Some(&5));
    locks.drop_blob_admit_lock("r", "d", 3);
    assert_eq!(locks.get("r", "d"), Some(&5));
    locks.drop_blob_admit_lock("r", "d", 2);
    assert_eq!(locks.get("r", "d"), None);
}

#[test]
fn a_mutation_during_a_write_keeps_the_repository_dirty() {
    let mut dirty = IndexDirty::new();
    assert!(dirty.is_empty());
    dirty.mark("r");
    assert!(dirty.contains("r"));
    let pending = dirty.pending();
    assert_eq!(pending, vec![("r".to_string(), 1)]);
    // Another mutation arrives before the write completes.
    dirty.mark("r");
    dirty.written("r", pending[0].1);
    assert!(dirty.contains("r"));
    dirty.written("r", 2);
    assert!(dirty.is_empty());
    dirty.written("absent", 7);
    assert!(dirty.is_empty());
}

#[test]
fn a_fresh_store_has_its_policy() {
    let mut s = store();
    assert_eq!(s.cache.threshold(), 102400);
    assert_eq!(s.gc.delay(), DELAY);
    assert!(!s.gc.is_ready());
    assert!(s.dedupe.enabled());
    let d = sha256_of(b"x");
    assert_eq!(s.find_blob("r", &d, 0), Ok(BlobLookup::Absent));
    assert_eq!(s.blob_source("r", &d), Err(StorageError::NotFound));
    assert_eq!(s.open_blob("r", &d), Err(StorageError::NotFound));
    let off = StoragePolicy {
        cache_max_bytes: 0,
        small_blob_threshold: 16,
        gc_enabled: false,
        gc_delay: 0,
        dedupe: false,
    };
    let s = FsStorage::with_config(LogMetadataStore::open(None).0, &off);
    assert_eq!(s.cache.threshold(), 0);
    assert!(!s.dedupe.enabled());
}

#[test]
fn a_seeded_blob_is_looked_up_on_disk() {
    let mut s = store();
    let d = sha256_of(b"x");
    s.seed_blob("r", &d.as_string());
    let path = blob_rel("r", &d).unwrap();
    assert_eq!(s.find_blob("r", &d, 0), Ok(BlobLookup::OnDisk(path.clone())));
    assert_eq!(s.blob_source("r", &d), Ok(BlobSource::File(path.clone())));
    assert_eq!(s.open_blob("r", &d), Ok(path));
    assert_eq!(size_found(Some((true, 5))), Ok(5));
    assert_eq!(size_found(Some((false, 5))), Err(StorageError::NotFound));
    assert_eq!(size_found(None), Err(StorageError::NotFound));
    // A bad repository is refused before anything is answered.
    assert_eq!(s.find_blob("..", &d, 0), Err(StorageError::BadPath("..".into())));
}

#[test]
fn a_stored_blob_is_answered_from_memory() {
    let mut s = store();
    let d = store_blob(&mut s, "r", b"content", 10);
    assert_eq!(s.find_blob("r", &d, 20), Ok(BlobLookup::Recorded(7)));
    assert_eq!(s.blob_source("r", &d), Ok(BlobSource::Cached(b"content".to_vec())));
    assert_eq!(
        s.meta.checksum("r", &d.as_string()),
        Some(BlobChecksum { crc32c: crc32c::crc32c(b"content"), size: 7 })
    );
    // Looking it up restarted its grace period.
    assert!(!s.gc.is_due("r", &d.as_string(), 10 + DELAY));
    assert!(s.gc.is_due("r", &d.as_string(), 20 + DELAY));
    // The same record is not written twice.
    assert!(s.blob_stored("r", &d, b"content", 30).is_none());
}

#[test]
fn contents_that_do_not_match_their_digest_are_refused() {
    let d = sha256_of(b"right");
    assert_eq!(
        check_content(b"wrong", &d),
        Err(StorageError::DigestMismatch {
            expected: d.as_string(),
            actual: sha256_of(b"wrong").as_string(),
        })
    );
    assert_eq!(
        content_checksum(b"123456789"),
        BlobChecksum { crc32c: 0xE306_9283, size: 9 }
    );
}

#[test]
fn a_removed_blob_is_forgotten_everywhere() {
    let mut s = store();
    let d = store_blob(&mut s, "r", b"content", 10);
    let name = d.as_string();
    let op = s.blob_left("r", &name);
    assert_eq!(
        op,
        Some(MetaOp::DeleteBlob { repo: "r".into(), digest: name.clone() })
    );
    record(&mut s, op);
    assert_eq!(s.find_blob("r", &d, 20), Ok(BlobLookup::Absent));
    assert!(s.cache.get("r", &name).is_none());
    assert_eq!(s.dedupe.locate(&name, "other"), None);
    assert!(s.gc.is_empty());
    // Nothing is on record any more, so nothing is recorded.
    assert_eq!(s.blob_left("r", &name), None);
}

#[test]
fn quota_is_charged_for_new_blobs_and_given_back_for_removed_ones() {
    assert!(!is_charged(false, None));
    assert!(is_charged(true, None));
    assert!(is_charged(true, Some((false, 3))));
    assert!(!is_charged(true, Some((true, 3))));
    assert_eq!(size_for_release(true, Some((true, 9))), Some(9));
    assert_eq!(size_for_release(false, Some((true, 9))), None);
    assert_eq!(size_for_release(true, Some((false, 9))), None);
    assert_eq!(size_for_release(true, None), None);
}

#[test]
fn identical_blobs_are_linked_from_another_repository() {
    let mut s = store();
    let d = store_blob(&mut s, "a", b"content", 1);
    assert_eq!(s.dedupe_source("a", &d), None);
    let (repo, dir) = s.dedupe_source("b", &d).unwrap();
    assert_eq!(repo, "a");
    assert_eq!(dir, vec!["a", "blobs", "sha256"]);
    s.dedupe_failed("a", &d, false);
    assert!(s.dedupe_source("b", &d).is_some());
    s.dedupe_failed("a", &d, true);
    assert!(s.dedupe_source("b", &d).is_none());
}

#[test]
fn mounts_promote_between_repositories() {
    let mut s = store();
    let d = store_blob(&mut s, "a", b"content", 1);
    assert_eq!(
        s.mount_start("a", "b", &d, Err(StorageError::NotFound)),
        Ok(MountStep::SourceAbsent)
    );
    assert_eq!(
        s.mount_start("a", "b", &d, Err(StorageError::Io(denied()))),
        Err(StorageError::Io(denied()))
    );
    assert_eq!(s.mount_start("a", "a", &d, Ok(7)), Ok(MountStep::AlreadyThere));
    match s.mount_start("a", "b", &d, Ok(7)).unwrap() {
        MountStep::Promote { from_dir, to_dir, leaf, size } => {
            assert_eq!(from_dir, vec!["a", "blobs", "sha256"]);
            assert_eq!(to_dir, vec!["b", "blobs", "sha256"]);
            assert_eq!(leaf, d.hex());
            assert_eq!(size, 7);
        }
        other => panic!("unexpected step {other:?}"),
    }
    assert_eq!(
        s.mount_start("a", "..", &d, Ok(7)),
        Err(StorageError::BadPath("..".into()))
    );
    let op = s.mount_done("a", "b", &d, 5);
    record(&mut s, op);
    assert_eq!(s.find_blob("b", &d, 6), Ok(BlobLookup::Recorded(7)));
    assert_eq!(
        mount_failed(PromoteFailure::Exists, &d),
        StorageError::BadPath(format!(
            "mount destination for {} is not a regular file",
            d.as_string()
        ))
    );
    assert_eq!(mount_failed(PromoteFailure::Gone, &d), StorageError::NotFound);
    assert_eq!(
        mount_failed(PromoteFailure::Other(denied()), &d),
        StorageError::Io(denied())
    );
}

#[test]
fn upload_ids_are_random_bytes_in_hexadecimal() {
    let (id, dir) = begin_upload("r", &[0xABu8; 16]).unwrap();
    assert_eq!(id, "ab".repeat(16));
    assert_eq!(dir, vec!["r", "uploads"]);
    assert!(begin_upload("..", &[0u8; 16]).is_err());
}

#[test]
fn appends_start_at_the_committed_offset() {
    assert_eq!(append_start(0, None, false), Ok(true));
    assert_eq!(append_start(0, Some(0), true), Ok(false));
    assert_eq!(append_start(5, Some(5), false), Ok(false));
    assert_eq!(
        append_start(5, Some(4), false),
        Err(StorageError::RangeNotSatisfiable { expected: 5, got: 4 })
    );
}

#[test]
fn aborting_twice_is_no_error() {
    assert_eq!(abort_outcome(Ok(())), Ok(true));
    assert_eq!(abort_outcome(Err(gone())), Ok(false));
    assert_eq!(abort_outcome(Err(denied())), Err(StorageError::Io(denied())));
}

#[test]
fn finishing_an_upload_runs_through_its_stages() {
    let mut s = store();
    let data = b"uploaded content";
    let d = sha256_of(data);
    let mut f = finish_upload("r", "id", &d, 100, false).unwrap();
    match s.finish_step(&mut f, FinishEvent::Prepared(Staging::Ready(4)), 1) {
        FinishAction::Append { current } => assert_eq!(current, 4),
        other => panic!("unexpected action {other:?}"),
    }
    let appended = FinishEvent::Appended { size: 16, hashed: Some(16) };
    match s.finish_step(&mut f, appended, 1) {
        FinishAction::Hash { rehash, sync } => assert!(!rehash && !sync),
        other => panic!("unexpected action {other:?}"),
    }
    let hashed = FinishEvent::Hashed(hash_of(data, "sha256"));
    match s.finish_step(&mut f, hashed, 1) {
        FinishAction::Land(l) => {
            assert_eq!(l.upload_dir, vec!["r", "uploads"]);
            assert_eq!(l.upload_leaf, "id");
            assert_eq!(l.blob_dir, vec!["r", "blobs", "sha256"]);
            assert_eq!(l.blob_leaf, d.hex());
            assert_eq!(l.size, 16);
            assert_eq!(l.warm_limit, 102400);
        }
        other => panic!("unexpected action {other:?}"),
    }
    let landed = FinishEvent::Landed { warm: Some(data.to_vec()) };
    match s.finish_step(&mut f, landed, 1) {
        FinishAction::Complete { record: op } => {
            assert_eq!(
                op,
                Some(MetaOp::PutChecksum {
                    repo: "r".into(),
                    digest: d.as_string(),
                    crc32c: crc32c(data),
                    size: 16,
                })
            );
            record(&mut s, op);
        }
        other => panic!("unexpected action {other:?}"),
    }
    assert_eq!(f.stage, FinishStage::Over);
    assert_eq!(s.find_blob("r", &d, 2), Ok(BlobLookup::Recorded(16)));
    assert_eq!(s.blob_source("r", &d), Ok(BlobSource::Cached(data.to_vec())));
}

/// The failure that an event leads to.
fn failure(stage: FinishStage, event: FinishEvent) -> (Cleanup, StorageError) {
    let mut s = store();
    let mut f = finish_upload("r", "id", &sha256_of(b"x"), 100, true).unwrap();
    f.stage = stage;
    match s.finish_step(&mut f, event, 1) {
        FinishAction::Fail { cleanup, error } => {
            assert_eq!(f.stage, FinishStage::Over);
            assert!(s.gc.is_empty());
            (cleanup, error)
        }
        other => panic!("unexpected action {other:?}"),
    }
}

#[test]
fn a_failed_finish_cleans_up_after_itself() {
    let verifying = FinishStage::Verifying { size: 3 };
    let landing = FinishStage::Landing { size: 3, crc32c: 0 };
    assert_eq!(
        failure(FinishStage::Preparing, FinishEvent::PrepareFailed(gone())),
        (Cleanup::Nothing, StorageError::NotFound)
    );
    assert_eq!(
        failure(FinishStage::Preparing, FinishEvent::Prepared(Staging::Missing)),
        (Cleanup::DropLock, StorageError::NotFound)
    );
    assert_eq!(
        failure(FinishStage::Preparing, FinishEvent::Prepared(Staging::NotRegular)),
        (
            Cleanup::Discard,
            StorageError::BadPath("upload id is not a regular file".into())
        )
    );
    assert_eq!(
        failure(FinishStage::Appending, FinishEvent::AppendFailed(StorageError::NotFound)),
        (Cleanup::Nothing, StorageError::NotFound)
    );
    assert_eq!(
        failure(FinishStage::Appending, FinishEvent::Appended { size: 101, hashed: None }),
        (Cleanup::Discard, StorageError::TooLarge { limit: 100, actual: 101 })
    );
    assert_eq!(
        failure(verifying, FinishEvent::HashFailed(denied())),
        (Cleanup::Nothing, StorageError::Io(denied()))
    );
    assert_eq!(
        failure(verifying, FinishEvent::Hashed(hash_of(b"y", "sha256"))),
        (
            Cleanup::Discard,
            StorageError::DigestMismatch {
                expected: sha256_of(b"x").as_string(),
                actual: sha256_of(b"y").as_string(),
            }
        )
    );
    assert_eq!(
        failure(landing, FinishEvent::LandRejected(StorageError::NotFound)),
        (Cleanup::Discard, StorageError::NotFound)
    );
    assert_eq!(
        failure(landing, FinishEvent::LandFailed { charged: 9, error: StorageError::NotFound }),
        (Cleanup::Release(9), StorageError::NotFound)
    );
}

#[test]
fn a_hash_kept_while_writing_counts_only_if_it_covers_everything() {
    for (alg, hashed, commit, rehash) in [
        ("sha256", Some(5), false, false),
        ("sha256", Some(5), true, false),
        ("sha256", Some(4), false, true),
        ("sha256", None, false, true),
        ("sha512", Some(5), false, true),
    ] {
        let mut s = store();
        let d = digest_of(b"x", alg);
        let mut f = finish_upload("r", "id", &d, 100, commit).unwrap();
        f.stage = FinishStage::Appending;
        match s.finish_step(&mut f, FinishEvent::Appended { size: 5, hashed }, 1) {
            FinishAction::Hash { rehash: again, sync } => {
                assert_eq!((again, sync), (rehash, commit));
            }
            other => panic!("unexpected action {other:?}"),
        }
    }
}

#[test]
fn only_small_contents_warm_the_cache() {
    assert!(is_warmed(10, 10));
    assert!(!is_warmed(11, 10));
    assert!(!is_warmed(0, 0));
    assert_eq!(keep_warm(vec![1, 2], 2), Some(vec![1, 2]));
    assert_eq!(keep_warm(vec![1, 2, 3], 2), None);
    // A huge cache limit is capped.
    let mut s = store();
    s.cache = SmallBlobCache::with_limits(1 << 30, 1 << 30);
    let mut f = finish_upload("r", "id", &sha256_of(b"x"), 100, false).unwrap();
    f.stage = FinishStage::Verifying { size: 1 };
    let hashed = FinishEvent::Hashed(hash_of(b"x", "sha256"));
    match s.finish_step(&mut f, hashed, 1) {
        FinishAction::Land(l) => assert_eq!(l.warm_limit, 8 * 1024 * 1024),
        other => panic!("unexpected action {other:?}"),
    }
}

#[test]
fn a_pushed_manifest_resolves_by_tag_and_by_digest() {
    let mut s = store();
    let config = store_blob(&mut s, "r", b"config", 1);
    let d = push(&mut s, "r", Some("v1"), b"{\"m\":1}", &[&config], 2);
    for reference in ["v1".to_string(), d.as_string()] {
        match s.find_manifest("r", &reference).unwrap() {
            ManifestLookup::Known(found, media_type) => {
                assert!(found.ct_eq(&d));
                assert_eq!(media_type, "mt");
            }
            other => panic!("unexpected lookup {other:?}"),
        }
    }
    assert!(matches!(s.find_manifest("r", "v2"), Ok(ManifestLookup::AskIndex)));
    assert!(matches!(
        s.find_manifest("r", "sha256:bad"),
        Err(StorageError::BadDigest(_))
    ));
    assert_eq!(s.backrefs("r", &config), vec![d.as_string()]);
    assert!(s.index_dirty.contains("r"));
    // Neither is a candidate any more.
    assert!(s.gc.is_empty());
    assert_eq!(
        s.manifest_source("r", &d),
        Ok(BlobSource::Cached(b"{\"m\":1}".to_vec()))
    );
}

#[test]
fn a_push_is_refused_before_anything_is_written() {
    let data = b"{}";
    let d = sha256_of(data);
    let none = ManifestLinks { subject: None, required: vec![], references: vec![] };
    assert_eq!(
        plan_manifest("r", Some("a/b"), &d, "mt", data, &none).unwrap_err(),
        StorageError::BadPath("a/b".into())
    );
    let bad = ManifestLinks {
        subject: Some((sha256_of(b"s"), b"[]".to_vec())),
        required: vec![],
        references: vec![],
    };
    assert!(matches!(
        plan_manifest("r", None, &d, "mt", data, &bad),
        Err(StorageError::Io(_))
    ));
    assert!(matches!(
        plan_manifest("r", None, &d, "mt", b"other", &none),
        Err(StorageError::DigestMismatch { .. })
    ));
    assert_eq!(
        plan_manifest("..", None, &d, "mt", data, &none).unwrap_err(),
        StorageError::BadPath("..".into())
    );
}

#[test]
fn a_push_without_its_blobs_is_not_recorded() {
    let mut s = store();
    let data = b"{}";
    let d = sha256_of(data);
    let missing = sha256_of(b"missing");
    let required = vec![sha256_of(b"there"), missing.clone()];
    let stats = vec![Ok(Some((true, 5))), Ok(None)];
    let (op, step) = s.manifest_landed("r", &d, data, &required, recheck_required(&stats), 1);
    assert!(op.is_some());
    match step {
        ManifestStep::Fail { release, error } => {
            assert_eq!(release, 0);
            assert_eq!(error, StorageError::MissingReference(missing.as_string()));
        }
        ManifestStep::Commit => panic!("committed"),
    }
    // The blob is there, and a candidate.
    assert_eq!(s.gc.len(), 1);

    let stats = vec![Err(denied()), Ok(None)];
    let (_, step) = s.manifest_landed("r", &d, data, &required, recheck_required(&stats), 1);
    assert!(matches!(
        step,
        ManifestStep::Fail { release: 0, error: StorageError::Io(_) }
    ));
    let (op, step) = s.manifest_landed(
        "r",
        &d,
        data,
        &required,
        ManifestLanded::Failed { charged: 3, error: StorageError::NotFound },
        1,
    );
    assert!(op.is_none());
    assert!(matches!(step, ManifestStep::Fail { release: 3, .. }));
    let (_, step) = s.manifest_landed(
        "r",
        &d,
        data,
        &required,
        ManifestLanded::Rejected(StorageError::NotFound),
        1,
    );
    assert!(matches!(step, ManifestStep::Fail { release: 0, .. }));
}

#[test]
fn a_mutation_that_was_not_recorded_is_not_applied() {
    let mut s = store();
    let op = MetaOp::PutManifest {
        repo: "r".into(),
        digest: "sha256:m".into(),
        media_type: "mt".into(),
        tag: Some("v1".into()),
        references: vec![],
        referrer: None,
    };
    assert_eq!(
        s.apply_meta("r", op.clone(), Err(denied())),
        Err(StorageError::Io(denied()))
    );
    assert!(s.meta.resolve_tag("r", "v1").is_none());
    assert!(s.index_dirty.contains("r"));
    assert_eq!(s.apply_meta("r", op, Ok(())), Ok(()));
    assert!(s.meta.resolve_tag("r", "v1").is_some());
}

#[test]
fn deleting_a_manifest_leaves_its_references_as_candidates() {
    let mut s = store();
    let shared = store_blob(&mut s, "r", b"shared", 1);
    let own = store_blob(&mut s, "r", b"own", 1);
    let manifest = format!(
        "{{\"config\":{{\"digest\":\"{}\"}},\"layers\":[{{\"digest\":\"{}\"}}]}}",
        own.as_string(),
        shared.as_string()
    );
    let d = push(&mut s, "r", Some("v1"), manifest.as_bytes(), &[&own, &shared], 2);
    push(&mut s, "r", Some("v2"), b"{\"other\":1}", &[&shared], 2);
    let bytes = match s.manifest_source("r", &d).unwrap() {
        BlobSource::Cached(b) => b,
        other => panic!("unexpected source {other:?}"),
    };
    let refs = read_references(&bytes);
    assert_eq!(refs, vec![own.as_string(), shared.as_string()]);
    let op = s.blob_left("r", &d.as_string());
    record(&mut s, op);
    s.apply_meta(
        "r",
        MetaOp::DeleteManifest { repo: "r".into(), digest: d.as_string() },
        Ok(()),
    )
    .unwrap();
    s.manifest_deleted("r", &refs, 50);
    // What the other manifest references stays.
    assert_eq!(s.gc.candidate_keys(), vec![("r".to_string(), own.as_string())]);
    assert!(matches!(s.find_manifest("r", "v1"), Ok(ManifestLookup::AskIndex)));
    assert!(read_references(b"not json").is_empty());
}

fn tagged(digest: &str, tag: &str, extra: &str) -> String {
    format!(
        "{{\"digest\":\"{digest}\",\"annotations\":{{\
         \"org.opencontainers.image.ref.name\":\"{tag}\"}}{extra}}}"
    )
}

#[test]
fn the_index_on_disk_resolves_what_is_not_on_record() {
    let d = sha256_of(b"m");
    let index = doc(&format!(
        "{{\"manifests\":[{},{},{}]}}",
        tagged(&d.as_string(), "v1", ",\"mediaType\":\"mt\""),
        tagged(&d.as_string(), "v2", ""),
        tagged("bad", "v3", "")
    ));
    let (found, media_type) = index_resolve_tag(&index, "v1").unwrap();
    assert!(found.ct_eq(&d));
    assert_eq!(media_type, "mt");
    let (_, media_type) = find_in_index("v2", &index).unwrap();
    assert_eq!(media_type, "application/vnd.oci.image.manifest.v1+json");
    assert_eq!(
        index_resolve_tag(&index, "v3"),
        Err(StorageError::BadDigest("bad".into()))
    );
    assert_eq!(index_resolve_tag(&index, "v4"), Err(StorageError::NotFound));
    assert_eq!(
        index_media_type_for_digest(&index, &d.as_string()).as_deref(),
        Some("mt")
    );
    assert_eq!(index_media_type_for_digest(&index, "bad"), None);
    let (_, media_type) = find_in_index(&d.as_string(), &index).unwrap();
    assert_eq!(media_type, "mt");
    let page = tags_in_index(&index, None, 2);
    assert_eq!(page.items, vec!["v1", "v2"]);
    assert!(page.more);
    assert_eq!(tags_in_index(&index, Some("v2"), 5).items, vec!["v3"]);
}

#[test]
fn a_dirty_index_is_derived_and_a_clean_one_read() {
    let mut s = store();
    let d = push(&mut s, "r", Some("v1"), b"{}", &[], 1);
    match s.read_index("r", FileRead::Missing).unwrap() {
        IndexView::Derived { existing, wanted } => {
            assert!(existing.is_none());
            assert_eq!(wanted, vec![d.as_string()]);
            let mut sizes: Table<String, u64> = Table::new();
            sizes.insert(d.as_string(), 2);
            let index = s.derive_index("r", existing, &sizes);
            assert_eq!(index_resolve_tag(&index, "v1").unwrap().0.as_string(), d.as_string());
            // What was derived is what a clean read gives back.
            let bytes = to_bytes(&index);
            for (repo, generation) in s.index_dirty.pending() {
                s.index_dirty.written(&repo, generation);
            }
            match s.read_index("r", FileRead::Bytes(bytes.clone())).unwrap() {
                IndexView::OnDisk(j) => assert_eq!(to_bytes(&j), bytes),
                IndexView::Derived { .. } => panic!("still dirty"),
            }
            s.reconcile_index("r", &index, &index);
            assert!(s.index_dirty.is_empty());
            s.reconcile_index("r", &index, &doc("{}"));
            assert!(s.index_dirty.contains("r"));
        }
        IndexView::OnDisk(_) => panic!("not dirty"),
    }
    match s.read_index("clean", FileRead::Missing).unwrap() {
        IndexView::OnDisk(j) => assert!(tags_in_index(&j, None, 9).items.is_empty()),
        IndexView::Derived { .. } => panic!("dirty"),
    }
    assert!(matches!(
        s.read_index("clean", FileRead::Failed(denied())),
        Err(StorageError::Io(_))
    ));
    assert!(matches!(
        s.read_index("clean", FileRead::Bytes(b"{".to_vec())),
        Err(StorageError::Io(_))
    ));
    // A dirty repository's unreadable file is rebuilt over nothing.
    assert!(matches!(
        s.read_index("r", FileRead::Bytes(b"{".to_vec())),
        Ok(IndexView::Derived { existing: None, .. })
    ));
}

#[test]
fn an_unreadable_index_is_not_an_absent_one() {
    assert!(matches!(read_existing(FileRead::Missing), Ok(None)));
    assert!(matches!(read_existing(FileRead::Bytes(b"{}".to_vec())), Ok(Some(_))));
    let broken = read_existing(FileRead::Bytes(b"{".to_vec())).unwrap_err();
    assert!(!broken.not_found);
    assert_eq!(broken.message, "EOF while parsing an object at line 1 column 1");
    assert_eq!(read_existing(FileRead::Failed(denied())).unwrap_err(), denied());
}

#[test]
fn referrers_come_from_the_index_or_from_the_tag_schema() {
    let subject = sha256_of(b"subject");
    let other = sha256_of(b"other");
    let index = doc(&format!(
        "{{\"manifests\":[{{\"digest\":\"x\",\"artifactType\":\"sig\",\
         \"subject\":{{\"digest\":\"{}\"}}}},{{\"digest\":\"y\"}}]}}",
        subject.as_string()
    ));
    let page = referrers_in_index(&index, &subject.as_string(), None, None, 9).unwrap();
    assert_eq!(page.items.len(), 1);
    assert_eq!(page.items[0].0, "x");
    let none = referrers_in_index(&index, &subject.as_string(), Some("sbom"), None, 9).unwrap();
    assert!(none.items.is_empty());
    assert!(referrers_in_index(&index, &other.as_string(), None, None, 9).is_none());

    assert_eq!(referrers_tag(&subject), format!("sha256-{}", subject.hex()));
    let long = roci_storage::digest::digest_of(b"subject", "sha512");
    assert_eq!(referrers_tag(&long), format!("sha512-{}", &long.hex()[..64]));

    let listing = format!(
        "{{\"manifests\":[{{\"digest\":\"{}\"}},{{\"digest\":\"bad\"}},{{\"digest\":\"{}\"}}]}}",
        other.as_string(),
        other.as_string().to_uppercase().replace("SHA256", "sha256")
    );
    let page = referrers_in_manifest(listing.as_bytes(), None, None, 9);
    assert_eq!(page.items.len(), 1);
    assert_eq!(page.items[0].0, other.as_string());
    assert!(referrers_in_manifest(b"nope", None, None, 9).items.is_empty());
    assert!(referrers_in_manifest(b"{}", None, None, 9).items.is_empty());

    let mut s = store();
    assert!(s.recorded_tag("r", "t").is_none());
    let d = push(&mut s, "r", Some("t"), b"{}", &[], 1);
    assert!(s.recorded_tag("r", "t").unwrap().unwrap().ct_eq(&d));
}

#[test]
fn a_referrer_is_recorded_with_a_link_to_its_subject() {
    let subject = sha256_of(b"subject");
    let linked = referrer_descriptor(&subject, b"{\"digest\":\"x\",\"subject\":1}").unwrap();
    assert_eq!(
        linked,
        format!(
            "{{\"digest\":\"x\",\"subject\":{{\"digest\":\"{}\"}}}}",
            subject.as_string()
        )
        .as_bytes()
    );
    let failed = |bytes: &[u8]| match referrer_descriptor(&subject, bytes) {
        Err(StorageError::Io(e)) if !e.not_found => e.message,
        other => panic!("{other:?}"),
    };
    assert_eq!(failed(b"[]"), "invalid type: sequence, expected a map at line 1 column 0");
    assert_eq!(failed(b"{"), "EOF while parsing an object at line 1 column 1");

    let mut s = store();
    let data = b"{\"sig\":1}";
    let d = sha256_of(data);
    let links = ManifestLinks {
        subject: Some((subject.clone(), b"{\"artifactType\":\"sig\"}".to_vec())),
        required: vec![],
        references: vec![],
    };
    let plan = plan_manifest("r", None, &d, "mt", data, &links).unwrap();
    s.apply_meta("r", plan.op, Ok(())).unwrap();
    assert!(s.meta.has_referrer("r", &subject.as_string(), &d.as_string()));
}

#[test]
fn referrers_of_a_layout_are_registered_once() {
    let mut s = store();
    let entry = doc("{\"digest\":\"x\",\"subject\":{\"digest\":\"s\"}}");
    let op = s.referrer_upgrade("r", &entry);
    assert_eq!(
        op,
        Some(MetaOp::PutReferrer {
            repo: "r".into(),
            subject: "s".into(),
            referrer: "x".into(),
            descriptor: to_bytes(&entry),
        })
    );
    record(&mut s, op);
    assert_eq!(s.referrer_upgrade("r", &entry), None);
    assert_eq!(s.referrer_upgrade("r", &doc("{\"digest\":\"x\"}")), None);
    assert_eq!(s.referrer_upgrade("r", &doc("{\"subject\":{\"digest\":\"s\"}}")), None);
}

/// An index on disk that lists one manifest.
fn listing(digest: &Digest) -> FileRead {
    let text = format!("{{\"manifests\":[{{\"digest\":\"{}\"}}]}}", digest.as_string());
    FileRead::Bytes(text.into_bytes())
}

#[test]
fn the_rebuild_follows_children_from_the_roots() {
    let mut s = store();
    let child = sha256_of(b"child");
    let missing = sha256_of(b"missing");
    let parent_bytes = format!(
        "{{\"manifests\":[{{\"digest\":\"{}\"}},{{\"digest\":\"{}\"}},{{\"digest\":\"junk\"}}]}}",
        child.as_string(),
        missing.as_string()
    );
    let parent = sha256_of(parent_bytes.as_bytes());
    let layer = sha256_of(b"layer");
    let child_bytes = format!("{{\"layers\":[{{\"digest\":\"{}\"}}]}}", layer.as_string());
    let mut found = s.rebuild_start("r", listing(&parent));
    let mut reads = 0;
    while let Some((digest, path)) = found.next() {
        reads += 1;
        assert_eq!(path[..3], ["r".to_string(), "blobs".into(), "sha256".into()]);
        let hidden = if digest == parent.as_string() {
            found.visited(Some(parent_bytes.as_bytes()))
        } else if digest == child.as_string() {
            found.visited(Some(child_bytes.as_bytes()))
        } else {
            found.visited(None)
        };
        assert!(!hidden);
    }
    assert_eq!(reads, 3);
    let mut all = found.digests();
    all.sort();
    let mut expected = vec![
        parent.as_string(),
        child.as_string(),
        missing.as_string(),
        "junk".to_string(),
    ];
    expected.sort();
    assert_eq!(all, expected);
    assert!(found.is_root(&parent.as_string()));
    assert!(!found.is_root(&child.as_string()));
    s.rebuild_roots(&found);
    assert!(s.gc.is_root("r", &child.as_string()));
    assert_eq!(s.gc.roots_len(), 4);

    // The edges of the child are missing, and recorded once.
    let op = s.rebuild_edges(&found, &child.as_string(), Some(child_bytes.as_bytes()));
    assert_eq!(
        op,
        Some(MetaOp::PutBackrefs {
            repo: "r".into(),
            manifest: child.as_string(),
            blobs: vec![layer.as_string()],
        })
    );
    record(&mut s, op);
    assert!(s
        .rebuild_edges(&found, &child.as_string(), Some(child_bytes.as_bytes()))
        .is_none());
    // A child that is missing is no harm; a root that is missing is.
    assert!(s.rebuild_edges(&found, &missing.as_string(), None).is_none());
    assert!(!s.gc.is_unsafe("r"));
    assert!(s.rebuild_edges(&found, &parent.as_string(), None).is_none());
    assert!(s.gc.is_unsafe("r"));
}

#[test]
fn an_unparseable_root_hides_what_it_references() {
    let mut s = store();
    let root = sha256_of(b"root");
    let mut found = s.rebuild_start("r", listing(&root));
    assert!(found.next().is_some());
    assert!(found.visited(Some(b"not json")));
    assert!(found.next().is_none());
    assert!(s.rebuild_edges(&found, &root.as_string(), Some(b"not json")).is_none());
    assert!(s.gc.is_unsafe("r"));
}

#[test]
fn recorded_manifests_are_roots_without_an_index() {
    let mut s = store();
    let d = push(&mut s, "r", None, b"{}", &[], 1);
    let found = s.rebuild_start("r", FileRead::Missing);
    assert_eq!(found.digests(), vec![d.as_string()]);
    s.rebuild_roots(&found);
    // It is on record, so it needs no root entry.
    assert_eq!(s.gc.roots_len(), 0);
    assert_eq!(s.gc_repos(vec!["z".into()]), vec!["z", "r"]);
    assert_eq!(s.gc_repos(vec!["r".into()]), vec!["r"]);
}

#[test]
fn only_unreferenced_blobs_are_seeded_as_candidates() {
    let mut s = store();
    let layer = sha256_of(b"layer");
    let loose = sha256_of(b"loose");
    let d = push(&mut s, "r", None, b"{}", &[&layer], 1);
    s.gc.add_root("r", "sha256:root");
    for name in [
        layer.as_string(),
        loose.as_string(),
        d.as_string(),
        "sha256:root".to_string(),
    ] {
        s.seed_candidate("r", &name, 5);
    }
    assert_eq!(s.gc.candidate_keys(), vec![("r".to_string(), loose.as_string())]);
}

#[test]
fn a_sweep_collects_garbage_and_nothing_else() {
    let mut s = store();
    let loose = store_blob(&mut s, "r", b"loose", 0);
    let name = loose.as_string();
    // Not before the consistency check is done.
    assert!(s.sweep_due(DELAY).is_empty());
    s.gc.set_ready();
    assert!(s.sweep_due(DELAY - 1).is_empty());
    assert_eq!(s.sweep_candidate("r", &name, DELAY - 1), SweepStep::Keep);
    assert_eq!(s.sweep_due(DELAY), vec![("r".to_string(), name.clone())]);
    // An unsafe repository is left alone.
    s.gc.mark_unsafe("r");
    assert_eq!(s.sweep_candidate("r", &name, DELAY), SweepStep::Keep);
    assert_eq!(s.gc.len(), 1);
    let mut s = store();
    store_blob(&mut s, "r", b"loose", 0);
    match s.sweep_candidate("r", &name, DELAY) {
        SweepStep::Remove { dir, leaf } => {
            assert_eq!(dir, vec!["r", "blobs", "sha256"]);
            assert_eq!(leaf, loose.hex());
        }
        SweepStep::Keep => panic!("kept"),
    }
    assert_eq!(s.sweep_stat("r", &name, Err(denied())), SweepStat::Failed);
    assert_eq!(s.sweep_stat("r", &name, Ok(Some((true, 5)))), SweepStat::Found(5));
    assert!(matches!(s.sweep_removed("r", &name, Err(denied())), SweepOutcome::Failed));
    assert_eq!(s.gc.len(), 1);
    match s.sweep_removed("r", &name, Ok(())) {
        SweepOutcome::Collected { record: op } => {
            assert!(matches!(op, Some(MetaOp::DeleteBlob { .. })));
        }
        other => panic!("unexpected outcome {other:?}"),
    }
    assert!(s.gc.is_empty());
    assert_eq!(s.find_blob("r", &loose, 0), Ok(BlobLookup::Absent));
}

#[test]
fn settled_candidates_are_dropped() {
    let mut s = store();
    let layer = store_blob(&mut s, "r", b"layer", 0);
    let name = layer.as_string();
    // Referenced meanwhile.
    s.meta.apply(MetaOp::PutBackrefs {
        repo: "r".into(),
        manifest: "sha256:m".into(),
        blobs: vec![name.clone()],
    });
    assert_eq!(s.sweep_candidate("r", &name, DELAY), SweepStep::Keep);
    assert!(s.gc.is_empty());
    // A root, a malformed digest and a bad repository.
    for (repo, digest) in [("r", "sha256:root"), ("r", "bad"), ("..", name.as_str())] {
        s.gc.mark("r", "sha256:root", 0);
        s.gc.add_root("r", "sha256:root");
        s.gc.mark(repo, digest, 0);
        assert_eq!(s.sweep_candidate(repo, digest, DELAY), SweepStep::Keep);
        assert!(!s.gc.is_due(repo, digest, DELAY));
    }
    // A file that is gone, or no regular file.
    for stat in [Ok(None), Ok(Some((false, 3))), Err(gone())] {
        s.gc.mark("r", "sha256:x", 0);
        assert_eq!(s.sweep_stat("r", "sha256:x", stat), SweepStat::Gone);
        assert!(!s.gc.is_due("r", "sha256:x", DELAY));
    }
    s.gc.mark("r", "sha256:x", 0);
    assert!(matches!(s.sweep_removed("r", "sha256:x", Err(gone())), SweepOutcome::Gone));
    assert!(!s.gc.is_due("r", "sha256:x", DELAY));
    assert_eq!(SWEEP_BATCH_SIZE, 256);
}

#[test]
fn stale_uploads_are_old_and_unlocked() {
    assert!(is_stale_upload(10, 10, false));
    assert!(!is_stale_upload(9, 10, false));
    assert!(!is_stale_upload(10, 10, true));
}

#[test]
fn a_stamp_restores_what_it_was_made_from() {
    let mut s = store();
    let loose = store_blob(&mut s, "a", b"loose", 3);
    s.gc.add_root("a", "sha256:root");
    s.gc.mark_unsafe("broken");
    let presence = vec![("a".to_string(), loose.as_string())];
    let stamp = s.stamp_of("1", "hash", 7, 99, presence, vec![("a".into(), 5)], 5, 1);
    let valid = validate_stamp(stamp, "1", "hash", 7, 99).unwrap();
    let mut fresh = store();
    fresh.apply_stamp(&valid, 50);
    assert!(fresh.gc.is_ready());
    assert!(fresh.presence.maybe_present("a", &loose.as_string()));
    assert!(!fresh.presence.maybe_present("b", &loose.as_string()));
    assert_eq!(
        fresh.dedupe.locate(&loose.as_string(), "b").as_deref(),
        Some("a")
    );
    assert_eq!(fresh.gc.candidate_keys(), s.gc.candidate_keys());
    // The grace period starts again.
    assert!(!fresh.gc.is_due("a", &loose.as_string(), 50 + DELAY - 1));
    assert!(fresh.gc.is_due("a", &loose.as_string(), 50 + DELAY));
    assert!(fresh.gc.is_root("a", "sha256:root"));
    assert!(fresh.gc.is_unsafe("broken"));
    assert_eq!(valid.quota_per_repo, vec![("a".to_string(), 5)]);
}

#[test]
fn a_listing_goes_by_the_record_then_by_the_index_then_by_the_tag() {
    let mut s = store();
    let subject = sha256_of(b"subject");
    let other = sha256_of(b"other");
    // Tags.
    let index = doc("{\"manifests\":[{\"digest\":\"x\",\"annotations\":\
        {\"org.opencontainers.image.ref.name\":\"old\"}}]}");
    assert!(s.list_tags("r", None, None, 9).is_none());
    assert_eq!(s.list_tags("r", Some(&index), None, 9).unwrap().items, vec!["old"]);
    push(&mut s, "r", Some("new"), b"{}", &[], 1);
    assert_eq!(s.list_tags("r", None, None, 9).unwrap().items, vec!["new"]);
    assert_eq!(s.list_tags("r", Some(&index), None, 9).unwrap().items, vec!["new"]);

    // Referrers: nothing is on record, and the index is needed.
    assert!(matches!(
        s.list_referrers("r", &subject, None, None, None, 9),
        ReferrersStep::AskIndex
    ));
    let empty = doc("{}");
    match s.list_referrers("r", &subject, Some(&empty), None, None, 9) {
        ReferrersStep::Listed(page) => assert!(page.items.is_empty() && !page.more),
        _ => panic!("nothing to read"),
    }
    let linking = doc(&format!(
        "{{\"manifests\":[{{\"digest\":\"x\",\"subject\":{{\"digest\":\"{}\"}}}}]}}",
        subject.as_string()
    ));
    match s.list_referrers("r", &subject, Some(&linking), None, None, 9) {
        ReferrersStep::Listed(page) => assert_eq!(page.items[0].0, "x"),
        _ => panic!("the index links one"),
    }
    // The tag of the index, and the one on record before it.
    let tagged = doc(&format!(
        "{{\"manifests\":[{{\"digest\":\"{}\",\"annotations\":\
         {{\"org.opencontainers.image.ref.name\":\"{}\"}}}}]}}",
        other.as_string(),
        referrers_tag(&subject)
    ));
    match s.list_referrers("r", &subject, Some(&tagged), None, None, 9) {
        ReferrersStep::Read(d) => assert!(d.ct_eq(&other)),
        _ => panic!("the tag leads to a manifest"),
    }
    let listing = format!("{{\"manifests\":[{{\"digest\":\"{}\"}}]}}", other.as_string());
    let tag = referrers_tag(&subject);
    let d = push(&mut s, "r", Some(tag.as_str()), listing.as_bytes(), &[], 2);
    match s.list_referrers("r", &subject, Some(&tagged), None, None, 9) {
        ReferrersStep::Read(found) => assert!(found.ct_eq(&d)),
        _ => panic!("the tag leads to a manifest"),
    }
    let page = referrers_read(Some(listing.as_bytes()), None, None, 9);
    assert_eq!(page.items[0].0, other.as_string());
    assert!(referrers_read(None, None, None, 9).items.is_empty());

    // What is on record goes first.
    s.meta.apply(MetaOp::PutReferrer {
        repo: "r".into(),
        subject: subject.as_string(),
        referrer: "z".into(),
        descriptor: b"{}".to_vec(),
    });
    match s.list_referrers("r", &subject, Some(&linking), None, None, 9) {
        ReferrersStep::Listed(page) => assert_eq!(page.items[0].0, "z"),
        _ => panic!("one is on record"),
    }
}

#[test]
fn malformed_index_json_makes_repo_unsafe() {
    // An index that is there and cannot be parsed hides the roots: nothing of the
    // repository is garbage.
    let mut s = store();
    let blob = store_blob(&mut s, "r", b"live-but-unindexed", 1);
    let found = s.rebuild_start("r", FileRead::Bytes(b"{not json".to_vec()));
    assert!(found.digests().is_empty());
    assert!(s.gc.is_unsafe("r"));
    s.gc.set_ready();
    assert_eq!(s.sweep_due(1 + DELAY).len(), 1);
    assert_eq!(s.sweep_candidate("r", &blob.as_string(), 1 + DELAY), SweepStep::Keep);
    // So does one that cannot be read; one that is not there does not.
    s.rebuild_start("q", FileRead::Failed(denied()));
    assert!(s.gc.is_unsafe("q"));
    s.rebuild_start("p", FileRead::Missing);
    assert!(!s.gc.is_unsafe("p"));
}

#[test]
fn oversized_root_manifest_makes_repo_unsafe_without_buffering_it() {
    let mut s = store();
    // A listed manifest of more than is read of one, though it is a document.
    let mut big = b"{}".to_vec();
    big.resize(4 * 1024 * 1024 + 1, b' ');
    let root = sha256_of(&big);
    let mut found = s.rebuild_start("r", listing(&root));
    assert!(found.next().is_some());
    assert!(found.visited(Some(&big)));
    assert!(!s.gc.is_unsafe("r"));
    assert!(s.rebuild_edges(&found, &root.as_string(), Some(&big)).is_none());
    assert!(s.gc.is_unsafe("r"));
    // One byte less is read.
    big.pop();
    let mut found = s.rebuild_start("q", listing(&root));
    assert!(found.next().is_some());
    assert!(!found.visited(Some(&big)));
    assert!(s.rebuild_edges(&found, &root.as_string(), Some(&big)).is_none());
    assert!(!s.gc.is_unsafe("q"));
}

#[test]
fn custom_small_blob_threshold_controls_caching() {
    let policy = StoragePolicy {
        cache_max_bytes: 1 << 20,
        small_blob_threshold: 16,
        gc_enabled: false,
        gc_delay: 0,
        dedupe: true,
    };
    let mut s = FsStorage::with_config(LogMetadataStore::open(None).0, &policy);
    let big = store_blob(&mut s, "r", b"0123456789abcdefX", 1);
    assert!(s.cache.get("r", &big.as_string()).is_none());
    let small = store_blob(&mut s, "r", b"0123456789abcdef", 1);
    assert_eq!(
        s.cache.get("r", &small.as_string()),
        Some(b"0123456789abcdef".to_vec())
    );
}

fn hash_of(data: &[u8], algorithm: &str) -> StagedHash {
    let mut h = StagedHash::new(algorithm);
    h.update(data);
    h
}

#[test]
fn a_content_hashed_in_pieces_is_hashed_as_a_whole() {
    let data = b"123456789";
    for algorithm in ["sha256", "sha512", "md5"] {
        for cut in 0..=data.len() {
            let mut h = StagedHash::new(algorithm);
            assert_eq!(h.len(), 0);
            h.update(&data[..cut]);
            h.update(&data[cut..]);
            assert_eq!(h.len(), 9);
            assert!(h.fits(1 << 20));
            assert_eq!(h.fits(usize::MAX - 9), algorithm == "sha512");
            let (digest, checksum) = h.finish();
            assert_eq!(digest, digest_of(data, algorithm));
            assert_eq!(checksum, BlobChecksum { crc32c: 0xE306_9283, size: 9 });
        }
    }
    // Nothing at all.
    let (digest, checksum) = StagedHash::new("sha256").finish();
    assert_eq!(digest, sha256_of(b""));
    assert_eq!(checksum, BlobChecksum { crc32c: 0, size: 0 });
}

#[test]
fn hashing_starts_with_the_first_append_and_goes_on() {
    assert!(seed_hash(None, false).is_none());
    let mut h = seed_hash(None, true).unwrap();
    h.update(b"ab");
    for starts in [false, true] {
        let mut kept = StagedHash::new("sha256");
        kept.update(b"ab");
        let mut kept = seed_hash(Some(kept), starts).unwrap();
        kept.update(b"c");
        assert_eq!(kept.finish().0, sha256_of(b"abc"));
    }
    assert_eq!(h.finish().0, sha256_of(b"ab"));
}

#[test]
fn an_append_stops_at_the_limit() {
    assert_eq!(staged_total(0, 0, 0), Ok(0));
    assert_eq!(staged_total(4, 6, 10), Ok(10));
    assert_eq!(staged_total(4, 7, 10), Err(StorageError::TooLarge { limit: 10, actual: 11 }));
    assert_eq!(
        staged_total(u64::MAX, 1, 10),
        Err(StorageError::TooLarge { limit: 10, actual: u64::MAX })
    );
    assert_eq!(staged_total(u64::MAX - 1, 5, u64::MAX), Ok(u64::MAX));
}

#[test]
fn an_upload_is_verified_under_the_expected_algorithm() {
    let data = b"uploaded content";
    let expected = digest_of(data, "sha512");
    for (algorithm, lands) in [("sha512", true), ("sha256", false)] {
        let mut s = store();
        let mut f = finish_upload("r", "id", &expected, 100, false).unwrap();
        f.stage = FinishStage::Verifying { size: 16 };
        let action = s.finish_step(&mut f, FinishEvent::Hashed(hash_of(data, algorithm)), 1);
        assert_eq!(matches!(action, FinishAction::Land(_)), lands);
        if lands {
            assert_eq!(f.stage, FinishStage::Landing { size: 16, crc32c: crc32c(data) });
        }
    }
}

#[test]
fn temporary_files_are_hidden_and_told_apart() {
    assert_eq!(temp_name("oci-layout", &[0xAB, 0x01]), ".oci-layout.ab01.tmp");
}
