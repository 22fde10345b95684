//! The log engine: queries, replay, upkeep, authentication and snapshots.

use roci_storage::hashing::crc32c;
use roci_storage::metadata::codec::{deserialize_op, serialize_op};
use roci_storage::metadata::log::{check_log_framing, encode, generation_marker, LogFramingCheck};
use roci_storage::metadata::log_store::{LogMetadataStore, SnapshotFile};
use roci_storage::metadata::referrers::SubjectReferrers;
use roci_storage::metadata::store::MetadataStore;
use roci_storage::metadata::wal_hmac::{encode_header, FramingMode, HmacKey};
use roci_storage::metadata::{BlobChecksum, MetaOp};

fn put(repo: &str, digest: &str, tag: Option<&str>) -> MetaOp {
    MetaOp::PutManifest {
        repo: repo.into(),
        digest: digest.into(),
        media_type: "application/vnd.oci.image.manifest.v1+json".into(),
        tag: tag.map(str::to_string),
        references: Vec::new(),
        referrer: None,
    }
}

fn delete(repo: &str, digest: &str) -> MetaOp {
    MetaOp::DeleteManifest { repo: repo.into(), digest: digest.into() }
}

fn refer(repo: &str, subject: &str, referrer: &str, descriptor: &str) -> MetaOp {
    MetaOp::PutReferrer {
        repo: repo.into(),
        subject: subject.into(),
        referrer: referrer.into(),
        descriptor: descriptor.as_bytes().to_vec(),
    }
}

fn edges(repo: &str, manifest: &str, blobs: &[&str]) -> MetaOp {
    MetaOp::PutBackrefs {
        repo: repo.into(),
        manifest: manifest.into(),
        blobs: blobs.iter().map(|b| b.to_string()).collect(),
    }
}

fn sum(repo: &str, digest: &str, crc32c: u32, size: u64) -> MetaOp {
    MetaOp::PutChecksum { repo: repo.into(), digest: digest.into(), crc32c, size }
}

/// An open store over the bytes of its files.
struct Db {
    store: LogMetadataStore,
    log: Vec<u8>,
    snapshot: SnapshotFile,
    moved_aside: bool,
    removed_snapshot: bool,
}

/// How a store is opened.
#[derive(Clone)]
struct Setup {
    threshold: u64,
    snapshot: bool,
    key: Option<Vec<u8>>,
}

fn plain() -> Setup {
    Setup { threshold: 0, snapshot: false, key: None }
}

fn compacting() -> Setup {
    Setup { threshold: 1, ..plain() }
}

fn snapshotting() -> Setup {
    Setup { threshold: 1, snapshot: true, key: None }
}

fn key() -> Vec<u8> {
    vec![0xABu8; 64]
}

fn other_key() -> Vec<u8> {
    vec![0xCDu8; 64]
}

impl Db {
    fn open(log: Vec<u8>, snapshot: SnapshotFile, setup: &Setup) -> Db {
        let key = setup.key.clone().map(|k| HmacKey::new(k).unwrap());
        let bytes = if log.is_empty() { None } else { Some(log.as_slice()) };
        let (store, actions) =
            LogMetadataStore::open_with(bytes, snapshot, setup.threshold, setup.snapshot, key);
        let mut log = if actions.move_log_aside { Vec::new() } else { log };
        if let Some(len) = actions.cut_log {
            log.truncate(len as usize);
        }
        Db {
            store,
            log,
            snapshot: SnapshotFile::Missing,
            moved_aside: actions.move_log_aside,
            removed_snapshot: actions.remove_snapshot,
        }
    }

    fn new(setup: &Setup) -> Db {
        Db::open(Vec::new(), SnapshotFile::Missing, setup)
    }

    fn apply(&mut self, op: MetaOp) {
        let record = self.store.append_record(&op, self.log.is_empty());
        self.log.extend_from_slice(&record);
        self.store.apply(op);
    }

    fn maintain(&mut self) -> bool {
        let size = self.log.len() as u64;
        match self.store.do_maintain(size) {
            Some(upkeep) => {
                // The same once more, as the copy that goes to disk.
                let copy = self.store.do_maintain(size).unwrap();
                self.log = copy.image;
                if copy.snapshot {
                    self.snapshot = SnapshotFile::Valid(copy.full);
                }
                self.store.install_log(upkeep);
                true
            }
            None => false,
        }
    }

    fn reopen(self, setup: &Setup) -> Db {
        Db::open(self.log, self.snapshot, setup)
    }

    fn tag(&self, repo: &str, tag: &str) -> Option<String> {
        self.store.resolve_tag(repo, tag).map(|(d, _)| d)
    }
}

#[test]
fn crc32c_matches_known_vector() {
    // The standard check value for the ASCII string "123456789".
    assert_eq!(crc32c(b"123456789"), 0xE306_9283);
}

#[test]
fn bitwise_crc_agrees_with_the_table_driven_one() {
    for data in [&b""[..], b"a", b"hello world", &[0u8; 300], &[0xFFu8; 77]] {
        assert_eq!(crc32c(data), ::crc32c::crc32c(data));
    }
}

fn check_apply_resolve_and_list() {
    let mut s = Db::new(&plain());
    s.apply(put("r", "sha256:aa", Some("v1")));
    s.apply(put("r", "sha256:bb", Some("v2")));
    // An untagged manifest has only its media type on record.
    s.apply(put("r", "sha256:cc", None));
    assert_eq!(s.tag("r", "v1").as_deref(), Some("sha256:aa"));
    assert_eq!(s.store.resolve_tag("r", "missing"), None);
    assert_eq!(
        s.store.manifest_media_type("r", "sha256:cc").as_deref(),
        Some("application/vnd.oci.image.manifest.v1+json")
    );
    assert_eq!(s.store.manifest_media_type("r", "sha256:zz"), None);
    assert_eq!(
        s.store.tags_page("r", None, usize::MAX).unwrap().items,
        vec!["v1".to_string(), "v2".to_string()]
    );
    assert!(s.store.tags_page("other", None, usize::MAX).is_none());
}

#[test]
fn metadata_apply_resolve_and_list() {
    check_apply_resolve_and_list();
}

#[test]
fn log_apply_resolve_and_list() {
    check_apply_resolve_and_list();
}

fn check_delete_removes_tags_media_and_referrers() {
    let mut s = Db::new(&plain());
    s.apply(put("r", "sha256:aa", Some("v1")));
    s.apply(put("r", "sha256:aa", Some("v1b")));
    s.apply(refer("r", "sha256:aa", "sha256:rr", r#"{"digest":"sha256:rr"}"#));
    assert_eq!(
        s.store.referrers_page("r", "sha256:aa", None, None, usize::MAX).unwrap().items.len(),
        1
    );
    // Deleting the referrer takes it from the subject.
    s.apply(delete("r", "sha256:rr"));
    assert!(s.store.referrers_page("r", "sha256:aa", None, None, usize::MAX).is_none());
    // Deleting the subject takes its tags and its media type.
    s.apply(delete("r", "sha256:aa"));
    assert!(s.store.tags_page("r", None, usize::MAX).is_none());
    assert_eq!(s.store.manifest_media_type("r", "sha256:aa"), None);
}

#[test]
fn metadata_delete_removes_tags_media_and_referrers() {
    check_delete_removes_tags_media_and_referrers();
}

#[test]
fn log_delete_removes_tags_media_and_referrers() {
    check_delete_removes_tags_media_and_referrers();
}

fn check_referrer_dedup_replaces_by_digest() {
    let mut s = Db::new(&plain());
    s.apply(refer("r", "sha256:s", "sha256:rr", r#"{"v":1}"#));
    s.apply(refer("r", "sha256:s", "sha256:rr", r#"{"v":2}"#));
    let refs = s.store.referrers_page("r", "sha256:s", None, None, usize::MAX).unwrap().items;
    assert_eq!(refs.len(), 1);
    assert_eq!(refs[0].1, br#"{"v":2}"#);
    assert!(s.store.referrers_page("r", "sha256:none", None, None, usize::MAX).is_none());
}

#[test]
fn metadata_referrer_dedup_replaces_by_digest() {
    check_referrer_dedup_replaces_by_digest();
}

#[test]
fn log_referrer_dedup_replaces_by_digest() {
    check_referrer_dedup_replaces_by_digest();
}

fn check_tags_page_seeks_past_cursor() {
    let mut s = Db::new(&plain());
    for t in ["v4", "v1", "v3", "v2"] {
        s.apply(put("r", "sha256:aa", Some(t)));
    }
    s.apply(put("other", "sha256:aa", Some("v0")));
    let page = |last, limit| {
        let p = s.store.tags_page("r", last, limit).unwrap();
        (p.items, p.more)
    };
    let v = |ts: &[&str]| ts.iter().map(|t| t.to_string()).collect::<Vec<_>>();
    assert_eq!(page(None, 2), (v(&["v1", "v2"]), true));
    assert_eq!(page(Some("v2"), 2), (v(&["v3", "v4"]), false), "exact fit");
    // A cursor that is no tag resumes after where it would stand.
    assert_eq!(page(Some("v25"), 1), (v(&["v3"]), true));
    assert_eq!(page(Some("v9"), 5), (v(&[]), false));
    assert_eq!(page(None, 0), (v(&[]), true));
}

#[test]
fn metadata_tags_page_seeks_past_cursor() {
    check_tags_page_seeks_past_cursor();
}

#[test]
fn log_tags_page_seeks_past_cursor() {
    check_tags_page_seeks_past_cursor();
}

fn page(
    s: &Db,
    filter: Option<&str>,
    last: Option<&str>,
    limit: usize,
) -> (Vec<String>, bool) {
    let p = s.store.referrers_page("r", "sha256:s", filter, last, limit).unwrap();
    (p.items.into_iter().map(|(d, _)| d).collect(), p.more)
}

fn check_referrers_page_filters_through_type_index() {
    let mut s = Db::new(&plain());
    s.apply(refer("r", "sha256:s", "sha256:c", r#"{"artifactType":"sig"}"#));
    s.apply(refer("r", "sha256:s", "sha256:a", r#"{"artifactType":"sig"}"#));
    s.apply(refer("r", "sha256:s", "sha256:b", r#"{"artifactType":"sbom"}"#));
    s.apply(refer("r", "sha256:s", "sha256:d", r#"{}"#));
    s.apply(refer("other", "sha256:s", "sha256:a", r#"{"artifactType":"sig"}"#));
    let v = |ds: &[&str]| ds.iter().map(|d| d.to_string()).collect::<Vec<_>>();
    // In digest order, whatever the order of insertion.
    assert_eq!(
        page(&s, None, None, 9),
        (v(&["sha256:a", "sha256:b", "sha256:c", "sha256:d"]), false)
    );
    assert_eq!(page(&s, Some("sig"), None, 1), (v(&["sha256:a"]), true));
    assert_eq!(page(&s, Some("sig"), Some("sha256:a"), 1), (v(&["sha256:c"]), false));
    assert_eq!(page(&s, Some("nope"), None, 9), (v(&[]), false));
    // A referrer with a new type is listed under that type alone.
    s.apply(refer("r", "sha256:s", "sha256:c", r#"{"artifactType":"sbom"}"#));
    assert_eq!(page(&s, Some("sig"), None, 9), (v(&["sha256:a"]), false));
    assert_eq!(page(&s, Some("sbom"), None, 9), (v(&["sha256:b", "sha256:c"]), false));
    // Deleting a manifest takes it from this repository alone.
    s.apply(delete("r", "sha256:a"));
    assert_eq!(page(&s, Some("sig"), None, 9), (v(&[]), false));
    assert!(s.store.has_referrer("other", "sha256:s", "sha256:a"));
    assert!(!s.store.has_referrer("r", "sha256:s", "sha256:a"));
}

#[test]
fn metadata_referrers_page_filters_through_type_index() {
    check_referrers_page_filters_through_type_index();
}

#[test]
fn log_referrers_page_filters_through_type_index() {
    check_referrers_page_filters_through_type_index();
}

fn check_backrefs_apply_query_and_replay() {
    let mut s = Db::new(&plain());
    s.apply(edges("r", "sha256:m", &["sha256:b1", "sha256:b2"]));
    // Recording an edge again does not repeat it.
    s.apply(edges("r", "sha256:m", &["sha256:b1"]));
    assert_eq!(s.store.backrefs("r", "sha256:b1"), vec!["sha256:m".to_string()]);
    assert!(s.store.backrefs("r", "sha256:absent").is_empty());
    let mut s2 = s.reopen(&plain());
    assert_eq!(s2.store.backrefs("r", "sha256:b2"), vec!["sha256:m".to_string()]);
    s2.apply(delete("r", "sha256:m"));
    assert!(s2.store.backrefs("r", "sha256:b1").is_empty());
}

#[test]
fn metadata_backrefs_apply_query_and_replay() {
    check_backrefs_apply_query_and_replay();
}

#[test]
fn log_backrefs_apply_query_and_replay() {
    check_backrefs_apply_query_and_replay();
}

fn check_log_replays_on_reopen() {
    let mut s = Db::new(&plain());
    s.apply(put("r", "sha256:aa", Some("v1")));
    s.apply(refer("r", "sha256:aa", "sha256:rr", r#"{"digest":"sha256:rr"}"#));
    s.apply(put("r", "sha256:bb", Some("v2")));
    s.apply(delete("r", "sha256:bb"));
    let s2 = s.reopen(&plain());
    assert_eq!(s2.tag("r", "v1").as_deref(), Some("sha256:aa"));
    assert_eq!(
        s2.store.referrers_page("r", "sha256:aa", None, None, usize::MAX).unwrap().items.len(),
        1
    );
    assert_eq!(s2.store.resolve_tag("r", "v2"), None);
}

#[test]
fn metadata_log_replays_on_reopen() {
    check_log_replays_on_reopen();
}

#[test]
fn log_log_replays_on_reopen() {
    check_log_replays_on_reopen();
}

fn check_deserialize_rejects_malformed_payloads() {
    assert!(deserialize_op(b"not json").is_none());
    assert!(deserialize_op(b"{\"no_op_field\":1}").is_none());
}

#[test]
fn metadata_deserialize_rejects_malformed_payloads() {
    check_deserialize_rejects_malformed_payloads();
}

#[test]
fn log_deserialize_rejects_malformed_payloads() {
    check_deserialize_rejects_malformed_payloads();
}

fn check_group_commit_coalesces_syncs() {
    let mut s = Db::new(&plain());
    s.apply(put("r", "sha256:aa", Some("v1")));
    let seq1 = s.store.last_seq();
    s.apply(put("r", "sha256:bb", Some("v2")));
    let seq2 = s.store.last_seq();
    assert_eq!((seq1, seq2), (1, 2));
    // One sync makes both records durable.
    let covered = s.store.group_commit_through(seq2);
    assert_eq!(covered, Some(2));
    assert_eq!(s.store.synced_through(2), 2);
    // Nothing is left to sync for the first one.
    assert_eq!(s.store.group_commit_through(seq1), None);
    let mut s2 = s.reopen(&plain());
    assert_eq!(s2.tag("r", "v1").as_deref(), Some("sha256:aa"));
    assert_eq!(s2.tag("r", "v2").as_deref(), Some("sha256:bb"));
    s2.apply(put("r", "sha256:cc", Some("v3")));
    assert_eq!(s2.tag("r", "v3").as_deref(), Some("sha256:cc"));
}

#[test]
fn metadata_group_commit_coalesces_syncs() {
    check_group_commit_coalesces_syncs();
}

#[test]
fn log_group_commit_coalesces_syncs() {
    check_group_commit_coalesces_syncs();
}

#[test]
fn replay_ends_at_a_torn_record_and_at_a_bad_checksum_and_skips_unknown_ones() {
    let mut s = Db::new(&plain());
    s.apply(put("r", "sha256:aa", Some("v1")));
    let good = s.log.clone();

    let mut torn = good.clone();
    torn.extend_from_slice(&(999u32).to_le_bytes());
    torn.extend_from_slice(&(0u32).to_le_bytes());
    torn.extend_from_slice(b"partial");
    let s1 = Db::open(torn, SnapshotFile::Missing, &plain());
    assert_eq!(s1.tag("r", "v1").as_deref(), Some("sha256:aa"));

    let mut bad = good.clone();
    let payload = b"{\"op\":\"delete_manifest\",\"repo\":\"r\",\"digest\":\"sha256:aa\"}";
    bad.extend_from_slice(&(payload.len() as u32).to_le_bytes());
    bad.extend_from_slice(&(0xDEAD_BEEFu32).to_le_bytes());
    bad.extend_from_slice(payload);
    let s2 = Db::open(bad, SnapshotFile::Missing, &plain());
    assert_eq!(s2.tag("r", "v1").as_deref(), Some("sha256:aa"));

    let mut unknown = good.clone();
    let up = b"{\"op\":\"nope\"}";
    unknown.extend_from_slice(&(up.len() as u32).to_le_bytes());
    unknown.extend_from_slice(&crc32c(up).to_le_bytes());
    unknown.extend_from_slice(up);
    unknown.extend_from_slice(&encode(&put("r", "sha256:bb", Some("v2")), None));
    let s3 = Db::open(unknown, SnapshotFile::Missing, &plain());
    assert_eq!(s3.tag("r", "v2").as_deref(), Some("sha256:bb"));
}

#[test]
fn compaction_preserves_all_queries() {
    let setup = compacting();
    let mut s = Db::new(&setup);
    s.apply(put("r", "sha256:aa", Some("v1")));
    s.apply(put("r", "sha256:bb", Some("v2")));
    s.apply(put("r", "sha256:cc", None));
    s.apply(refer(
        "r",
        "sha256:aa",
        "sha256:ref1",
        r#"{"artifactType":"sig","digest":"sha256:ref1"}"#,
    ));
    s.apply(edges("r", "sha256:aa", &["sha256:b1", "sha256:b2"]));
    s.apply(sum("r", "sha256:b1", 0x12345678, 1024));

    let tags_before = s.store.tags_snapshot("r");
    let refs_before = s.store.referrers_snapshot("r");
    let backrefs_before = s.store.backrefs("r", "sha256:b1");
    let ck_before = s.store.checksum("r", "sha256:b1");
    let mt_before = s.store.manifest_media_type("r", "sha256:cc");
    let repos_before = s.store.repos();
    let manifests_before = s.store.manifests("r");

    assert!(s.maintain());

    assert_eq!(s.store.tags_snapshot("r"), tags_before);
    assert_eq!(s.store.referrers_snapshot("r"), refs_before);
    assert_eq!(s.store.backrefs("r", "sha256:b1"), backrefs_before);
    assert_eq!(s.store.checksum("r", "sha256:b1"), ck_before);
    assert_eq!(s.store.manifest_media_type("r", "sha256:cc"), mt_before);
    assert_eq!(s.store.repos(), repos_before);
    assert_eq!(s.store.manifests("r"), manifests_before);

    // Records appended after upkeep count.
    s.apply(put("r", "sha256:dd", Some("v3")));
    assert_eq!(s.tag("r", "v3").as_deref(), Some("sha256:dd"));

    let s2 = s.reopen(&setup);
    let mut expected = tags_before.clone();
    expected.push((
        "v3".into(),
        "sha256:dd".into(),
        "application/vnd.oci.image.manifest.v1+json".into(),
    ));
    expected.sort();
    assert_eq!(s2.store.tags_snapshot("r"), expected);
}

#[test]
fn compaction_survives_reopen() {
    let setup = compacting();
    let mut s = Db::new(&setup);
    s.apply(put("r", "sha256:aa", Some("v1")));
    s.maintain();
    let s2 = s.reopen(&setup);
    assert_eq!(s2.tag("r", "v1").as_deref(), Some("sha256:aa"));
}

#[test]
fn torn_tail_after_an_image_is_ignored() {
    let setup = compacting();
    let mut s = Db::new(&setup);
    s.apply(put("r", "sha256:aa", Some("v1")));
    s.maintain();
    s.apply(put("r", "sha256:bb", Some("v2")));
    s.log.extend_from_slice(&(999u32).to_le_bytes());
    s.log.extend_from_slice(b"garbage");
    let s2 = s.reopen(&setup);
    assert_eq!(s2.tag("r", "v1").as_deref(), Some("sha256:aa"));
    assert_eq!(s2.tag("r", "v2").as_deref(), Some("sha256:bb"));
}

#[test]
fn tampering_ends_an_authenticated_replay() {
    let setup = Setup { key: Some(key()), ..plain() };
    let mut s = Db::new(&setup);
    s.apply(put("r", "sha256:aa", Some("v1")));
    let first = s.log.len();
    s.apply(put("r", "sha256:bb", Some("v2")));
    s.log[first + 20] ^= 0xFF;
    let s2 = s.reopen(&setup);
    assert_eq!(s2.tag("r", "v1").as_deref(), Some("sha256:aa"));
    assert_eq!(s2.store.resolve_tag("r", "v2"), None);
}

#[test]
fn a_log_under_another_key_is_moved_aside() {
    let mut s = Db::new(&Setup { key: Some(key()), ..plain() });
    s.apply(put("r", "sha256:aa", Some("v1")));
    let s2 = s.reopen(&Setup { key: Some(other_key()), ..plain() });
    assert_eq!(s2.store.resolve_tag("r", "v1"), None);
    assert!(s2.moved_aside, "log should be moved aside");
}

#[test]
fn hmac_unauthenticated_with_key_moves_aside() {
    let mut s = Db::new(&plain());
    s.apply(put("r", "sha256:aa", Some("v1")));
    let s2 = s.reopen(&Setup { key: Some(key()), ..plain() });
    assert_eq!(s2.store.resolve_tag("r", "v1"), None);
    assert!(s2.moved_aside);
}

#[test]
fn snapshot_reopen_identical_queries() {
    let setup = snapshotting();
    let mut s = Db::new(&setup);
    s.apply(put("r", "sha256:aa", Some("v1")));
    s.apply(put("r", "sha256:bb", Some("v2")));
    s.apply(sum("r", "sha256:b1", 0xABCD, 512));
    s.apply(refer(
        "r",
        "sha256:aa",
        "sha256:ref1",
        r#"{"artifactType":"sig","digest":"sha256:ref1"}"#,
    ));
    s.apply(edges("r", "sha256:aa", &["sha256:b1"]));

    let tags_before = s.store.tags_snapshot("r");
    let refs_before = s.store.referrers_page("r", "sha256:aa", None, None, usize::MAX);
    let ck_before = s.store.checksum("r", "sha256:b1");
    let br_before = s.store.backrefs("r", "sha256:b1");

    s.maintain();
    let s2 = s.reopen(&setup);
    assert_eq!(s2.store.tags_snapshot("r"), tags_before);
    assert_eq!(
        s2.store.referrers_page("r", "sha256:aa", None, None, usize::MAX),
        refs_before
    );
    assert_eq!(s2.store.checksum("r", "sha256:b1"), ck_before);
    assert_eq!(s2.store.backrefs("r", "sha256:b1"), br_before);
}

#[test]
fn snapshot_delta_and_deletes() {
    let setup = snapshotting();
    let mut s = Db::new(&setup);
    s.apply(put("r", "sha256:aa", Some("v1")));
    s.apply(put("r", "sha256:bb", Some("v2")));
    s.maintain();

    s.apply(put("r", "sha256:cc", Some("v3")));
    s.apply(delete("r", "sha256:aa"));

    assert_eq!(s.store.resolve_tag("r", "v1"), None);
    assert_eq!(s.tag("r", "v3").as_deref(), Some("sha256:cc"));
    assert_eq!(s.store.manifest_media_type("r", "sha256:aa"), None);

    // The same digest again, under another tag.
    s.apply(put("r", "sha256:aa", Some("v1-new")));
    assert_eq!(s.tag("r", "v1-new").as_deref(), Some("sha256:aa"));

    s.maintain();
    let s2 = s.reopen(&setup);
    assert_eq!(s2.store.resolve_tag("r", "v1"), None);
    assert_eq!(s2.tag("r", "v1-new").as_deref(), Some("sha256:aa"));
    assert_eq!(s2.tag("r", "v3").as_deref(), Some("sha256:cc"));
}

#[test]
fn snapshot_page_merge_across_boundaries() {
    let mut s = Db::new(&snapshotting());
    s.apply(put("r", "sha256:aa", Some("v1")));
    s.apply(put("r", "sha256:cc", Some("v3")));
    s.maintain();
    s.apply(put("r", "sha256:bb", Some("v2")));
    s.apply(put("r", "sha256:dd", Some("v4")));
    let page = |last, limit| {
        let p = s.store.tags_page("r", last, limit).unwrap();
        (p.items, p.more)
    };
    let v = |ts: &[&str]| ts.iter().map(|t| t.to_string()).collect::<Vec<_>>();
    assert_eq!(page(None, 2), (v(&["v1", "v2"]), true));
    assert_eq!(page(Some("v2"), 2), (v(&["v3", "v4"]), false));
    assert_eq!(page(None, 4), (v(&["v1", "v2", "v3", "v4"]), false));
}

#[test]
fn an_invalid_snapshot_is_removed_and_the_log_replayed() {
    let setup = snapshotting();
    let mut s = Db::new(&setup);
    s.apply(put("r", "sha256:aa", Some("v1")));
    s.maintain();
    s.snapshot = SnapshotFile::Invalid;
    let s2 = s.reopen(&setup);
    assert!(s2.removed_snapshot);
    assert_eq!(s2.tag("r", "v1").as_deref(), Some("sha256:aa"));
}

#[test]
fn a_log_of_an_older_generation_is_covered_by_the_snapshot() {
    let setup = snapshotting();
    let mut s = Db::new(&setup);
    s.apply(put("r", "sha256:aa", Some("v1")));
    s.maintain();
    s.apply(put("r", "sha256:bb", Some("v2")));
    let stale = s.log.clone();
    assert!(s.maintain());
    assert_eq!(s.store.generation(), 2);
    // After the snapshot of the next generation, the stale log adds nothing.
    s.apply(delete("r", "sha256:aa"));
    s.maintain();
    s.log = stale;
    let s3 = s.reopen(&setup);
    assert_eq!(s3.store.resolve_tag("r", "v1"), None);
    assert_eq!(s3.tag("r", "v2").as_deref(), Some("sha256:bb"));
}

#[test]
fn upkeep_follows_growth_past_the_last_image() {
    let mut s = Db::new(&Setup { threshold: 1 << 20, snapshot: true, key: None });
    s.apply(put("r", "sha256:aa", Some("v1")));
    assert!(!s.maintain());
    let mut s = s.reopen(&snapshotting());
    assert!(s.maintain());
    // Nothing was appended since.
    assert!(!s.maintain());
    let s = s.reopen(&snapshotting());
    assert_eq!(s.tag("r", "v1").as_deref(), Some("sha256:aa"));
}

#[test]
fn a_rejected_snapshot_falls_back_to_the_image_and_its_tail() {
    let setup = snapshotting();
    let mut s = Db::new(&setup);
    for i in 0..20 {
        s.apply(put("r", &format!("sha256:{i:02}"), Some(&format!("t{i:02}"))));
    }
    s.maintain();
    s.apply(put("r", "sha256:ff", Some("tail")));
    let log = s.log.clone();
    let s = s.reopen(&setup);
    assert_eq!(s.store.tags_page("r", None, 100).unwrap().items.len(), 21);
    let s = Db::open(log, SnapshotFile::Invalid, &setup);
    assert_eq!(s.store.tags_page("r", None, 100).unwrap().items.len(), 21);
}

#[test]
fn subject_referrers_remove_cleans_type_index() {
    let mut sr = SubjectReferrers::new();
    sr.insert("sha256:r1", br#"{"artifactType":"sig"}"#);
    sr.insert("sha256:r2", br#"{"artifactType":"sig"}"#);
    let typed = |sr: &SubjectReferrers| sr.page(Some("sig"), None, usize::MAX).items.len();
    assert_eq!(typed(&sr), 2);
    sr.remove("sha256:r1");
    assert_eq!(typed(&sr), 1);
    sr.remove("sha256:r2");
    assert_eq!(typed(&sr), 0);
    assert!(sr.is_empty());
    // Removing what is not there does nothing.
    sr.remove("sha256:r99");
    assert_eq!(sr.len(), 0);
}

fn legacy_record(payload: &[u8], crc: u32) -> Vec<u8> {
    let mut bytes = Vec::new();
    bytes.extend_from_slice(&(payload.len() as u32).to_le_bytes());
    bytes.extend_from_slice(&crc.to_le_bytes());
    bytes.extend_from_slice(payload);
    bytes
}

#[test]
fn a_log_without_header_is_replayed() {
    let first = serialize_op(&put("r", "sha256:aa", Some("v1")));
    let mut bytes = legacy_record(&first, crc32c(&first));
    let second = serialize_op(&sum("r", "sha256:b1", 0x1111, 256));
    bytes.extend(legacy_record(&second, crc32c(&second)));
    let s = Db::open(bytes, SnapshotFile::Missing, &plain());
    assert_eq!(s.tag("r", "v1").as_deref(), Some("sha256:aa"));
    assert_eq!(
        s.store.checksum("r", "sha256:b1"),
        Some(BlobChecksum { crc32c: 0x1111, size: 256 })
    );
}

#[test]
fn a_log_without_header_ends_at_a_torn_record_and_at_a_bad_checksum() {
    let first = serialize_op(&put("r", "sha256:aa", Some("v1")));
    let good = legacy_record(&first, crc32c(&first));
    let mut torn = good.clone();
    torn.extend_from_slice(&(9999u32).to_le_bytes());
    torn.extend_from_slice(&(0u32).to_le_bytes());
    torn.extend_from_slice(b"short");
    let s = Db::open(torn, SnapshotFile::Missing, &plain());
    assert_eq!(s.tag("r", "v1").as_deref(), Some("sha256:aa"));

    let mut bad = good;
    let second = serialize_op(&put("r", "sha256:bb", Some("v2")));
    bad.extend(legacy_record(&second, 0xDEAD_BEEF));
    let s = Db::open(bad, SnapshotFile::Missing, &plain());
    assert_eq!(s.tag("r", "v1").as_deref(), Some("sha256:aa"));
    assert_eq!(s.store.resolve_tag("r", "v2"), None);
}

#[test]
fn check_framing_short_bytes() {
    assert!(matches!(
        check_log_framing(b"short", FramingMode::Plain, None),
        LogFramingCheck::NoHeader
    ));
}

#[test]
fn check_framing_truncated_payload() {
    let mut buf = Vec::new();
    buf.extend_from_slice(&(999u32).to_le_bytes());
    buf.extend_from_slice(&(0u32).to_le_bytes());
    buf.extend_from_slice(b"x");
    assert!(matches!(
        check_log_framing(&buf, FramingMode::Plain, None),
        LogFramingCheck::NoHeader
    ));
}

#[test]
fn check_framing_bad_crc() {
    let payload = encode_header(FramingMode::Plain);
    let buf = legacy_record(&payload, 0xBAAD_F00D);
    assert!(matches!(
        check_log_framing(&buf, FramingMode::Plain, None),
        LogFramingCheck::NoHeader
    ));
}

#[test]
fn check_framing_hmac_truncated_tag() {
    let key = HmacKey::new(key()).unwrap();
    let payload = encode_header(FramingMode::HmacSha256);
    let buf = legacy_record(&payload, crc32c(&payload));
    assert!(matches!(
        check_log_framing(&buf, FramingMode::HmacSha256, Some(&key)),
        LogFramingCheck::Incompatible
    ));
}

#[test]
fn check_framing_hmac_wrong_tag() {
    let key = HmacKey::new(key()).unwrap();
    let payload = encode_header(FramingMode::HmacSha256);
    let mut buf = legacy_record(&payload, crc32c(&payload));
    buf.extend_from_slice(&[0xFFu8; 32]);
    assert!(matches!(
        check_log_framing(&buf, FramingMode::HmacSha256, Some(&key)),
        LogFramingCheck::Incompatible
    ));
}

#[test]
fn check_framing_mode_mismatch() {
    let payload = encode_header(FramingMode::Plain);
    let buf = legacy_record(&payload, crc32c(&payload));
    assert!(matches!(
        check_log_framing(&buf, FramingMode::HmacSha256, None),
        LogFramingCheck::Incompatible
    ));
    assert!(matches!(
        check_log_framing(&buf, FramingMode::Plain, None),
        LogFramingCheck::Compatible
    ));
}

#[test]
fn check_framing_non_header_payload() {
    let payload = b"not_a_header_record";
    let buf = legacy_record(payload, crc32c(payload));
    assert!(matches!(
        check_log_framing(&buf, FramingMode::Plain, None),
        LogFramingCheck::NoHeader
    ));
}

#[test]
fn deserialize_delete_blob() {
    let op = MetaOp::DeleteBlob { repo: "r".into(), digest: "sha256:xx".into() };
    let bytes = serialize_op(&op);
    let round = deserialize_op(&bytes).expect("should parse DeleteBlob");
    assert_eq!(round, op);
}

#[test]
fn every_kind_of_mutation_is_read_back() {
    let full = MetaOp::PutManifest {
        repo: "r".into(),
        digest: "sha256:m".into(),
        media_type: "mt".into(),
        tag: Some("v1".into()),
        references: vec!["sha256:b1".into(), "sha256:b2".into()],
        referrer: Some(("sha256:s".into(), br#"{"digest":"sha256:m"}"#.to_vec())),
    };
    for op in [
        full,
        put("r", "sha256:m", None),
        edges("r", "sha256:m", &["sha256:b"]),
        delete("r", "sha256:m"),
        refer("r", "sha256:s", "sha256:x", r#"{"a":[1,"é\n"]}"#),
        sum("r", "sha256:b", u32::MAX, u64::MAX),
    ] {
        assert_eq!(deserialize_op(&serialize_op(&op)), Some(op));
    }
}

#[test]
fn generation_markers_are_told_from_other_records() {
    assert_eq!(generation_marker(b"{\"op\":\"gen\",\"gen\":7}"), Some(7));
    assert_eq!(generation_marker(b"{\"op\":\"gen\"}"), None);
    assert_eq!(generation_marker(b"{\"op\":\"delete_blob\",\"gen\":7}"), None);
    assert_eq!(
        generation_marker(&serialize_op(&delete("r", "sha256:m"))),
        None
    );
}

#[test]
fn incompatible_framing_discards_snapshot() {
    let mut s = Db::new(&Setup { key: Some(key()), ..snapshotting() });
    s.apply(put("r", "sha256:aa", Some("v1")));
    s.maintain();
    assert!(matches!(s.snapshot, SnapshotFile::Valid(_)), "roci-meta.snapshot");
    // Without the key the log does not fit, and the snapshot goes with it.
    let s2 = s.reopen(&snapshotting());
    assert_eq!(s2.store.resolve_tag("r", "v1"), None);
    assert!(s2.moved_aside && s2.removed_snapshot);
}

#[test]
fn snapshot_base_delta_tags_and_media_types() {
    let mut s = Db::new(&snapshotting());
    s.apply(put("r", "sha256:aa", Some("v1")));
    s.apply(put("r", "sha256:bb", Some("v2")));
    s.apply(put("r2", "sha256:cc", Some("latest")));
    s.maintain();

    s.apply(put("r", "sha256:dd", Some("v3")));
    s.apply(delete("r", "sha256:aa"));

    assert_eq!(s.store.resolve_tag("r", "v1"), None);
    assert_eq!(s.tag("r", "v2").as_deref(), Some("sha256:bb"));
    assert_eq!(s.tag("r", "v3").as_deref(), Some("sha256:dd"));
    assert_eq!(s.store.resolve_tag("r", "v_missing"), None);

    assert_eq!(s.store.manifest_media_type("r", "sha256:aa"), None);
    assert!(s.store.manifest_media_type("r", "sha256:bb").is_some());
    assert!(s.store.manifest_media_type("r", "sha256:dd").is_some());
    assert_eq!(s.store.manifest_media_type("r", "sha256:zz"), None);

    let page = s.store.tags_page("r", None, usize::MAX).unwrap();
    assert_eq!(page.items, vec!["v2".to_string(), "v3".to_string()]);
    let p1 = s.store.tags_page("r", None, 1).unwrap();
    assert_eq!(p1.items, vec!["v2".to_string()]);
    assert!(p1.more);
    let p2 = s.store.tags_page("r", Some("v2"), 1).unwrap();
    assert_eq!(p2.items, vec!["v3".to_string()]);
    assert!(!p2.more);

    s.apply(delete("r2", "sha256:cc"));
    assert!(s.store.tags_page("r2", None, usize::MAX).is_none());
    assert!(s.store.tags_page("no_repo", None, usize::MAX).is_none());

    let snap = s.store.tags_snapshot("r");
    assert_eq!(snap.len(), 2);
    assert!(snap.iter().any(|(t, _, _)| t == "v2"));
    assert!(snap.iter().any(|(t, _, _)| t == "v3"));

    let repos = s.store.repos();
    assert!(repos.contains(&"r".to_string()));
    assert!(!repos.contains(&"r2".to_string()));

    let mf = s.store.manifests("r");
    assert!(!mf.contains(&"sha256:aa".to_string()), "aa is tombstoned");
    assert!(mf.contains(&"sha256:bb".to_string()), "bb from base");
    assert!(mf.contains(&"sha256:dd".to_string()), "dd from delta");
}

#[test]
fn snapshot_base_delta_referrers() {
    let mut s = Db::new(&snapshotting());
    s.apply(refer(
        "r",
        "sha256:s",
        "sha256:r1",
        r#"{"artifactType":"sig","digest":"sha256:r1"}"#,
    ));
    s.apply(refer(
        "r",
        "sha256:s",
        "sha256:r2",
        r#"{"artifactType":"sbom","digest":"sha256:r2"}"#,
    ));
    s.apply(refer("r", "sha256:s2", "sha256:r3", r#"{"digest":"sha256:r3"}"#));
    s.maintain();

    s.apply(delete("r", "sha256:r1"));
    s.apply(refer(
        "r",
        "sha256:s",
        "sha256:r4",
        r#"{"artifactType":"sig","digest":"sha256:r4"}"#,
    ));

    let page = s.store.referrers_page("r", "sha256:s", None, None, usize::MAX).unwrap();
    let digests: Vec<_> = page.items.iter().map(|(d, _)| d.as_str()).collect();
    assert!(!digests.contains(&"sha256:r1"), "r1 is tombstoned");
    assert!(digests.contains(&"sha256:r2"), "r2 from base");
    assert!(digests.contains(&"sha256:r4"), "r4 from delta");

    s.apply(delete("r", "sha256:r3"));
    assert!(s.store.referrers_page("r", "sha256:s2", None, None, usize::MAX).is_none());
    assert!(s.store.referrers_page("r", "sha256:none", None, None, usize::MAX).is_none());

    assert!(!s.store.has_referrer("r", "sha256:s", "sha256:r1"), "tombstoned");
    assert!(s.store.has_referrer("r", "sha256:s", "sha256:r2"), "from base");
    assert!(s.store.has_referrer("r", "sha256:s", "sha256:r4"), "from delta");

    let rs = s.store.referrers_snapshot("r");
    let s_entry = rs.iter().find(|(sub, _)| sub == "sha256:s");
    assert!(s_entry.is_some());
    let (_, refs) = s_entry.unwrap();
    assert_eq!(refs.len(), 2);
}

#[test]
fn snapshot_base_delta_backrefs() {
    let mut s = Db::new(&snapshotting());
    s.apply(edges("r", "sha256:m1", &["sha256:b1", "sha256:b2"]));
    s.apply(edges("r", "sha256:m2", &["sha256:b1"]));
    s.maintain();

    s.apply(delete("r", "sha256:m1"));
    s.apply(edges("r", "sha256:m3", &["sha256:b1", "sha256:b3"]));

    let br = s.store.backrefs("r", "sha256:b1");
    assert!(!br.contains(&"sha256:m1".to_string()), "m1 is tombstoned");
    assert!(br.contains(&"sha256:m2".to_string()), "m2 from base");
    assert!(br.contains(&"sha256:m3".to_string()), "m3 from delta");

    assert!(s.store.backrefs("r", "sha256:b2").is_empty());
    assert_eq!(s.store.backrefs("r", "sha256:b3"), vec!["sha256:m3".to_string()]);
}

#[test]
fn snapshot_base_delta_checksums() {
    let mut s = Db::new(&snapshotting());
    s.apply(sum("r", "sha256:c1", 0x1111, 100));
    s.apply(sum("r", "sha256:c2", 0x2222, 200));
    s.maintain();

    s.apply(MetaOp::DeleteBlob { repo: "r".into(), digest: "sha256:c1".into() });
    s.apply(sum("r", "sha256:c3", 0x3333, 300));

    assert_eq!(s.store.checksum("r", "sha256:c1"), None);
    assert_eq!(
        s.store.checksum("r", "sha256:c2"),
        Some(BlobChecksum { crc32c: 0x2222, size: 200 })
    );
    assert_eq!(
        s.store.checksum("r", "sha256:c3"),
        Some(BlobChecksum { crc32c: 0x3333, size: 300 })
    );
    assert_eq!(s.store.checksum("r", "sha256:c99"), None);
}

#[test]
fn snapshot_materialize_full_round_trip() {
    let setup = snapshotting();
    let mut s = Db::new(&setup);
    s.apply(put("r", "sha256:aa", Some("v1")));
    s.apply(put("r", "sha256:bb", Some("v2")));
    s.apply(refer(
        "r",
        "sha256:aa",
        "sha256:ref1",
        r#"{"artifactType":"sig","digest":"sha256:ref1"}"#,
    ));
    s.apply(edges("r", "sha256:aa", &["sha256:b1"]));
    s.apply(sum("r", "sha256:b1", 0xABCD, 512));
    s.maintain();

    s.apply(delete("r", "sha256:aa"));
    s.apply(delete("r", "sha256:ref1"));
    s.apply(put("r", "sha256:cc", Some("v3")));
    s.apply(refer("r", "sha256:cc", "sha256:ref2", r#"{"digest":"sha256:ref2"}"#));
    s.apply(edges("r", "sha256:cc", &["sha256:b1"]));
    s.apply(sum("r", "sha256:b2", 0x1234, 64));
    s.maintain();

    assert_eq!(s.store.resolve_tag("r", "v1"), None);
    assert_eq!(s.tag("r", "v2").as_deref(), Some("sha256:bb"));
    assert_eq!(s.tag("r", "v3").as_deref(), Some("sha256:cc"));
    assert!(!s.store.has_referrer("r", "sha256:aa", "sha256:ref1"));
    assert!(s.store.has_referrer("r", "sha256:cc", "sha256:ref2"));
    assert_eq!(s.store.backrefs("r", "sha256:b1"), vec!["sha256:cc".to_string()]);
    let s2 = s.reopen(&setup);
    assert_eq!(s2.store.resolve_tag("r", "v1"), None);
    assert_eq!(s2.tag("r", "v3").as_deref(), Some("sha256:cc"));
    assert_eq!(
        s2.store.checksum("r", "sha256:b2"),
        Some(BlobChecksum { crc32c: 0x1234, size: 64 })
    );
}

#[test]
fn snapshot_repos_from_base_with_referrers() {
    let mut s = Db::new(&snapshotting());
    s.apply(refer("ref-only", "sha256:s", "sha256:r1", r#"{"digest":"sha256:r1"}"#));
    s.maintain();
    let repos = s.store.repos();
    assert!(
        repos.contains(&"ref-only".to_string()),
        "repos should include ref-only from base referrers"
    );
    s.apply(delete("ref-only", "sha256:r1"));
    let repos2 = s.store.repos();
    assert!(
        !repos2.contains(&"ref-only".to_string()),
        "tombstoned referrer should hide the repo"
    );
}

#[test]
fn delete_blob_roundtrip() {
    let mut s = Db::new(&plain());
    s.apply(sum("r", "sha256:b1", 0xAAAA, 128));
    assert!(s.store.checksum("r", "sha256:b1").is_some());
    s.apply(MetaOp::DeleteBlob { repo: "r".into(), digest: "sha256:b1".into() });
    assert!(s.store.checksum("r", "sha256:b1").is_none());
    let s2 = s.reopen(&plain());
    assert!(s2.store.checksum("r", "sha256:b1").is_none());
}

#[test]
fn apply_relaxed_does_not_sync() {
    let mut s = Db::new(&plain());
    s.apply(sum("r", "sha256:b1", 0xBBBB, 99));
    assert_eq!(
        s.store.checksum("r", "sha256:b1"),
        Some(BlobChecksum { crc32c: 0xBBBB, size: 99 })
    );
    // The record is not durable until someone syncs.
    assert_eq!(s.store.group_commit_through(1), Some(1));
}

#[test]
fn a_record_is_framed_by_length_and_checksum() {
    let op = delete("r", "sha256:m");
    let payload = serialize_op(&op);
    let record = encode(&op, None);
    assert_eq!(record, legacy_record(&payload, crc32c(&payload)));
    // With a key, the tag stands behind the payload.
    let key = HmacKey::new(key()).unwrap();
    let tagged = encode(&op, Some(&key));
    assert_eq!(tagged.len(), record.len() + 32);
    assert_eq!(&tagged[..record.len()], &record[..]);
    assert!(key.verify(&payload, &tagged[record.len()..]));
}

fn put_as(repo: &str, digest: &str, media_type: &str, tag: Option<&str>) -> MetaOp {
    MetaOp::PutManifest {
        repo: repo.into(),
        digest: digest.into(),
        media_type: media_type.into(),
        tag: tag.map(str::to_string),
        references: Vec::new(),
        referrer: None,
    }
}

#[test]
fn a_moved_tag_goes_with_its_manifest_over_a_snapshot() {
    for setup in [plain(), snapshotting()] {
        let mut s = Db::new(&setup);
        s.apply(put_as("r", "sha256:aa", "mt", Some("v1")));
        s.maintain();
        s.apply(put_as("r", "sha256:bb", "mt", Some("v1")));
        assert_eq!(s.tag("r", "v1").as_deref(), Some("sha256:bb"));
        s.apply(delete("r", "sha256:bb"));
        assert_eq!(s.store.resolve_tag("r", "v1"), None);
        assert!(s.store.tags_page("r", None, 10).is_none());
        assert!(s.store.tags_snapshot("r").is_empty());
        assert!(s.store.manifest_media_type("r", "sha256:aa").is_some());
        // So it stays after a restart, and after the next upkeep.
        let mut s = s.reopen(&setup);
        assert_eq!(s.store.resolve_tag("r", "v1"), None);
        s.maintain();
        let mut s = s.reopen(&setup);
        assert_eq!(s.store.resolve_tag("r", "v1"), None);
        // The tag can be taken again.
        s.apply(put_as("r", "sha256:cc", "mt", Some("v1")));
        assert_eq!(s.tag("r", "v1").as_deref(), Some("sha256:cc"));
    }
}

#[test]
fn an_image_keeps_the_media_type_of_a_manifest_under_several_tags() {
    let mut s = Db::new(&compacting());
    s.apply(put_as("r", "sha256:aa", "two", Some("v2")));
    s.apply(put_as("r", "sha256:aa", "one", Some("v1")));
    let both = |s: &Db| {
        assert_eq!(s.store.manifest_media_type("r", "sha256:aa").as_deref(), Some("one"));
        let of = |t| s.store.resolve_tag("r", t);
        assert_eq!(of("v1"), Some(("sha256:aa".into(), "one".into())));
        assert_eq!(of("v2"), Some(("sha256:aa".into(), "two".into())));
    };
    both(&s);
    assert!(s.maintain());
    both(&s);
    let s = s.reopen(&compacting());
    both(&s);
}

#[test]
fn a_torn_tail_is_cut_and_later_records_survive() {
    for setup in [plain(), Setup { key: Some(key()), ..plain() }, snapshotting()] {
        let mut s = Db::new(&setup);
        s.apply(put("r", "sha256:aa", Some("v1")));
        s.maintain();
        let whole = s.log.len();
        s.log.extend_from_slice(&(999u32).to_le_bytes());
        s.log.extend_from_slice(&(0u32).to_le_bytes());
        s.log.extend_from_slice(b"partial");
        let mut s = s.reopen(&setup);
        assert_eq!(s.log.len(), whole);
        s.apply(put("r", "sha256:bb", Some("v2")));
        s.snapshot = SnapshotFile::Missing;
        let s = s.reopen(&setup);
        assert_eq!(s.tag("r", "v1").as_deref(), Some("sha256:aa"));
        assert_eq!(s.tag("r", "v2").as_deref(), Some("sha256:bb"));
    }
    // Where nothing is intact, the log starts anew.
    let mut s = Db::open(b"partial".to_vec(), SnapshotFile::Missing, &plain());
    assert!(s.log.is_empty());
    s.apply(put("r", "sha256:bb", Some("v2")));
    let s = s.reopen(&plain());
    assert_eq!(s.tag("r", "v2").as_deref(), Some("sha256:bb"));
    // A log without a header is cut too, and one that is whole is left alone.
    let mut bytes = encode(&put("r", "sha256:aa", Some("v1")), None);
    let (_, actions) = LogMetadataStore::open(Some(&bytes));
    assert_eq!(actions.cut_log, None);
    bytes.extend_from_slice(b"torn");
    let mut s = Db::open(bytes, SnapshotFile::Missing, &plain());
    s.apply(put("r", "sha256:bb", Some("v2")));
    let s = s.reopen(&plain());
    assert_eq!(s.tag("r", "v1").as_deref(), Some("sha256:aa"));
    assert_eq!(s.tag("r", "v2").as_deref(), Some("sha256:bb"));
}

#[test]
fn a_snapshot_keeps_the_artifact_type_of_each_referrer() {
    let mut s = Db::new(&snapshotting());
    s.apply(refer("r", "sha256:s", "sha256:r1", "{\"artifactType\":\"sbom\"}"));
    s.apply(refer("r", "sha256:s", "sha256:r2", "{}"));
    let full = s.store.do_maintain(s.log.len() as u64).unwrap().full;
    let rows: Vec<(String, String)> = (0..full.referrers.len())
        .map(|i| (full.referrers.key_at(i).2.clone(), full.referrers.value_at(i).0.clone()))
        .collect();
    assert_eq!(
        rows,
        vec![
            ("sha256:r1".to_string(), "sbom".to_string()),
            ("sha256:r2".to_string(), String::new())
        ]
    );
}

#[test]
fn a_record_with_any_bit_flipped_is_not_read() {
    let good = encode(&put("r", "sha256:aa", Some("v1")), None);
    for i in 4..good.len() {
        for bit in 0..8 {
            let mut bad = good.clone();
            bad[i] ^= 1 << bit;
            let s = Db::open(bad, SnapshotFile::Missing, &plain());
            assert_eq!(s.tag("r", "v1"), None);
            assert!(s.log.is_empty());
        }
    }
}
