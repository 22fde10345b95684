//! The table engine: what each mutation writes, and what the tables then answer.

use roci_storage::block::next_prefix;
use roci_storage::metadata::engine::Engine;
use roci_storage::metadata::log_store::LogMetadataStore;
use roci_storage::metadata::redb::{apply_op, decode_checksum, encode_checksum};
use roci_storage::metadata::redb_model::TableWrite;
use roci_storage::metadata::redb_store::RedbMetadataStore;
use roci_storage::metadata::snapshot::SnapshotState;
use roci_storage::metadata::store::MetadataStore;
use roci_storage::metadata::{BlobChecksum, MetaOp};

const MANIFEST: &str = "application/vnd.oci.image.manifest.v1+json";

fn put(repo: &str, digest: &str, tag: Option<&str>) -> MetaOp {
    MetaOp::PutManifest {
        repo: repo.into(),
        digest: digest.into(),
        media_type: MANIFEST.into(),
        tag: tag.map(str::to_string),
        references: vec![],
        referrer: None,
    }
}

fn delete(repo: &str, digest: &str) -> MetaOp {
    MetaOp::DeleteManifest { repo: repo.into(), digest: digest.into() }
}

fn refer(repo: &str, subject: &str, referrer: &str, descriptor: &str) -> MetaOp {
    MetaOp::PutReferrer {
        repo: repo.into(),
        subject: subject.into(),
        referrer: referrer.into(),
        descriptor: descriptor.as_bytes().to_vec(),
    }
}

/// An open store, with what every transaction wrote.
struct Db {
    store: RedbMetadataStore,
    written: Vec<Vec<TableWrite>>,
}

impl Db {
    fn open() -> Db {
        Db { store: RedbMetadataStore::open(), written: Vec::new() }
    }

    fn apply(&mut self, op: MetaOp) {
        let reads = self.store.reads_for(&op);
        let writes = apply_op(&op, &reads);
        self.store.commit(&writes);
        self.written.push(writes);
    }

    fn reopen(self) -> Db {
        let mut db = Db::open();
        for writes in &self.written {
            db.store.commit(writes);
        }
        db.written = self.written;
        db
    }
}

#[test]
fn open_and_basic_ops() {
    let store = RedbMetadataStore::open();
    assert!(store.resolve_tag("repo", "latest").is_none());
    assert!(store.manifest_media_type("repo", "sha256:aaa").is_none());
    assert_eq!(store.repos(), Vec::<String>::new());
}

#[test]
fn persistence_across_reopen() {
    let mut db = Db::open();
    db.apply(MetaOp::PutManifest {
        repo: "r".into(),
        digest: "sha256:aaa".into(),
        media_type: "application/vnd.oci.image.manifest.v1+json".into(),
        tag: Some("v1".into()),
        references: vec!["sha256:bbb".into()],
        referrer: None,
    });
    let db = db.reopen();
    let (d, mt) = db.store.resolve_tag("r", "v1").unwrap();
    assert_eq!(d, "sha256:aaa");
    assert_eq!(mt, "application/vnd.oci.image.manifest.v1+json");
    assert_eq!(db.store.backrefs("r", "sha256:bbb"), vec!["sha256:aaa".to_string()]);
}

#[test]
fn checksum_encode_decode() {
    let buf = encode_checksum(0xDEAD_BEEF, 42);
    let bc = decode_checksum(&buf);
    assert_eq!(bc.crc32c, 0xDEAD_BEEF);
    assert_eq!(bc.size, 42);
}

#[test]
fn checksum_rows_are_little_endian() {
    assert_eq!(
        encode_checksum(0x0403_0201, 0x0C0B_0A09_0807_0605),
        vec![1, 2, 3, 4, 5, 6, 7, 8, 9, 10, 11, 12]
    );
}

#[test]
fn next_prefix_works() {
    let n = next_prefix("abc");
    assert!(n.as_str() > "abc");
    assert!(n.as_str() < "abd");
}

#[test]
fn delete_manifest_cascades_tags_referrers_backrefs() {
    let mut db = Db::open();
    db.apply(MetaOp::PutManifest {
        repo: "r".into(),
        digest: "sha256:aaa".into(),
        media_type: "application/vnd.oci.image.manifest.v1+json".into(),
        tag: Some("v1".into()),
        references: vec!["sha256:blob1".into(), "sha256:blob2".into()],
        referrer: Some((
            "sha256:subject".into(),
            br#"{"artifactType":"sig","digest":"sha256:aaa"}"#.to_vec(),
        )),
    });
    db.apply(put("r", "sha256:aaa", Some("v1-alias")));

    assert!(db.store.resolve_tag("r", "v1").is_some());
    assert!(db.store.resolve_tag("r", "v1-alias").is_some());
    assert!(db.store.has_referrer("r", "sha256:subject", "sha256:aaa"));
    assert!(!db.store.backrefs("r", "sha256:blob1").is_empty());
    assert!(!db.store.backrefs("r", "sha256:blob2").is_empty());

    db.apply(delete("r", "sha256:aaa"));

    assert!(db.store.resolve_tag("r", "v1").is_none());
    assert!(db.store.resolve_tag("r", "v1-alias").is_none());
    assert!(!db.store.has_referrer("r", "sha256:subject", "sha256:aaa"));
    assert!(db.store.backrefs("r", "sha256:blob1").is_empty());
    assert!(db.store.backrefs("r", "sha256:blob2").is_empty());
    assert!(db.store.manifest_media_type("r", "sha256:aaa").is_none());
    assert!(db.store.checksum("r", "sha256:aaa").is_none());
}

#[test]
fn tags_page_pagination() {
    let mut db = Db::open();
    for t in ["v1", "v2", "v3", "v4"] {
        db.apply(MetaOp::PutManifest {
            repo: "r".into(),
            digest: format!("sha256:{t}"),
            media_type: "application/vnd.oci.image.manifest.v1+json".into(),
            tag: Some(t.into()),
            references: vec![],
            referrer: None,
        });
    }
    db.apply(put("zzz", "sha256:other", Some("latest")));

    let page = db.store.tags_page("r", None, 2).unwrap();
    assert_eq!(page.items, vec!["v1".to_string(), "v2".to_string()]);
    assert!(page.more);

    let page2 = db.store.tags_page("r", Some("v2"), 10).unwrap();
    assert_eq!(page2.items, vec!["v3".to_string(), "v4".to_string()]);
    assert!(!page2.more);

    assert!(db.store.tags_page("nope", None, 10).is_none());
}

#[test]
fn referrers_page_unfiltered_and_filtered() {
    let mut db = Db::open();
    let mut add_ref = |referrer: &str, at: Option<&str>| {
        let desc = if let Some(at) = at {
            format!(r#"{{"artifactType":"{at}","digest":"{referrer}"}}"#)
        } else {
            format!(r#"{{"digest":"{referrer}"}}"#)
        };
        db.apply(refer("r", "sha256:s", referrer, &desc));
    };
    add_ref("sha256:r1", Some("sig"));
    add_ref("sha256:r2", Some("sig"));
    add_ref("sha256:r3", Some("sbom"));
    add_ref("sha256:r4", None);
    let store = &db.store;

    let page = store.referrers_page("r", "sha256:s", None, None, usize::MAX).unwrap();
    assert_eq!(page.items.len(), 4);

    let page_lim = store.referrers_page("r", "sha256:s", None, None, 2).unwrap();
    assert_eq!(page_lim.items.len(), 2);
    assert!(page_lim.more);

    let page_sig = store.referrers_page("r", "sha256:s", Some("sig"), None, usize::MAX).unwrap();
    assert_eq!(page_sig.items.len(), 2);

    let page_sig_lim = store.referrers_page("r", "sha256:s", Some("sig"), None, 1).unwrap();
    assert_eq!(page_sig_lim.items.len(), 1);
    assert!(page_sig_lim.more);

    // An unknown type is an empty page, not nothing.
    let page_empty = store.referrers_page("r", "sha256:s", Some("nonexistent"), None, 10).unwrap();
    assert!(page_empty.items.is_empty());
    assert!(!page_empty.more);

    assert!(store.referrers_page("r", "sha256:none", None, None, 10).is_none());
    assert!(store.referrers_page("r", "sha256:none", Some("sig"), None, 10).is_none());
}

#[test]
fn has_referrer_and_backrefs_and_checksum() {
    let mut db = Db::open();
    assert!(!db.store.has_referrer("r", "sha256:s", "sha256:r1"));
    assert!(db.store.backrefs("r", "sha256:b1").is_empty());
    assert!(db.store.checksum("r", "sha256:d1").is_none());

    db.apply(refer("r", "sha256:s", "sha256:r1", r#"{"digest":"sha256:r1"}"#));
    db.apply(MetaOp::PutBackrefs {
        repo: "r".into(),
        manifest: "sha256:m1".into(),
        blobs: vec!["sha256:b1".into()],
    });
    db.apply(MetaOp::PutChecksum {
        repo: "r".into(),
        digest: "sha256:d1".into(),
        crc32c: 0x1234,
        size: 42,
    });

    assert!(db.store.has_referrer("r", "sha256:s", "sha256:r1"));
    assert_eq!(db.store.backrefs("r", "sha256:b1"), vec!["sha256:m1".to_string()]);
    assert_eq!(
        db.store.checksum("r", "sha256:d1"),
        Some(BlobChecksum { crc32c: 0x1234, size: 42 })
    );
}

#[test]
fn apply_relaxed_and_delete_blob() {
    let mut db = Db::open();
    db.apply(MetaOp::PutChecksum {
        repo: "r".into(),
        digest: "sha256:b1".into(),
        crc32c: 0xAAAA,
        size: 99,
    });
    assert!(db.store.checksum("r", "sha256:b1").is_some());
    db.apply(MetaOp::DeleteBlob { repo: "r".into(), digest: "sha256:b1".into() });
    assert!(db.store.checksum("r", "sha256:b1").is_none());
}

#[test]
fn repos_and_manifests() {
    let mut db = Db::open();
    assert!(db.store.repos().is_empty());
    assert!(db.store.manifests("r").is_empty());

    db.apply(MetaOp::PutManifest {
        repo: "r".into(),
        digest: "sha256:aaa".into(),
        media_type: "application/vnd.oci.image.manifest.v1+json".into(),
        tag: Some("v1".into()),
        references: vec![],
        referrer: None,
    });
    db.apply(put("r", "sha256:bbb", None));
    db.apply(refer("r2", "sha256:s", "sha256:rr", r#"{"digest":"sha256:rr"}"#));

    let repos = db.store.repos();
    assert!(repos.contains(&"r".to_string()));
    assert!(repos.contains(&"r2".to_string()));

    let mf = db.store.manifests("r");
    assert!(mf.contains(&"sha256:aaa".to_string()));
    assert!(mf.contains(&"sha256:bbb".to_string()));
    assert!(db.store.manifests("empty_repo").is_empty());
}

#[test]
fn tags_snapshot_and_referrers_snapshot() {
    let mut db = Db::open();
    assert!(db.store.tags_snapshot("r").is_empty());
    assert!(db.store.referrers_snapshot("r").is_empty());

    db.apply(MetaOp::PutManifest {
        repo: "r".into(),
        digest: "sha256:aaa".into(),
        media_type: "application/vnd.oci.image.manifest.v1+json".into(),
        tag: Some("v1".into()),
        references: vec![],
        referrer: None,
    });
    db.apply(put("r", "sha256:bbb", Some("v2")));
    db.apply(refer("r", "sha256:s1", "sha256:ref1", r#"{"digest":"sha256:ref1"}"#));
    db.apply(refer("r", "sha256:s1", "sha256:ref2", r#"{"digest":"sha256:ref2"}"#));
    db.apply(refer("zzz", "sha256:s1", "sha256:ref3", r#"{"digest":"sha256:ref3"}"#));

    let ts = db.store.tags_snapshot("r");
    assert_eq!(ts.len(), 2);
    assert!(ts.iter().any(|(t, _, _)| t == "v1"));
    assert!(ts.iter().any(|(t, _, _)| t == "v2"));
    assert!(db.store.tags_snapshot("empty").is_empty());

    let rs = db.store.referrers_snapshot("r");
    assert_eq!(rs.len(), 1);
    assert_eq!(rs[0].0, "sha256:s1");
    assert_eq!(rs[0].1.len(), 2);

    let rs_zzz = db.store.referrers_snapshot("zzz");
    assert_eq!(rs_zzz.len(), 1);
}

#[test]
fn delete_manifest_with_checksum_and_referrer_with_type() {
    let mut db = Db::open();
    db.apply(MetaOp::PutManifest {
        repo: "r".into(),
        digest: "sha256:m1".into(),
        media_type: "application/vnd.oci.image.manifest.v1+json".into(),
        tag: None,
        references: vec![],
        referrer: Some((
            "sha256:parent".into(),
            br#"{"artifactType":"sig","digest":"sha256:m1"}"#.to_vec(),
        )),
    });
    db.apply(MetaOp::PutChecksum {
        repo: "r".into(),
        digest: "sha256:m1".into(),
        crc32c: 0xDEAD,
        size: 10,
    });

    assert!(db.store.has_referrer("r", "sha256:parent", "sha256:m1"));
    assert!(db.store.checksum("r", "sha256:m1").is_some());
    let page = db.store.referrers_page("r", "sha256:parent", Some("sig"), None, 10).unwrap();
    assert_eq!(page.items.len(), 1);

    db.apply(delete("r", "sha256:m1"));

    assert!(!db.store.has_referrer("r", "sha256:parent", "sha256:m1"));
    assert!(db.store.checksum("r", "sha256:m1").is_none());
    assert!(db.store.referrers_page("r", "sha256:parent", None, None, 10).is_none());
}

#[test]
fn redb_persistence_across_reopen() {
    let mut db = Db::open();
    db.apply(MetaOp::PutManifest {
        repo: "r".into(),
        digest: "sha256:m".into(),
        media_type: "mt".into(),
        tag: Some("v1".into()),
        references: vec!["sha256:blob".into()],
        referrer: Some(("sha256:subj".into(), br#"{"artifactType":"sbom"}"#.to_vec())),
    });
    db.apply(MetaOp::PutChecksum {
        repo: "r".into(),
        digest: "sha256:blob".into(),
        crc32c: 99,
        size: 200,
    });
    let db = db.reopen();
    let store = &db.store;
    let (d, mt) = store.resolve_tag("r", "v1").unwrap();
    assert_eq!(d, "sha256:m");
    assert_eq!(mt, "mt");
    assert_eq!(store.manifest_media_type("r", "sha256:m").unwrap(), "mt");
    assert_eq!(store.backrefs("r", "sha256:blob"), vec!["sha256:m"]);
    assert!(store.has_referrer("r", "sha256:subj", "sha256:m"));
    let bc = store.checksum("r", "sha256:blob").unwrap();
    assert_eq!(bc.crc32c, 99);
    assert_eq!(bc.size, 200);
    assert_eq!(store.repos(), vec!["r"]);
    let snap = store.tags_snapshot("r");
    assert_eq!(snap.len(), 1);
    assert_eq!(snap[0].0, "v1");
}

/// What every engine has to answer after the same mutations.
fn exercise<M: MetadataStore>(store: &mut M) {
    store.apply(MetaOp::PutManifest {
        repo: "r".into(),
        digest: "sha256:m1".into(),
        media_type: "mt".into(),
        tag: Some("latest".into()),
        references: vec!["sha256:shared".into()],
        referrer: None,
    });
    store.apply(MetaOp::PutManifest {
        repo: "r".into(),
        digest: "sha256:m2".into(),
        media_type: "mt2".into(),
        tag: Some("latest".into()),
        references: vec!["sha256:shared".into()],
        referrer: None,
    });
    // The tag moved; there is one.
    assert_eq!(
        store.resolve_tag("r", "latest"),
        Some(("sha256:m2".to_string(), "mt2".to_string()))
    );
    assert_eq!(store.tags_page("r", None, 10).unwrap().items.len(), 1);
    let mut both = store.backrefs("r", "sha256:shared");
    both.sort();
    assert_eq!(both, vec!["sha256:m1", "sha256:m2"]);
    // Another repository sees nothing of it.
    assert!(store.resolve_tag("b", "latest").is_none());
    assert!(store.tags_page("b", None, 10).is_none());
    assert!(store.backrefs("b", "sha256:shared").is_empty());
    assert!(store.manifests("b").is_empty());
    // The same referrer with another type is listed under that type alone.
    store.apply(refer("r", "sha256:s", "sha256:x", r#"{"artifactType":"sbom"}"#));
    store.apply(refer("r", "sha256:s", "sha256:x", r#"{"artifactType":"sig"}"#));
    let all = store.referrers_page("r", "sha256:s", None, None, 10).unwrap();
    assert_eq!(all.items.len(), 1);
    assert_eq!(all.items[0].1, br#"{"artifactType":"sig"}"#);
    let sbom = store.referrers_page("r", "sha256:s", Some("sbom"), None, 10).unwrap();
    assert!(sbom.items.is_empty());
    // Deleting one manifest leaves the other's tag and edges.
    store.apply(delete("r", "sha256:m1"));
    assert_eq!(store.backrefs("r", "sha256:shared"), vec!["sha256:m2"]);
    assert!(store.resolve_tag("r", "latest").is_some());
    assert_eq!(store.repos(), vec!["r"]);
    assert_eq!(store.manifests("r"), vec!["sha256:m2"]);
}

#[test]
fn both_engines_answer_alike() {
    let mut tables = RedbMetadataStore::open();
    exercise(&mut tables);
    let (mut log, _) = LogMetadataStore::open(None);
    exercise(&mut log);
    assert_eq!(tables.tags_snapshot("r"), log.tags_snapshot("r"));
    assert_eq!(tables.referrers_snapshot("r"), log.referrers_snapshot("r"));
}

#[test]
fn the_configured_engine_answers_as_itself() {
    let mut tables = Engine::Redb(RedbMetadataStore::open());
    exercise(&mut tables);
    assert_eq!(tables.generation(), 0);
    let mut log = Engine::Log(LogMetadataStore::open(None).0);
    exercise(&mut log);
    assert_eq!(log.generation(), 0);
    assert_eq!(tables.tags_snapshot("r"), log.tags_snapshot("r"));
    assert_eq!(tables.referrers_snapshot("r"), log.referrers_snapshot("r"));
}

#[test]
fn rows_of_a_database_give_its_tables() {
    let mut rows = SnapshotState::empty(0, 0);
    // Media types first, and one that no tag has.
    rows.put_media_type("r".into(), "sha256:aa".into(), "one".into());
    rows.put_media_type("r".into(), "sha256:bb".into(), "three".into());
    rows.put_tag("r".into(), "v2".into(), "sha256:aa".into(), "two".into());
    rows.put_tag("r".into(), "v1".into(), "sha256:aa".into(), "one".into());
    rows.put_backref("r".into(), "sha256:l".into(), "sha256:bb".into());
    rows.put_backref("r".into(), "sha256:l".into(), "sha256:aa".into());
    let descriptor = b"{\"artifactType\":\"sbom\"}".to_vec();
    rows.put_referrer(
        "r".into(),
        "sha256:aa".into(),
        "sha256:bb".into(),
        String::new(),
        descriptor.clone(),
    );
    let sum = BlobChecksum { crc32c: 7, size: 9 };
    rows.put_checksum("r".into(), "sha256:l".into(), sum);
    let mut s = RedbMetadataStore::restored(&rows);
    assert_eq!(s.manifest_media_type("r", "sha256:aa").as_deref(), Some("one"));
    assert_eq!(s.manifest_media_type("r", "sha256:bb").as_deref(), Some("three"));
    assert_eq!(s.resolve_tag("r", "v2"), Some(("sha256:aa".into(), "two".into())));
    assert_eq!(s.backrefs("r", "sha256:l"), vec!["sha256:aa", "sha256:bb"]);
    assert_eq!(s.checksum("r", "sha256:l"), Some(sum));
    let page = s.referrers_page("r", "sha256:aa", Some("sbom"), None, 10).unwrap();
    assert_eq!(page.items, vec![("sha256:bb".to_string(), descriptor)]);
    // The indexes are there too: a deletion finds everything.
    s.apply(MetaOp::DeleteManifest { repo: "r".into(), digest: "sha256:aa".into() });
    assert!(s.tags_page("r", None, 10).is_none());
    assert_eq!(s.backrefs("r", "sha256:l"), vec!["sha256:bb"]);
}
