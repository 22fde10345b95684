//! The image layout: descriptors, references, the rebuilt index and imports.

use roci_storage::json::{parse, to_bytes, Json};
use roci_storage::layout::index::{empty_index, index_from_meta, sizes_wanted};
use roci_storage::layout::{
    cas_digest, descriptor_digest, descriptor_tag, import_foreign_tags, index_manifests,
    is_repo_part, manifest_references, page_layout_referrers, same_manifest_set, subject_digest,
    MEDIA_TYPE_IMAGE_INDEX, MEDIA_TYPE_IMAGE_MANIFEST, OCI_LAYOUT_MARKER,
};
use roci_storage::metadata::log_store::LogMetadataStore;
use roci_storage::metadata::store::MetadataStore;
use roci_storage::metadata::MetaOp;
use roci_storage::table::Table;

const A: &str = "sha256:aaaaaaaaaaaaaaaaaaaaaaaaaaaaaaaaaaaaaaaaaaaaaaaaaaaaaaaaaaaaaaaa";
const B: &str = "sha256:bbbbbbbbbbbbbbbbbbbbbbbbbbbbbbbbbbbbbbbbbbbbbbbbbbbbbbbbbbbbbbbb";
const C: &str = "sha256:cccccccccccccccccccccccccccccccccccccccccccccccccccccccccccccccc";

fn doc(text: &str) -> Json {
    parse(text.as_bytes()).unwrap()
}

fn text(j: &Json) -> String {
    String::from_utf8(to_bytes(j)).unwrap()
}

fn store() -> LogMetadataStore {
    LogMetadataStore::open(None).0
}

fn put(digest: &str, tag: Option<&str>) -> MetaOp {
    MetaOp::PutManifest {
        repo: "r".into(),
        digest: digest.into(),
        media_type: "mt".into(),
        tag: tag.map(str::to_string),
        references: vec![],
        referrer: None,
    }
}

fn no_sizes() -> Table<String, u64> {
    Table::new()
}

fn entries(index: &Json) -> Vec<String> {
    match index_manifests(index) {
        Some(l) => l.iter().map(text).collect(),
        None => Vec::new(),
    }
}

#[test]
fn documents_are_read_and_written() {
    for t in [
        "null",
        "true",
        "[]",
        "{}",
        "[1,-2,18446744073709551615,\"x\\n\\u0001\"]",
        "{\"a\":{\"b\":[{},[null,false]]},\"z\":\"é\"}",
    ] {
        assert_eq!(text(&doc(t)), t);
    }
    // Fields are written in name order, and the last of two wins.
    assert_eq!(text(&doc("{\"b\":1,\"a\":2,\"b\":3}")), "{\"a\":2,\"b\":3}");
    assert!(parse(b"{").is_none());
    assert!(parse(b"1 2").is_none());
    assert!(parse(b"").is_none());
    assert_eq!(text(&doc("1.5")), "1.5");
    let deep = "[".repeat(200) + &"]".repeat(200);
    assert!(parse(deep.as_bytes()).is_none());
}

#[test]
fn descriptors_name_tag_digest_and_subject() {
    let d = doc(
        "{\"digest\":\"sha256:x\",\"annotations\":{\"org.opencontainers.image.ref.name\":\"v1\"},\
         \"subject\":{\"digest\":\"sha256:s\"}}",
    );
    assert_eq!(descriptor_tag(&d), Some("v1"));
    assert_eq!(descriptor_digest(&d), Some("sha256:x"));
    assert_eq!(subject_digest(&d), Some("sha256:s"));
    let bare = doc("{\"digest\":5,\"annotations\":[],\"subject\":\"s\"}");
    assert_eq!(descriptor_tag(&bare), None);
    assert_eq!(descriptor_digest(&bare), None);
    assert_eq!(subject_digest(&bare), None);
    assert!(index_manifests(&bare).is_none());
    assert_eq!(OCI_LAYOUT_MARKER, "{\"imageLayoutVersion\":\"1.0.0\"}");
}

#[test]
fn references_are_config_layers_children_and_subject() {
    let m = doc(&format!(
        "{{\"subject\":{{\"digest\":\"{C}\"}},\"config\":{{\"digest\":\"{A}\"}},\
         \"layers\":[{{\"digest\":\"{B}\"}},{{\"digest\":\"bad\"}},{{}},{{\"digest\":\"{B}\"}}],\
         \"manifests\":[{{\"digest\":\"{A}\"}}]}}"
    ));
    let refs: Vec<String> = manifest_references(&m).iter().map(|d| d.as_string()).collect();
    assert_eq!(refs, vec![A, B, B, A, C]);
    assert!(manifest_references(&doc("[]")).is_empty());
    assert!(manifest_references(&doc("{\"layers\":{}}")).is_empty());
}

#[test]
fn layout_referrers_are_paged_by_digest_first_occurrence_first() {
    let one = doc("{\"digest\":\"b\",\"artifactType\":\"sig\",\"n\":1}");
    let two = doc("{\"digest\":\"b\",\"artifactType\":\"sig\",\"n\":2}");
    let three = doc("{\"digest\":\"a\",\"artifactType\":\"sbom\"}");
    let refs = vec![
        ("b".to_string(), &one),
        ("b".to_string(), &two),
        ("a".to_string(), &three),
    ];
    let all = page_layout_referrers(&refs, None, None, 10);
    assert_eq!(all.items.len(), 2);
    assert_eq!(all.items[0].0, "a");
    assert_eq!(all.items[1], ("b".to_string(), to_bytes(&one)));
    assert!(!all.more);
    let sig = page_layout_referrers(&refs, Some("sig"), None, 10);
    assert_eq!(sig.items.len(), 1);
    let first = page_layout_referrers(&refs, None, None, 1);
    assert!(first.more);
    let rest = page_layout_referrers(&refs, None, Some("a"), 1);
    assert_eq!(rest.items[0].0, "b");
    assert!(!rest.more);
}

#[test]
fn indexes_are_compared_as_multisets() {
    let a = doc("{\"manifests\":[{\"digest\":\"x\"},{\"digest\":\"y\"},{\"digest\":\"x\"}]}");
    let b = doc("{\"manifests\":[{\"digest\":\"x\"},{\"digest\":\"x\"},{\"digest\":\"y\"}],\"z\":1}");
    let c = doc("{\"manifests\":[{\"digest\":\"x\"},{\"digest\":\"y\"},{\"digest\":\"y\"}]}");
    assert!(same_manifest_set(&a, &b));
    assert!(!same_manifest_set(&a, &c));
    assert!(same_manifest_set(&doc("{}"), &doc("{\"manifests\":[]}")));
    assert!(!same_manifest_set(&a, &doc("{}")));
}

#[test]
fn repository_parts_leave_out_content_and_hidden_directories() {
    assert!(is_repo_part("library"));
    assert!(!is_repo_part("blobs"));
    assert!(!is_repo_part("uploads"));
    assert!(!is_repo_part(".hidden"));
    let hex = &A["sha256:".len()..];
    assert_eq!(cas_digest("sha256", hex).unwrap().as_string(), A);
    assert!(cas_digest("sha256", "tmp").is_none());
    assert!(cas_digest("sha1", hex).is_none());
}

#[test]
fn the_empty_index_lists_nothing() {
    let i = empty_index();
    assert_eq!(
        text(&i),
        format!(
            "{{\"manifests\":[],\"mediaType\":\"{MEDIA_TYPE_IMAGE_INDEX}\",\"schemaVersion\":2}}"
        )
    );
}

#[test]
fn the_rebuilt_index_lists_tags_then_untagged_then_foreign_entries() {
    let mut meta = store();
    meta.apply(put(A, Some("v2")));
    meta.apply(put(A, Some("v1")));
    meta.apply(put(B, None));
    let existing = doc(&format!(
        "{{\"custom\":true,\"manifests\":[\
         {{\"digest\":\"{A}\",\"size\":7,\"annotations\":{{\"k\":\"v\",\
         \"org.opencontainers.image.ref.name\":\"old\"}}}},\
         {{\"digest\":\"{C}\",\"note\":\"kept\"}},\
         {{\"digest\":\"{C}\",\"annotations\":{{\"org.opencontainers.image.ref.name\":\"gone\"}}}}\
         ]}}"
    ));
    let mut sizes: Table<String, u64> = Table::new();
    sizes.insert(B.to_string(), 9);
    sizes.insert(A.to_string(), 8);
    let index = index_from_meta(&meta, "r", Some(existing), &sizes);
    assert_eq!(
        entries(&index),
        vec![
            format!(
                "{{\"annotations\":{{\"k\":\"v\",\"org.opencontainers.image.ref.name\":\"v1\"}},\
                 \"digest\":\"{A}\",\"mediaType\":\"mt\",\"size\":7}}"
            ),
            format!(
                "{{\"annotations\":{{\"k\":\"v\",\"org.opencontainers.image.ref.name\":\"v2\"}},\
                 \"digest\":\"{A}\",\"mediaType\":\"mt\",\"size\":7}}"
            ),
            format!("{{\"digest\":\"{B}\",\"mediaType\":\"mt\",\"size\":9}}"),
            format!("{{\"digest\":\"{C}\",\"note\":\"kept\"}}"),
        ]
    );
    assert!(text(&index).contains("\"custom\":true"));
}

#[test]
fn the_rebuilt_index_links_referrers_to_their_subject() {
    let mut meta = store();
    meta.apply(MetaOp::PutManifest {
        repo: "r".into(),
        digest: B.into(),
        media_type: "mt".into(),
        tag: None,
        references: vec![],
        referrer: Some((
            A.into(),
            br#"{"digest":"x","size":3,"artifactType":"sig","annotations":{"k":"v"}}"#.to_vec(),
        )),
    });
    let index = index_from_meta(&meta, "r", None, &no_sizes());
    assert_eq!(
        entries(&index),
        vec![format!(
            "{{\"annotations\":{{\"k\":\"v\"}},\"artifactType\":\"sig\",\"digest\":\"{B}\",\
             \"mediaType\":\"mt\",\"size\":3,\"subject\":{{\"digest\":\"{A}\"}}}}"
        )]
    );
}

#[test]
fn sizes_are_wanted_where_the_disk_gives_none() {
    let mut meta = store();
    meta.apply(put(A, None));
    meta.apply(put(B, None));
    let existing = doc(&format!("{{\"manifests\":[{{\"digest\":\"{A}\",\"size\":1}}]}}"));
    assert_eq!(sizes_wanted(&meta, "r", Some(&existing)), vec![B.to_string()]);
    assert_eq!(sizes_wanted(&meta, "r", None).len(), 2);
}

#[test]
fn foreign_tags_are_imported_once_and_the_first_wins() {
    let mut meta = store();
    meta.apply(put(A, Some("taken")));
    let tagged = |d: &str, t: &str| {
        format!(
            "{{\"digest\":\"{d}\",\"annotations\":{{\
             \"org.opencontainers.image.ref.name\":\"{t}\"}}}}"
        )
    };
    let existing = doc(&format!(
        "{{\"manifests\":[{},{},{},{},{{\"digest\":\"{C}\"}}]}}",
        tagged(B, "taken"),
        tagged(B, "new"),
        tagged(C, "new"),
        tagged("nope", "bad")
    ));
    import_foreign_tags(&mut meta, "r", &existing);
    assert_eq!(meta.resolve_tag("r", "taken").unwrap().0, A);
    assert_eq!(
        meta.resolve_tag("r", "new"),
        Some((B.to_string(), MEDIA_TYPE_IMAGE_MANIFEST.to_string()))
    );
    assert!(meta.resolve_tag("r", "bad").is_none());
    assert!(meta.manifest_media_type("r", C).is_none());
    // No reference is recorded, and a second import changes nothing.
    let before = (meta.tags_snapshot("r"), meta.manifests("r"));
    import_foreign_tags(&mut meta, "r", &existing);
    assert_eq!((meta.tags_snapshot("r"), meta.manifests("r")), before);
    for blob in [A, B, C] {
        assert!(meta.backrefs("r", blob).is_empty());
    }
}
