//! The key-value engine's tables as sets and maps: the primary tables, the
//! indexes beside them, and the writes that keep both in step.

use crate::metadata::model::{
    apply_op, backrefs_at, with_backrefs, without, without_backrefs, Op, Tables,
};
use crate::metadata::referrers::{artifact_type_of, opt_string};
use crate::metadata::state_laws::lemma_without_member;
use crate::metadata::BlobChecksum;
use crate::page::{increasing, texts};
use crate::table::kept;
use crate::text::{text_lt, text_lt_irreflexive, text_lt_total, text_lt_transitive, Text};
use vstd::bytes::{spec_u32_from_le_bytes, spec_u64_from_le_bytes};
use vstd::prelude::*;

verus! {

/// What the engine's tables hold.
#[verifier::ext_equal]
pub struct Raw {
    /// `(repo, tag)` to `(digest, media type)`.
    pub tags: Map<(Text, Text), (Text, Text)>,
    /// `(repo, digest, tag)`: the tags of a digest.
    pub tags_of: Set<(Text, Text, Text)>,
    /// `(repo, digest)` to media type.
    pub media_types: Map<(Text, Text), Text>,
    /// `(repo, subject, referrer)` to descriptor.
    pub referrers: Map<(Text, Text, Text), Seq<u8>>,
    /// `(repo, subject, referrer)` to artifact type.
    pub types: Map<(Text, Text, Text), Text>,
    /// `(repo, subject, artifact type, referrer)`: the referrers of a type.
    pub typed: Set<(Text, Text, Text, Text)>,
    /// `(repo, referrer, subject)`: the subjects of a referrer.
    pub subjects: Set<(Text, Text, Text)>,
    /// `(repo, blob, manifest)`: the manifests of a blob.
    pub backrefs: Set<(Text, Text, Text)>,
    /// `(repo, manifest, blob)`: the blobs of a manifest.
    pub edges: Set<(Text, Text, Text)>,
    /// `(repo, digest)` to an encoded checksum.
    pub checksums: Map<(Text, Text), Seq<u8>>,
}

/// One write to one table.
#[derive(Debug, Clone, PartialEq, Eq)]
pub enum TableWrite {
    PutTag { repo: String, tag: String, digest: String, media_type: String },
    DropTag { repo: String, tag: String },
    PutTagOf { repo: String, digest: String, tag: String },
    DropTagOf { repo: String, digest: String, tag: String },
    PutMediaType { repo: String, digest: String, media_type: String },
    DropMediaType { repo: String, digest: String },
    PutReferrer { repo: String, subject: String, referrer: String, descriptor: Vec<u8> },
    DropReferrer { repo: String, subject: String, referrer: String },
    PutType { repo: String, subject: String, referrer: String, artifact_type: String },
    DropType { repo: String, subject: String, referrer: String },
    PutTyped { repo: String, subject: String, artifact_type: String, referrer: String },
    DropTyped { repo: String, subject: String, artifact_type: String, referrer: String },
    PutSubject { repo: String, referrer: String, subject: String },
    DropSubject { repo: String, referrer: String, subject: String },
    PutBackref { repo: String, blob: String, manifest: String },
    DropBackref { repo: String, blob: String, manifest: String },
    PutEdge { repo: String, manifest: String, blob: String },
    /// Drops every blob of a manifest.
    DropEdges { repo: String, manifest: String },
    PutChecksum { repo: String, digest: String, value: Vec<u8> },
    DropChecksum { repo: String, digest: String },
}

/// What a write does.
pub open spec fn raw_write(x: Raw, w: TableWrite) -> Raw {
    match w {
        TableWrite::PutTag { repo, tag, digest, media_type } => Raw {
            tags: x.tags.insert((repo@, tag@), (digest@, media_type@)),
            ..x
        },
        TableWrite::DropTag { repo, tag } => Raw { tags: x.tags.remove((repo@, tag@)), ..x },
        TableWrite::PutTagOf { repo, digest, tag } => Raw {
            tags_of: x.tags_of.insert((repo@, digest@, tag@)),
            ..x
        },
        TableWrite::DropTagOf { repo, digest, tag } => Raw {
            tags_of: x.tags_of.remove((repo@, digest@, tag@)),
            ..x
        },
        TableWrite::PutMediaType { repo, digest, media_type } => Raw {
            media_types: x.media_types.insert((repo@, digest@), media_type@),
            ..x
        },
        TableWrite::DropMediaType { repo, digest } => Raw {
            media_types: x.media_types.remove((repo@, digest@)),
            ..x
        },
        TableWrite::PutReferrer { repo, subject, referrer, descriptor } => Raw {
            referrers: x.referrers.insert((repo@, subject@, referrer@), descriptor@),
            ..x
        },
        TableWrite::DropReferrer { repo, subject, referrer } => Raw {
            referrers: x.referrers.remove((repo@, subject@, referrer@)),
            ..x
        },
        TableWrite::PutType { repo, subject, referrer, artifact_type } => Raw {
            types: x.types.insert((repo@, subject@, referrer@), artifact_type@),
            ..x
        },
        TableWrite::DropType { repo, subject, referrer } => Raw {
            types: x.types.remove((repo@, subject@, referrer@)),
            ..x
        },
        TableWrite::PutTyped { repo, subject, artifact_type, referrer } => Raw {
            typed: x.typed.insert((repo@, subject@, artifact_type@, referrer@)),
            ..x
        },
        TableWrite::DropTyped { repo, subject, artifact_type, referrer } => Raw {
            typed: x.typed.remove((repo@, subject@, artifact_type@, referrer@)),
            ..x
        },
        TableWrite::PutSubject { repo, referrer, subject } => Raw {
            subjects: x.subjects.insert((repo@, referrer@, subject@)),
            ..x
        },
        TableWrite::DropSubject { repo, referrer, subject } => Raw {
            subjects: x.subjects.remove((repo@, referrer@, subject@)),
            ..x
        },
        TableWrite::PutBackref { repo, blob, manifest } => Raw {
            backrefs: x.backrefs.insert((repo@, blob@, manifest@)),
            ..x
        },
        TableWrite::DropBackref { repo, blob, manifest } => Raw {
            backrefs: x.backrefs.remove((repo@, blob@, manifest@)),
            ..x
        },
        TableWrite::PutEdge { repo, manifest, blob } => Raw {
            edges: x.edges.insert((repo@, manifest@, blob@)),
            ..x
        },
        TableWrite::DropEdges { repo, manifest } => Raw {
            edges: x.edges.filter(|k: (Text, Text, Text)| !(k.0 == repo@ && k.1 == manifest@)),
            ..x
        },
        TableWrite::PutChecksum { repo, digest, value } => Raw {
            checksums: x.checksums.insert((repo@, digest@), value@),
            ..x
        },
        TableWrite::DropChecksum { repo, digest } => Raw {
            checksums: x.checksums.remove((repo@, digest@)),
            ..x
        },
    }
}

/// What a run of writes does.
pub open spec fn raw_writes(x: Raw, ws: Seq<TableWrite>) -> Raw
    decreases ws.len(),
{
    if ws.len() == 0 {
        x
    } else {
        raw_write(raw_writes(x, ws.drop_last()), ws.last())
    }
}

/// Every index says what its primary table says, and checksums have their
/// length.
pub open spec fn indexed(x: Raw) -> bool {
    &&& forall|r: Text, d: Text, t: Text|
        #![trigger x.tags_of.contains((r, d, t))]
        x.tags_of.contains((r, d, t)) <==> x.tags.contains_key((r, t)) && x.tags[(r, t)].0 == d
    &&& forall|r: Text, f: Text, s: Text|
        #![trigger x.subjects.contains((r, f, s))]
        x.subjects.contains((r, f, s)) <==> x.referrers.contains_key((r, s, f))
    &&& forall|k: (Text, Text, Text)|
        #![trigger x.types.contains_key(k)]
        x.types.contains_key(k) <==> x.referrers.contains_key(k) && artifact_type_of(
            x.referrers[k],
        ) is Some
    &&& forall|k: (Text, Text, Text)|
        #![trigger x.types[k]]
        x.types.contains_key(k) ==> artifact_type_of(x.referrers[k]) == Some(x.types[k])
    &&& forall|r: Text, s: Text, t: Text, f: Text|
        #![trigger x.typed.contains((r, s, t, f))]
        x.typed.contains((r, s, t, f)) <==> x.referrers.contains_key((r, s, f))
            && artifact_type_of(x.referrers[(r, s, f)]) == Some(t)
    &&& forall|r: Text, m: Text, b: Text|
        #![trigger x.edges.contains((r, m, b))]
        x.edges.contains((r, m, b)) <==> x.backrefs.contains((r, b, m))
    &&& x.backrefs.finite()
    &&& forall|k: (Text, Text)|
        #![trigger x.checksums[k]]
        x.checksums.contains_key(k) ==> x.checksums[k].len() == 12
}

/// The texts of a set, in order.
pub open spec fn sorted_texts(s: Set<Text>) -> Seq<Text> {
    choose|q: Seq<Text>| increasing(q) && q.to_set() == s
}

/// The manifests of a blob.
pub open spec fn manifests_of(s: Set<(Text, Text, Text)>, k: (Text, Text)) -> Set<Text> {
    Set::new(|m: Text| s.contains((k.0, k.1, m)))
}

/// `k` has a manifest.
pub open spec fn has_manifest(s: Set<(Text, Text, Text)>, k: (Text, Text)) -> bool {
    exists|m: Text| s.contains((k.0, k.1, m))
}

/// The manifests of every blob, in order.
pub open spec fn backref_lists(s: Set<(Text, Text, Text)>) -> Map<(Text, Text), Seq<Text>> {
    Map::new(
        |k: (Text, Text)| has_manifest(s, k),
        |k: (Text, Text)| sorted_texts(manifests_of(s, k)),
    )
}

/// The checksum that twelve bytes encode.
pub open spec fn checksum_in(bytes: Seq<u8>) -> BlobChecksum {
    BlobChecksum {
        crc32c: spec_u32_from_le_bytes(bytes.subrange(0, 4)),
        size: spec_u64_from_le_bytes(bytes.subrange(4, 12)),
    }
}

/// What the engine's tables say of the index.
pub open spec fn raw_tables(x: Raw) -> Tables {
    Tables {
        tags: x.tags,
        media_types: x.media_types,
        referrers: x.referrers,
        backrefs: backref_lists(x.backrefs),
        checksums: x.checksums.map_values(|v: Seq<u8>| checksum_in(v)),
    }
}

/// The same lists, each in order.
pub open spec fn in_order(m: Map<(Text, Text), Seq<Text>>) -> Map<(Text, Text), Seq<Text>> {
    m.map_values(|s: Seq<Text>| sorted_texts(s.to_set()))
}

/// What a mutation does to an index that keeps its backrefs in order.
pub open spec fn apply_ordered(t: Tables, op: Op) -> Tables {
    Tables { backrefs: in_order(apply_op(t, op).backrefs), ..apply_op(t, op) }
}

/// What a mutation has to know of the tables before it.
#[derive(Debug, Clone, PartialEq, Eq)]
pub struct OpReads {
    /// The digest that the tag to be put points at.
    pub old_digest: Option<String>,
    /// The artifact type recorded for the referrer to be put.
    pub old_type: Option<String>,
    /// The tags of the manifest to be deleted.
    pub tags: Vec<String>,
    /// The subjects of the manifest to be deleted, with the artifact type
    /// recorded for it there.
    pub subjects: Vec<(String, Option<String>)>,
    /// The blobs that the manifest to be deleted references.
    pub blobs: Vec<String>,
}

/// The artifact type recorded for a referrer.
pub open spec fn type_at(x: Raw, k: (Text, Text, Text)) -> Option<Text> {
    if x.types.contains_key(k) {
        Some(x.types[k])
    } else {
        None
    }
}

/// The digest that a tag points at.
pub open spec fn digest_at(x: Raw, k: (Text, Text)) -> Option<Text> {
    if x.tags.contains_key(k) {
        Some(x.tags[k].0)
    } else {
        None
    }
}

/// The subjects that were read.
pub open spec fn subject_names(s: Seq<(String, Option<String>)>) -> Seq<Text> {
    Seq::new(s.len(), |i: int| s[i].0@)
}

/// What was read is what the tables hold.
pub open spec fn reads_match(x: Raw, op: Op, reads: OpReads) -> bool {
    match op {
        Op::PutManifest { repo, digest, media_type, tag, references, referrer } => {
            &&& tag matches Some(t) ==> opt_string(reads.old_digest) == digest_at(x, (repo, t))
            &&& referrer matches Some(s) ==> opt_string(reads.old_type) == type_at(
                x,
                (repo, s.0, digest),
            )
        },
        Op::PutReferrer { repo, subject, referrer, descriptor } => opt_string(reads.old_type)
            == type_at(x, (repo, subject, referrer)),
        Op::DeleteManifest { repo, digest } => {
            &&& forall|t: Text|
                #![trigger x.tags_of.contains((repo, digest, t))]
                texts(reads.tags@).contains(t) <==> x.tags_of.contains((repo, digest, t))
            &&& forall|s: Text|
                #![trigger x.subjects.contains((repo, digest, s))]
                subject_names(reads.subjects@).contains(s) <==> x.subjects.contains(
                    (repo, digest, s),
                )
            &&& forall|i: int|
                #![trigger reads.subjects@[i]]
                0 <= i < reads.subjects@.len() ==> opt_string(reads.subjects@[i].1) == type_at(
                    x,
                    (repo, reads.subjects@[i].0@, digest),
                )
            &&& forall|b: Text|
                #![trigger x.edges.contains((repo, digest, b))]
                texts(reads.blobs@).contains(b) <==> x.edges.contains((repo, digest, b))
        },
        _ => true,
    }
}

/// The tables once a tag is put.
pub open spec fn with_tag(x: Raw, repo: Text, tag: Text, digest: Text, media_type: Text, old: Option<
    Text,
>) -> Raw {
    Raw {
        tags: x.tags.insert((repo, tag), (digest, media_type)),
        tags_of: (match old {
            Some(o) => x.tags_of.remove((repo, o, tag)),
            None => x.tags_of,
        }).insert((repo, digest, tag)),
        ..x
    }
}

/// The tables once edges are put.
pub open spec fn with_edges(x: Raw, repo: Text, manifest: Text, blobs: Seq<Text>) -> Raw {
    Raw {
        backrefs: Set::new(
            |k: (Text, Text, Text)|
                x.backrefs.contains(k) || (k.0 == repo && k.2 == manifest && blobs.contains(k.1)),
        ),
        edges: Set::new(
            |k: (Text, Text, Text)|
                x.edges.contains(k) || (k.0 == repo && k.1 == manifest && blobs.contains(k.2)),
        ),
        ..x
    }
}

/// The tables once a referrer is dropped from a subject.
pub open spec fn without_referrer(x: Raw, repo: Text, subject: Text, referrer: Text, old: Option<
    Text,
>) -> Raw {
    Raw {
        referrers: x.referrers.remove((repo, subject, referrer)),
        subjects: x.subjects.remove((repo, referrer, subject)),
        types: x.types.remove((repo, subject, referrer)),
        typed: match old {
            Some(t) => x.typed.remove((repo, subject, t, referrer)),
            None => x.typed,
        },
        ..x
    }
}

/// The tables once a referrer that was not there is put.
pub open spec fn with_referrer(x: Raw, repo: Text, subject: Text, referrer: Text, descriptor: Seq<
    u8,
>) -> Raw {
    let k = (repo, subject, referrer);
    Raw {
        referrers: x.referrers.insert(k, descriptor),
        subjects: x.subjects.insert((repo, referrer, subject)),
        types: match artifact_type_of(descriptor) {
            Some(t) => x.types.insert(k, t),
            None => x.types,
        },
        typed: match artifact_type_of(descriptor) {
            Some(t) => x.typed.insert((repo, subject, t, referrer)),
            None => x.typed,
        },
        ..x
    }
}

/// The tables once the tags in `tags` are dropped from a digest.
pub open spec fn without_tags(x: Raw, repo: Text, digest: Text, tags: Seq<Text>) -> Raw {
    Raw {
        tags: kept(
            x.tags,
            |k: (Text, Text), v: (Text, Text)| !(k.0 == repo && tags.contains(k.1)),
        ),
        tags_of: x.tags_of.filter(
            |k: (Text, Text, Text)| !(k.0 == repo && k.1 == digest && tags.contains(k.2)),
        ),
        ..x
    }
}

/// The tables once a referrer is dropped from every subject in `subjects`, each
/// with the artifact type recorded there.
pub open spec fn without_subjects(
    x: Raw,
    repo: Text,
    referrer: Text,
    subjects: Seq<(Text, Option<Text>)>,
) -> Raw
    decreases subjects.len(),
{
    if subjects.len() == 0 {
        x
    } else {
        let (s, old) = subjects.last();
        without_referrer(
            without_subjects(x, repo, referrer, subjects.drop_last()),
            repo,
            s,
            referrer,
            old,
        )
    }
}

/// The tables once a manifest is dropped from the blobs in `blobs`, and all its
/// edges with it.
pub open spec fn without_edges(x: Raw, repo: Text, manifest: Text, blobs: Seq<Text>) -> Raw {
    Raw {
        backrefs: x.backrefs.filter(
            |k: (Text, Text, Text)| !(k.0 == repo && k.2 == manifest && blobs.contains(k.1)),
        ),
        edges: x.edges.filter(|k: (Text, Text, Text)| !(k.0 == repo && k.1 == manifest)),
        ..x
    }
}

/// Where `x` belongs among increasing texts.
proof fn lemma_place(q: Seq<Text>, x: Text) -> (i: int)
    requires
        increasing(q),
        !q.contains(x),
    ensures
        0 <= i <= q.len(),
        forall|j: int| #![trigger q[j]] 0 <= j < i ==> text_lt(q[j], x),
        forall|j: int| #![trigger q[j]] i <= j < q.len() ==> text_lt(x, q[j]),
    decreases q.len(),
{
    if q.len() == 0 {
        0
    } else {
        let init = q.drop_last();
        if init.contains(x) {
            let j = choose|j: int| 0 <= j < init.len() && init[j] == x;
            assert(q[j] == x);
        }
        let last = q.last();
        text_lt_total(last, x);
        assert(q[q.len() - 1] == last);
        if text_lt(last, x) {
            assert forall|j: int| #![trigger q[j]] 0 <= j < q.len() implies text_lt(q[j], x) by {
                if j < q.len() - 1 {
                    text_lt_transitive(q[j], last, x);
                }
            }
            q.len() as int
        } else {
            assert forall|a: int, b: int|
                #![trigger init[a], init[b]]
                0 <= a < b < init.len() implies text_lt(init[a], init[b]) by {
                assert(init[a] == q[a] && init[b] == q[b]);
            }
            let i = lemma_place(init, x);
            assert forall|j: int| #![trigger q[j]] 0 <= j < i implies text_lt(q[j], x) by {
                assert(init[j] == q[j]);
            }
            assert forall|j: int| #![trigger q[j]] i <= j < q.len() implies text_lt(x, q[j]) by {
                if j < init.len() {
                    assert(init[j] == q[j]);
                }
            }
            i
        }
    }
}

/// A finite set of texts can be listed in order.
proof fn lemma_listable(s: Set<Text>) -> (q: Seq<Text>)
    requires
        s.finite(),
    ensures
        increasing(q),
        q.to_set() == s,
    decreases s.len(),
{
    if s.len() == 0 {
        assert(s =~= Set::empty());
        assert(Seq::<Text>::empty().to_set() =~= s);
        Seq::empty()
    } else {
        let x = s.choose();
        let q = lemma_listable(s.remove(x));
        assert(!q.contains(x)) by {
            if q.contains(x) {
                assert(q.to_set().contains(x));
            }
        }
        let i = lemma_place(q, x);
        let r = q.insert(i, x);
        assert forall|a: int, b: int|
            #![trigger r[a], r[b]]
            0 <= a < b < r.len() implies text_lt(r[a], r[b]) by {
            let pa = if a < i { a } else { a - 1 };
            let pb = if b < i { b } else { b - 1 };
            if a != i && b != i {
                assert(r[a] == q[pa] && r[b] == q[pb]);
            } else if a == i {
                assert(r[b] == q[pb]);
            } else {
                assert(r[a] == q[pa]);
            }
        }
        assert forall|y: Text| r.to_set().contains(y) <==> s.contains(y) by {
            if r.to_set().contains(y) {
                let a = choose|a: int| 0 <= a < r.len() && r[a] == y;
                if a != i {
                    let pa = if a < i { a } else { a - 1 };
                    assert(q[pa] == y);
                    assert(q.to_set().contains(y));
                }
            }
            if s.contains(y) {
                if y == x {
                    assert(r[i] == y);
                } else {
                    assert(q.to_set().contains(y));
                    let a = choose|a: int| 0 <= a < q.len() && q[a] == y;
                    if a < i {
                        assert(r[a] == y);
                    } else {
                        assert(r[a + 1] == y);
                    }
                }
            }
        }
        assert(r.to_set() =~= s);
        r
    }
}

/// The ordered list of a finite set lists that set.
pub proof fn lemma_sorted_texts(s: Set<Text>)
    requires
        s.finite(),
    ensures
        increasing(sorted_texts(s)),
        sorted_texts(s).to_set() == s,
{
    let q = lemma_listable(s);
    assert(increasing(q) && q.to_set() == s);
}

/// Increasing texts are the ordered list of their set.
pub proof fn lemma_sorted_is(q: Seq<Text>)
    requires
        increasing(q),
    ensures
        sorted_texts(q.to_set()) == q,
{
    let s = sorted_texts(q.to_set());
    assert(increasing(s) && s.to_set() == q.to_set());
    lemma_increasing_unique(s, q);
}

/// Increasing texts are determined by their set.
pub proof fn lemma_increasing_unique(a: Seq<Text>, b: Seq<Text>)
    requires
        increasing(a),
        increasing(b),
        a.to_set() == b.to_set(),
    ensures
        a == b,
    decreases a.len(),
{
    if a.len() == 0 {
        if b.len() > 0 {
            assert(b.to_set().contains(b[0]));
            assert(a.to_set().contains(b[0]));
        }
        assert(a =~= b);
    } else {
        assert(a.to_set().contains(a.last()));
        assert(b.to_set().contains(a.last()));
        let i = choose|i: int| 0 <= i < b.len() && b[i] == a.last();
        assert(b.to_set().contains(b.last()));
        assert(a.to_set().contains(b.last()));
        let j = choose|j: int| 0 <= j < a.len() && a[j] == b.last();
        if i < b.len() - 1 {
            assert(text_lt(b[i], b[b.len() - 1]));
            text_lt_irreflexive(a.last());
            if j < a.len() - 1 {
                assert(text_lt(a[j], a[a.len() - 1]));
                text_lt_transitive(a[j], a[a.len() - 1], a[j]);
                text_lt_irreflexive(a[j]);
            }
        }
        assert(a.last() == b.last());
        let x = a.drop_last();
        let y = b.drop_last();
        assert forall|p: int, q: int|
            #![trigger x[p], x[q]]
            0 <= p < q < x.len() implies text_lt(x[p], x[q]) by {
            assert(x[p] == a[p] && x[q] == a[q]);
        }
        assert forall|p: int, q: int|
            #![trigger y[p], y[q]]
            0 <= p < q < y.len() implies text_lt(y[p], y[q]) by {
            assert(y[p] == b[p] && y[q] == b[q]);
        }
        lemma_drop_last_set(a);
        lemma_drop_last_set(b);
        lemma_increasing_unique(x, y);
        assert(a =~= x.push(a.last()));
        assert(b =~= y.push(b.last()));
    }
}

/// Dropping the last of increasing texts takes it out of their set.
proof fn lemma_drop_last_set(a: Seq<Text>)
    requires
        increasing(a),
        a.len() > 0,
    ensures
        a.drop_last().to_set() == a.to_set().remove(a.last()),
{
    let x = a.drop_last();
    assert forall|t: Text| x.to_set().contains(t) <==> a.to_set().remove(a.last()).contains(t) by {
        if x.to_set().contains(t) {
            let i = choose|i: int| 0 <= i < x.len() && x[i] == t;
            assert(a[i] == t);
            assert(text_lt(a[i], a[a.len() - 1]));
            text_lt_irreflexive(t);
        }
        if a.to_set().remove(a.last()).contains(t) {
            let i = choose|i: int| 0 <= i < a.len() && a[i] == t;
            assert(x[i] == t);
        }
    }
    assert(x.to_set() =~= a.to_set().remove(a.last()));
}

/// The manifests of a blob are finitely many.
pub proof fn lemma_manifests_finite(s: Set<(Text, Text, Text)>, k: (Text, Text))
    requires
        s.finite(),
    ensures
        manifests_of(s, k).finite(),
{
    let f = |t: (Text, Text, Text)| t.2;
    s.lemma_map_finite(f);
    assert forall|m: Text| manifests_of(s, k).contains(m) implies s.map(f).contains(m) by {
        assert(s.contains((k.0, k.1, m)));
        assert(f((k.0, k.1, m)) == m);
    }
    assert(manifests_of(s, k).subset_of(s.map(f)));
    vstd::set_lib::lemma_set_subset_finite(s.map(f), manifests_of(s, k));
}

/// What a blob's ordered list holds.
pub proof fn lemma_list_holds(s: Set<(Text, Text, Text)>, k: (Text, Text), m: Text)
    requires
        s.finite(),
    ensures
        backrefs_at(backref_lists(s), k).contains(m) <==> s.contains((k.0, k.1, m)),
{
    lemma_manifests_finite(s, k);
    lemma_sorted_texts(manifests_of(s, k));
    let q = sorted_texts(manifests_of(s, k));
    if q.contains(m) {
        assert(q.to_set().contains(m));
        assert(manifests_of(s, k).contains(m));
        assert(has_manifest(s, k));
    }
    if s.contains((k.0, k.1, m)) {
        assert(has_manifest(s, k));
        assert(manifests_of(s, k).contains(m));
        assert(q.to_set().contains(m));
    }
}

/// What recording edges does to one blob's list.
pub proof fn lemma_with_backrefs_at(
    m: Map<(Text, Text), Seq<Text>>,
    repo: Text,
    manifest: Text,
    blobs: Seq<Text>,
    k: (Text, Text),
)
    ensures
        ({
            let r = with_backrefs(m, repo, manifest, blobs);
            let touched = k.0 == repo && blobs.contains(k.1);
            &&& r.contains_key(k) <==> m.contains_key(k) || touched
            &&& backrefs_at(r, k) == (if touched && !backrefs_at(m, k).contains(manifest) {
                backrefs_at(m, k).push(manifest)
            } else {
                backrefs_at(m, k)
            })
        }),
    decreases blobs.len(),
{
    if blobs.len() > 0 {
        let init = blobs.drop_last();
        let last = blobs.last();
        lemma_with_backrefs_at(m, repo, manifest, init, k);
        assert(blobs.contains(k.1) <==> init.contains(k.1) || last == k.1) by {
            if blobs.contains(k.1) {
                let i = choose|i: int| 0 <= i < blobs.len() && blobs[i] == k.1;
                if i < init.len() {
                    assert(init[i] == k.1);
                }
            }
            if init.contains(k.1) {
                let i = choose|i: int| 0 <= i < init.len() && init[i] == k.1;
                assert(blobs[i] == k.1);
            }
            assert(blobs[blobs.len() - 1] == last);
        }
        let mid = with_backrefs(m, repo, manifest, init);
        let list = backrefs_at(m, k);
        assert(list.push(manifest)[list.len() as int] == manifest);
        assert(list.push(manifest).contains(manifest));
    }
}

/// Putting edges keeps the indexes in step, and records them in the lists.
pub proof fn lemma_with_edges(x: Raw, repo: Text, manifest: Text, blobs: Seq<Text>)
    requires
        indexed(x),
    ensures
        indexed(with_edges(x, repo, manifest, blobs)),
        backref_lists(with_edges(x, repo, manifest, blobs).backrefs) == in_order(
            with_backrefs(backref_lists(x.backrefs), repo, manifest, blobs),
        ),
{
    let y = with_edges(x, repo, manifest, blobs);
    let added = blobs.to_set().map(|b: Text| (repo, b, manifest));
    vstd::seq_lib::seq_to_set_is_finite(blobs);
    blobs.to_set().lemma_map_finite(|b: Text| (repo, b, manifest));
    assert(y.backrefs =~= x.backrefs.union(added)) by {
        assert forall|k: (Text, Text, Text)|
            y.backrefs.contains(k) <==> x.backrefs.union(added).contains(k) by {
            if k.0 == repo && k.2 == manifest && blobs.contains(k.1) {
                assert(blobs.to_set().contains(k.1));
                assert((repo, k.1, manifest) == k);
            }
            if added.contains(k) {
                let b = choose|b: Text| blobs.to_set().contains(b) && (repo, b, manifest) == k;
                assert(blobs.contains(b));
            }
        }
    }
    let left = backref_lists(y.backrefs);
    let base = backref_lists(x.backrefs);
    let right = in_order(with_backrefs(base, repo, manifest, blobs));
    assert forall|k: (Text, Text)|
        #![trigger left.contains_key(k)]
        left.contains_key(k) == right.contains_key(k) && (left.contains_key(k) ==> left[k]
            == right[k]) by {
        lemma_with_backrefs_at(base, repo, manifest, blobs, k);
        let touched = k.0 == repo && blobs.contains(k.1);
        assert(left.contains_key(k) == right.contains_key(k)) by {
            if has_manifest(x.backrefs, k) {
                let m = choose|m: Text| x.backrefs.contains((k.0, k.1, m));
                assert(y.backrefs.contains((k.0, k.1, m)));
            }
            if touched {
                assert(y.backrefs.contains((k.0, k.1, manifest)));
            }
            if has_manifest(y.backrefs, k) {
                let m = choose|m: Text| y.backrefs.contains((k.0, k.1, m));
                if x.backrefs.contains((k.0, k.1, m)) {
                    assert(has_manifest(x.backrefs, k));
                }
            }
        }
        let now = backrefs_at(with_backrefs(base, repo, manifest, blobs), k);
        let was = backrefs_at(base, k);
        assert(now.to_set() =~= manifests_of(y.backrefs, k)) by {
            assert forall|m: Text| now.to_set().contains(m) <==> manifests_of(
                y.backrefs,
                k,
            ).contains(m) by {
                lemma_list_holds(x.backrefs, k, m);
                lemma_list_holds(x.backrefs, k, manifest);
                if touched && !was.contains(manifest) {
                    let longer = was.push(manifest);
                    if longer.contains(m) {
                        let i = choose|i: int| 0 <= i < longer.len() && longer[i] == m;
                        if i < was.len() {
                            assert(was[i] == m);
                        }
                    }
                    if was.contains(m) {
                        let i = choose|i: int| 0 <= i < was.len() && was[i] == m;
                        assert(longer[i] == m);
                    }
                    assert(longer[was.len() as int] == manifest);
                }
            }
        }
    }
    assert(left =~= right);
}

/// Dropping a manifest's edges keeps the indexes in step, and drops it from the
/// lists.
pub proof fn lemma_without_edges(x: Raw, repo: Text, manifest: Text, blobs: Seq<Text>)
    requires
        indexed(x),
        forall|b: Text|
            #![trigger x.edges.contains((repo, manifest, b))]
            blobs.contains(b) <==> x.edges.contains((repo, manifest, b)),
    ensures
        indexed(without_edges(x, repo, manifest, blobs)),
        backref_lists(without_edges(x, repo, manifest, blobs).backrefs) == in_order(
            without_backrefs(backref_lists(x.backrefs), repo, manifest),
        ),
{
    let y = without_edges(x, repo, manifest, blobs);
    assert(y.backrefs.subset_of(x.backrefs));
    vstd::set_lib::lemma_set_subset_finite(x.backrefs, y.backrefs);
    assert forall|r: Text, b: Text, m: Text|
        #![trigger y.backrefs.contains((r, b, m))]
        y.backrefs.contains((r, b, m)) <==> x.backrefs.contains((r, b, m)) && !(r == repo && m
            == manifest) by {
        if r == repo && m == manifest && x.backrefs.contains((r, b, m)) {
            assert(x.edges.contains((repo, manifest, b)));
        }
    }
    assert forall|r: Text, m: Text, b: Text|
        #![trigger y.edges.contains((r, m, b))]
        y.edges.contains((r, m, b)) <==> y.backrefs.contains((r, b, m)) by {
        assert(x.edges.contains((r, m, b)) <==> x.backrefs.contains((r, b, m)));
    }
    let left = backref_lists(y.backrefs);
    let base = backref_lists(x.backrefs);
    let right = in_order(without_backrefs(base, repo, manifest));
    assert forall|k: (Text, Text)|
        #![trigger left.contains_key(k)]
        left.contains_key(k) == right.contains_key(k) && (left.contains_key(k) ==> left[k]
            == right[k]) by {
        let list = backrefs_at(base, k);
        let now = if k.0 == repo {
            without(list, manifest)
        } else {
            list
        };
        assert forall|m: Text| now.contains(m) <==> y.backrefs.contains((k.0, k.1, m)) by {
            lemma_list_holds(x.backrefs, k, m);
            lemma_without_member(list, m, manifest);
        }
        assert(now.to_set() =~= manifests_of(y.backrefs, k));
        if has_manifest(y.backrefs, k) {
            let m = choose|m: Text| y.backrefs.contains((k.0, k.1, m));
            assert(now.contains(m));
            assert(x.backrefs.contains((k.0, k.1, m)));
            assert(has_manifest(x.backrefs, k));
        }
        if now.len() > 0 {
            assert(now.contains(now[0]));
            assert(has_manifest(y.backrefs, k));
        }
        if base.contains_key(k) && k.0 != repo {
            let m = choose|m: Text| x.backrefs.contains((k.0, k.1, m));
            assert(y.backrefs.contains((k.0, k.1, m)));
        }
    }
    assert(left =~= right);
}

/// Putting a tag keeps the indexes in step.
pub proof fn lemma_with_tag(x: Raw, repo: Text, tag: Text, digest: Text, media_type: Text)
    requires
        indexed(x),
    ensures
        indexed(with_tag(x, repo, tag, digest, media_type, digest_at(x, (repo, tag)))),
{
    let y = with_tag(x, repo, tag, digest, media_type, digest_at(x, (repo, tag)));
    assert forall|r: Text, d: Text, t: Text|
        #![trigger y.tags_of.contains((r, d, t))]
        y.tags_of.contains((r, d, t)) <==> y.tags.contains_key((r, t)) && y.tags[(r, t)].0 == d by {
        assert(x.tags_of.contains((r, d, t)) <==> x.tags.contains_key((r, t)) && x.tags[(r, t)].0
            == d);
    }
}

/// Dropping a digest's tags keeps the indexes in step.
pub proof fn lemma_without_tags(x: Raw, repo: Text, digest: Text, tags: Seq<Text>)
    requires
        indexed(x),
        forall|t: Text|
            #![trigger x.tags_of.contains((repo, digest, t))]
            tags.contains(t) <==> x.tags_of.contains((repo, digest, t)),
    ensures
        indexed(without_tags(x, repo, digest, tags)),
        without_tags(x, repo, digest, tags).tags == kept(
            x.tags,
            |k: (Text, Text), v: (Text, Text)| !(k.0 == repo && v.0 == digest),
        ),
{
    let y = without_tags(x, repo, digest, tags);
    assert forall|k: (Text, Text)|
        #![trigger y.tags.contains_key(k)]
        y.tags.contains_key(k) <==> x.tags.contains_key(k) && !(k.0 == repo && x.tags[k].0
            == digest) by {
        assert(x.tags_of.contains((repo, digest, k.1)) <==> x.tags.contains_key((repo, k.1))
            && x.tags[(repo, k.1)].0 == digest);
    }
    assert forall|r: Text, d: Text, t: Text|
        #![trigger y.tags_of.contains((r, d, t))]
        y.tags_of.contains((r, d, t)) <==> y.tags.contains_key((r, t)) && y.tags[(r, t)].0 == d by {
        assert(x.tags_of.contains((r, d, t)) <==> x.tags.contains_key((r, t)) && x.tags[(r, t)].0
            == d);
        assert(x.tags_of.contains((repo, digest, t)) <==> x.tags.contains_key((repo, t))
            && x.tags[(repo, t)].0 == digest);
    }
    assert(y.tags =~= kept(
        x.tags,
        |k: (Text, Text), v: (Text, Text)| !(k.0 == repo && v.0 == digest),
    ));
}

/// Dropping a referrer keeps the indexes in step.
pub proof fn lemma_without_referrer(x: Raw, repo: Text, subject: Text, referrer: Text)
    requires
        indexed(x),
    ensures
        indexed(
            without_referrer(x, repo, subject, referrer, type_at(x, (repo, subject, referrer))),
        ),
{
    let k = (repo, subject, referrer);
    let y = without_referrer(x, repo, subject, referrer, type_at(x, k));
    assert forall|r: Text, s: Text, t: Text, f: Text|
        #![trigger y.typed.contains((r, s, t, f))]
        y.typed.contains((r, s, t, f)) <==> y.referrers.contains_key((r, s, f))
            && artifact_type_of(y.referrers[(r, s, f)]) == Some(t) by {
        assert(x.typed.contains((r, s, t, f)) <==> x.referrers.contains_key((r, s, f))
            && artifact_type_of(x.referrers[(r, s, f)]) == Some(t));
        if (r, s, f) == k {
            assert(x.types.contains_key(k) <==> x.referrers.contains_key(k) && artifact_type_of(
                x.referrers[k],
            ) is Some);
            if x.types.contains_key(k) {
                assert(artifact_type_of(x.referrers[k]) == Some(x.types[k]));
            }
        }
    }
    assert forall|r: Text, f: Text, s: Text|
        #![trigger y.subjects.contains((r, f, s))]
        y.subjects.contains((r, f, s)) <==> y.referrers.contains_key((r, s, f)) by {
        assert(x.subjects.contains((r, f, s)) <==> x.referrers.contains_key((r, s, f)));
    }
    assert forall|j: (Text, Text, Text)|
        #![trigger y.types.contains_key(j)]
        y.types.contains_key(j) <==> y.referrers.contains_key(j) && artifact_type_of(
            y.referrers[j],
        ) is Some by {
        assert(x.types.contains_key(j) <==> x.referrers.contains_key(j) && artifact_type_of(
            x.referrers[j],
        ) is Some);
    }
    assert forall|j: (Text, Text, Text)| #![trigger y.types[j]] y.types.contains_key(j) implies
        artifact_type_of(y.referrers[j]) == Some(y.types[j]) by {
        assert(x.types[j] == y.types[j]);
    }
}

/// Putting a referrer that is not there keeps the indexes in step.
pub proof fn lemma_with_referrer(
    x: Raw,
    repo: Text,
    subject: Text,
    referrer: Text,
    descriptor: Seq<u8>,
)
    requires
        indexed(x),
        !x.referrers.contains_key((repo, subject, referrer)),
    ensures
        indexed(with_referrer(x, repo, subject, referrer, descriptor)),
{
    let k = (repo, subject, referrer);
    let y = with_referrer(x, repo, subject, referrer, descriptor);
    assert(!x.types.contains_key(k));
    assert forall|r: Text, s: Text, t: Text, f: Text|
        #![trigger y.typed.contains((r, s, t, f))]
        y.typed.contains((r, s, t, f)) <==> y.referrers.contains_key((r, s, f))
            && artifact_type_of(y.referrers[(r, s, f)]) == Some(t) by {
        assert(x.typed.contains((r, s, t, f)) <==> x.referrers.contains_key((r, s, f))
            && artifact_type_of(x.referrers[(r, s, f)]) == Some(t));
    }
    assert forall|r: Text, f: Text, s: Text|
        #![trigger y.subjects.contains((r, f, s))]
        y.subjects.contains((r, f, s)) <==> y.referrers.contains_key((r, s, f)) by {
        assert(x.subjects.contains((r, f, s)) <==> x.referrers.contains_key((r, s, f)));
    }
    assert forall|j: (Text, Text, Text)|
        #![trigger y.types.contains_key(j)]
        y.types.contains_key(j) <==> y.referrers.contains_key(j) && artifact_type_of(
            y.referrers[j],
        ) is Some by {
        assert(x.types.contains_key(j) <==> x.referrers.contains_key(j) && artifact_type_of(
            x.referrers[j],
        ) is Some);
    }
    assert forall|j: (Text, Text, Text)| #![trigger y.types[j]] y.types.contains_key(j) implies
        artifact_type_of(y.referrers[j]) == Some(y.types[j]) by {
        if j != k {
            assert(x.types[j] == y.types[j]);
            assert(x.types.contains_key(j));
        }
    }
}

/// `subjects` names `s`.
pub open spec fn names_subject(subjects: Seq<(Text, Option<Text>)>, s: Text) -> bool {
    exists|i: int| #![trigger subjects[i]] 0 <= i < subjects.len() && subjects[i].0 == s
}

/// Dropping a referrer from some of its subjects keeps the indexes in step.
pub proof fn lemma_without_subjects(
    x: Raw,
    repo: Text,
    referrer: Text,
    subjects: Seq<(Text, Option<Text>)>,
)
    requires
        indexed(x),
        forall|i: int|
            #![trigger subjects[i]]
            0 <= i < subjects.len() ==> subjects[i].1 == type_at(
                x,
                (repo, subjects[i].0, referrer),
            ),
    ensures
        ({
            let y = without_subjects(x, repo, referrer, subjects);
            &&& indexed(y)
            &&& forall|k: (Text, Text, Text)| #[trigger]
                y.referrers.contains_key(k) <==> x.referrers.contains_key(k) && !(k.0 == repo
                    && k.2 == referrer && names_subject(subjects, k.1))
            &&& forall|k: (Text, Text, Text)| #[trigger]
                y.referrers.contains_key(k) ==> y.referrers[k] == x.referrers[k]
            &&& y == (Raw {
                referrers: y.referrers,
                subjects: y.subjects,
                types: y.types,
                typed: y.typed,
                ..x
            })
        }),
    decreases subjects.len(),
{
    if subjects.len() > 0 {
        let init = subjects.drop_last();
        let (s, old) = subjects.last();
        assert forall|i: int| #![trigger init[i]] 0 <= i < init.len() implies init[i].1 == type_at(
            x,
            (repo, init[i].0, referrer),
        ) by {
            assert(init[i] == subjects[i]);
        }
        lemma_without_subjects(x, repo, referrer, init);
        let mid = without_subjects(x, repo, referrer, init);
        let k = (repo, s, referrer);
        assert(subjects[subjects.len() - 1] == (s, old));
        assert(old == type_at(x, k));
        // A subject named twice is already gone, with its type.
        if mid.referrers.contains_key(k) {
            assert(mid.referrers[k] == x.referrers[k]);
            assert(mid.types.contains_key(k) <==> mid.referrers.contains_key(k)
                && artifact_type_of(mid.referrers[k]) is Some);
            assert(x.types.contains_key(k) <==> x.referrers.contains_key(k) && artifact_type_of(
                x.referrers[k],
            ) is Some);
            if x.types.contains_key(k) {
                assert(artifact_type_of(x.referrers[k]) == Some(x.types[k]));
                assert(artifact_type_of(mid.referrers[k]) == Some(mid.types[k]));
            }
            assert(type_at(mid, k) == old);
            lemma_without_referrer(mid, repo, s, referrer);
        } else {
            assert(!mid.types.contains_key(k));
            lemma_without_referrer(mid, repo, s, referrer);
            let y = without_referrer(mid, repo, s, referrer, old);
            let z = without_referrer(mid, repo, s, referrer, None);
            if let Some(t) = old {
                assert(!mid.typed.contains((repo, s, t, referrer)));
                assert(y.typed =~= z.typed);
            }
            assert(y =~= z);
        }
        assert forall|n: Text| names_subject(subjects, n) <==> names_subject(init, n) || n == s by {
            if names_subject(subjects, n) {
                let i = choose|i: int|
                    #![trigger subjects[i]]
                    0 <= i < subjects.len() && subjects[i].0 == n;
                if i < init.len() {
                    assert(init[i].0 == n);
                }
            }
            if names_subject(init, n) {
                let i = choose|i: int| #![trigger init[i]] 0 <= i < init.len() && init[i].0 == n;
                assert(subjects[i].0 == n);
            }
            assert(subjects[subjects.len() - 1].0 == s);
        }
    }
}

} // verus!
