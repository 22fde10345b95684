//! What the index holds, as maps, and what each mutation does to it.

use crate::metadata::BlobChecksum;
use crate::table::kept;
use crate::text::Text;
use vstd::prelude::*;

verus! {

/// The contents of the index.
#[verifier::ext_equal]
pub struct Tables {
    /// `(repo, tag)` to `(digest, media type)`.
    pub tags: Map<(Text, Text), (Text, Text)>,
    /// `(repo, digest)` to media type.
    pub media_types: Map<(Text, Text), Text>,
    /// `(repo, subject, referrer)` to descriptor.
    pub referrers: Map<(Text, Text, Text), Seq<u8>>,
    /// `(repo, blob)` to the manifests that reference it.
    pub backrefs: Map<(Text, Text), Seq<Text>>,
    /// `(repo, digest)` to checksum.
    pub checksums: Map<(Text, Text), BlobChecksum>,
}

/// A mutation over models.
pub enum Op {
    PutManifest {
        repo: Text,
        digest: Text,
        media_type: Text,
        tag: Option<Text>,
        references: Seq<Text>,
        referrer: Option<(Text, Seq<u8>)>,
    },
    PutBackrefs { repo: Text, manifest: Text, blobs: Seq<Text> },
    DeleteManifest { repo: Text, digest: Text },
    PutReferrer { repo: Text, subject: Text, referrer: Text, descriptor: Seq<u8> },
    PutChecksum { repo: Text, digest: Text, checksum: BlobChecksum },
    DeleteBlob { repo: Text, digest: Text },
}

/// An index that holds nothing.
pub open spec fn no_tables() -> Tables {
    Tables {
        tags: Map::empty(),
        media_types: Map::empty(),
        referrers: Map::empty(),
        backrefs: Map::empty(),
        checksums: Map::empty(),
    }
}

/// The manifests recorded against a blob.
pub open spec fn backrefs_at(m: Map<(Text, Text), Seq<Text>>, k: (Text, Text)) -> Seq<Text> {
    if m.contains_key(k) {
        m[k]
    } else {
        Seq::empty()
    }
}

/// `manifest` references `blob`: it joins the blob's manifests, once, at the end.
pub open spec fn with_backref(
    m: Map<(Text, Text), Seq<Text>>,
    repo: Text,
    manifest: Text,
    blob: Text,
) -> Map<(Text, Text), Seq<Text>> {
    if backrefs_at(m, (repo, blob)).contains(manifest) {
        m
    } else {
        m.insert((repo, blob), backrefs_at(m, (repo, blob)).push(manifest))
    }
}

/// `manifest` references every one of `blobs`.
pub open spec fn with_backrefs(
    m: Map<(Text, Text), Seq<Text>>,
    repo: Text,
    manifest: Text,
    blobs: Seq<Text>,
) -> Map<(Text, Text), Seq<Text>>
    decreases blobs.len(),
{
    if blobs.len() == 0 {
        m
    } else {
        with_backref(
            with_backrefs(m, repo, manifest, blobs.drop_last()),
            repo,
            manifest,
            blobs.last(),
        )
    }
}

/// `s` without `x`.
pub open spec fn without(s: Seq<Text>, x: Text) -> Seq<Text> {
    s.filter(|m: Text| m != x)
}

/// No blob of `repo` is referenced by `manifest` any more; blobs that nothing
/// references are forgotten.
pub open spec fn without_backrefs(
    m: Map<(Text, Text), Seq<Text>>,
    repo: Text,
    manifest: Text,
) -> Map<(Text, Text), Seq<Text>> {
    Map::new(
        |k: (Text, Text)|
            m.contains_key(k) && (k.0 == repo ==> without(m[k], manifest).len() > 0),
        |k: (Text, Text)|
            if k.0 == repo {
                without(m[k], manifest)
            } else {
                m[k]
            },
    )
}

/// What a mutation does to the index.
pub open spec fn apply_op(t: Tables, op: Op) -> Tables {
    match op {
        Op::PutManifest { repo, digest, media_type, tag, references, referrer } => Tables {
            tags: match tag {
                Some(tag) => t.tags.insert((repo, tag), (digest, media_type)),
                None => t.tags,
            },
            media_types: t.media_types.insert((repo, digest), media_type),
            referrers: match referrer {
                Some(r) => t.referrers.insert((repo, r.0, digest), r.1),
                None => t.referrers,
            },
            backrefs: with_backrefs(t.backrefs, repo, digest, references),
            checksums: t.checksums,
        },
        Op::PutBackrefs { repo, manifest, blobs } => Tables {
            backrefs: with_backrefs(t.backrefs, repo, manifest, blobs),
            ..t
        },
        Op::DeleteManifest { repo, digest } => Tables {
            tags: kept(
                t.tags,
                |k: (Text, Text), v: (Text, Text)| !(k.0 == repo && v.0 == digest),
            ),
            media_types: t.media_types.remove((repo, digest)),
            referrers: kept(
                t.referrers,
                |k: (Text, Text, Text), v: Seq<u8>| !(k.0 == repo && k.2 == digest),
            ),
            backrefs: without_backrefs(t.backrefs, repo, digest),
            checksums: t.checksums.remove((repo, digest)),
        },
        Op::PutReferrer { repo, subject, referrer, descriptor } => Tables {
            referrers: t.referrers.insert((repo, subject, referrer), descriptor),
            ..t
        },
        Op::PutChecksum { repo, digest, checksum } => Tables {
            checksums: t.checksums.insert((repo, digest), checksum),
            ..t
        },
        Op::DeleteBlob { repo, digest } => Tables {
            checksums: t.checksums.remove((repo, digest)),
            ..t
        },
    }
}

/// What a run of mutations does to the index.
pub open spec fn apply_ops(t: Tables, ops: Seq<Op>) -> Tables
    decreases ops.len(),
{
    if ops.len() == 0 {
        t
    } else {
        apply_op(apply_ops(t, ops.drop_last()), ops.last())
    }
}

/// Mutations layered over a base: what they left, and what of the base they
/// removed.
#[verifier::ext_equal]
pub struct Delta {
    pub tables: Tables,
    /// `(repo, digest)` of manifests deleted from the base.
    pub deleted_digests: Set<(Text, Text)>,
    /// `(repo, tag)` of tags that went with a manifest that the delta had put
    /// them at.
    pub deleted_tags: Set<(Text, Text)>,
    /// `(repo, digest)` of checksums deleted from the base.
    pub deleted_checksums: Set<(Text, Text)>,
}

/// A delta that changes nothing.
pub open spec fn no_delta() -> Delta {
    Delta {
        tables: no_tables(),
        deleted_digests: Set::empty(),
        deleted_tags: Set::empty(),
        deleted_checksums: Set::empty(),
    }
}

/// The tags of `repo` at `digest`.
pub open spec fn tags_at(
    tags: Map<(Text, Text), (Text, Text)>,
    repo: Text,
    digest: Text,
) -> Set<(Text, Text)> {
    Set::new(|k: (Text, Text)| tags.contains_key(k) && k.0 == repo && tags[k].0 == digest)
}

/// The delta took this tag of the base away, or the manifest that it is at.
pub open spec fn hides(d: Delta, k: (Text, Text), digest: Text) -> bool {
    d.deleted_digests.contains((k.0, digest)) || d.deleted_tags.contains(k)
}

/// What a mutation does to a delta.
pub open spec fn apply_delta(d: Delta, op: Op) -> Delta {
    Delta {
        tables: apply_op(d.tables, op),
        deleted_digests: match op {
            Op::DeleteManifest { repo, digest } => d.deleted_digests.insert((repo, digest)),
            _ => d.deleted_digests,
        },
        deleted_tags: match op {
            Op::DeleteManifest { repo, digest } => d.deleted_tags.union(
                tags_at(d.tables.tags, repo, digest),
            ),
            _ => d.deleted_tags,
        },
        deleted_checksums: match op {
            Op::DeleteManifest { repo, digest } => d.deleted_checksums.insert((repo, digest)),
            Op::DeleteBlob { repo, digest } => d.deleted_checksums.insert((repo, digest)),
            Op::PutChecksum { repo, digest, checksum } => d.deleted_checksums.remove(
                (repo, digest),
            ),
            _ => d.deleted_checksums,
        },
    }
}

/// What a run of mutations does to a delta.
pub open spec fn apply_deltas(d: Delta, ops: Seq<Op>) -> Delta
    decreases ops.len(),
{
    if ops.len() == 0 {
        d
    } else {
        apply_delta(apply_deltas(d, ops.drop_last()), ops.last())
    }
}

/// The manifests of a base entry that were not deleted since.
pub open spec fn live_manifests(s: Seq<Text>, repo: Text, deleted: Set<(Text, Text)>) -> Seq<Text> {
    s.filter(|m: Text| !deleted.contains((repo, m)))
}

/// `a`, then what `b` has and `a` lacks.
pub open spec fn joined(a: Seq<Text>, b: Seq<Text>) -> Seq<Text>
    decreases b.len(),
{
    if b.len() == 0 {
        a
    } else {
        let j = joined(a, b.drop_last());
        if j.contains(b.last()) {
            j
        } else {
            j.push(b.last())
        }
    }
}

/// The manifests of a blob, base first.
pub open spec fn layered_backrefs(base: Tables, d: Delta, k: (Text, Text)) -> Seq<Text> {
    joined(
        live_manifests(backrefs_at(base.backrefs, k), k.0, d.deleted_digests),
        backrefs_at(d.tables.backrefs, k),
    )
}

/// The base with a delta over it: what was not removed, overridden by what the
/// delta holds.
pub open spec fn overlay(base: Tables, d: Delta) -> Tables {
    Tables {
        tags: kept(
            base.tags,
            |k: (Text, Text), v: (Text, Text)| !hides(d, k, v.0),
        ).union_prefer_right(d.tables.tags),
        media_types: kept(
            base.media_types,
            |k: (Text, Text), v: Text| !d.deleted_digests.contains(k),
        ).union_prefer_right(d.tables.media_types),
        referrers: kept(
            base.referrers,
            |k: (Text, Text, Text), v: Seq<u8>| !d.deleted_digests.contains((k.0, k.2)),
        ).union_prefer_right(d.tables.referrers),
        backrefs: Map::new(
            |k: (Text, Text)| layered_backrefs(base, d, k).len() > 0,
            |k: (Text, Text)| layered_backrefs(base, d, k),
        ),
        checksums: kept(
            base.checksums,
            |k: (Text, Text), v: BlobChecksum|
                !d.deleted_digests.contains(k) && !d.deleted_checksums.contains(k),
        ).union_prefer_right(d.tables.checksums),
    }
}

/// Every blob entry names at least one manifest, each of them once.
pub open spec fn backrefs_ok(m: Map<(Text, Text), Seq<Text>>) -> bool {
    forall|k: (Text, Text)|
        #![trigger m[k]]
        m.contains_key(k) ==> m[k].len() > 0 && m[k].no_duplicates()
}

/// The same manifests for every blob, in whatever order.
pub open spec fn same_backrefs(
    a: Map<(Text, Text), Seq<Text>>,
    b: Map<(Text, Text), Seq<Text>>,
) -> bool {
    &&& a.dom() == b.dom()
    &&& forall|k: (Text, Text), m: Text|
        #![trigger backrefs_at(a, k).contains(m)]
        backrefs_at(a, k).contains(m) <==> backrefs_at(b, k).contains(m)
}

/// The same index, but for the order of a blob's manifests.
pub open spec fn same_index(a: Tables, b: Tables) -> bool {
    &&& a.tags == b.tags
    &&& a.media_types == b.media_types
    &&& a.referrers == b.referrers
    &&& a.checksums == b.checksums
    &&& same_backrefs(a.backrefs, b.backrefs)
}

} // verus!
