//! What holds across the backend's operations.

use crate::cache::{blob_key, content_at, kept_with, put_content_is_found};
use crate::digest::{canonical, canonical_parses_back, digest_text};
use crate::filter::recorded_blobs_are_never_denied;
use crate::fs_storage::blobs::checksum_of;
use crate::fs_storage::gc::{is_garbage, live_blob_is_never_collected};
use crate::fs_storage::index::index_tag;
use crate::fs_storage::lifecycle::{checksum_op, gc_entered, removal_op, unlocated, FsStorage};
use crate::fs_storage::manifests::{
    digest_texts, linked_descriptor, manifest_op, target, target_of, ManifestLinks, Target,
};
use crate::gc::GcModel;
use crate::json::JsonModel;
use crate::metadata::model::{apply_op, backrefs_at, Op, Tables};
use crate::metadata::state_laws::put_manifest_is_found;
use crate::metadata::store::MetadataStore;
use crate::text::Text;
use vstd::multiset::Multiset;
use vstd::prelude::*;

verus! {

/// The index once an optional mutation is recorded.
pub open spec fn recorded<M: MetadataStore>(meta: &M, op: Option<Op>) -> Tables {
    match op {
        Some(op) => meta.after(op),
        None => meta.tables(),
    }
}

/// A stored blob has its own size and checksum on record, whatever was there
/// before.
pub proof fn stored_blob_is_on_record<M: MetadataStore>(
    meta: &M,
    repo: Text,
    digest: Text,
    data: Seq<u8>,
)
    ensures
        ({
            let op = checksum_op(meta.tables(), repo, digest, Some(checksum_of(data)));
            let m = recorded(meta, op).checksums;
            m.contains_key((repo, digest)) && m[(repo, digest)] == checksum_of(data)
        }),
{
    if let Some(op) = checksum_op(meta.tables(), repo, digest, Some(checksum_of(data))) {
        meta.mutation_shows(op);
    }
}

/// A mounted blob has the record of its source.
pub proof fn mounted_blob_has_the_record_of_its_source<M: MetadataStore>(
    meta: &M,
    from: Text,
    to: Text,
    digest: Text,
)
    requires
        meta.tables().checksums.contains_key((from, digest)),
    ensures
        ({
            let c = meta.tables().checksums[(from, digest)];
            let m = recorded(meta, checksum_op(meta.tables(), to, digest, Some(c))).checksums;
            m.contains_key((to, digest)) && m[(to, digest)] == c
        }),
{
    let c = meta.tables().checksums[(from, digest)];
    if let Some(op) = checksum_op(meta.tables(), to, digest, Some(c)) {
        meta.mutation_shows(op);
    }
}

/// A blob that left has nothing on record, and no copy of it is located in the
/// repository it left.
pub proof fn removed_blob_is_forgotten<M: MetadataStore>(
    meta: &M,
    locations: Map<Text, Text>,
    repo: Text,
    digest: Text,
)
    ensures
        !recorded(meta, removal_op(meta.tables(), repo, digest)).checksums.contains_key(
            (repo, digest),
        ),
        unlocated(locations, repo, digest).contains_key(digest) ==> unlocated(
            locations,
            repo,
            digest,
        )[digest] != repo,
{
    if let Some(op) = removal_op(meta.tables(), repo, digest) {
        meta.mutation_shows(op);
    }
}

/// What was stored within the cache's limits is read back from it, byte for byte.
pub proof fn cached_content_is_read_back(
    s: Seq<(Text, Seq<u8>)>,
    limit: usize,
    budget: usize,
    k: Text,
    data: Seq<u8>,
)
    requires
        data.len() <= limit,
        data.len() <= budget,
    ensures
        content_at(kept_with(s, limit, budget, k, data), k) == Some(data),
{
    put_content_is_found(s, k, data, budget - data.len());
}

/// A pushed manifest is what its tag and its digest lead to, whatever the index on
/// disk says.
pub proof fn pushed_manifest_resolves<M: MetadataStore>(
    meta: &M,
    repo: Text,
    tag: Option<Text>,
    digest: (Text, Text),
    media_type: Text,
    links: ManifestLinks,
    index: JsonModel,
)
    requires
        canonical(digest),
        tag matches Some(name) ==> !name.contains(':'),
    ensures
        ({
            let after = meta.after(manifest_op(repo, tag, digest, media_type, links));
            let found = Target::Manifest { digest, media_type };
            &&& target(after, repo, digest_text(digest), index) == found
            &&& tag matches Some(name) ==> target(after, repo, name, index) == found
        }),
{
    let op = manifest_op(repo, tag, digest, media_type, links);
    put_manifest_is_found(meta.tables(), op);
    meta.mutation_shows(op);
    canonical_parses_back(digest);
    let text = digest_text(digest);
    reveal_strlit(":");
    assert(text[digest.0.len() as int] == ':');
    assert(text.contains(':'));
}

/// A pushed manifest with a subject is on record as its referrer, under a
/// descriptor that links the subject.
pub proof fn pushed_referrer_is_listed<M: MetadataStore>(
    meta: &M,
    repo: Text,
    tag: Option<Text>,
    digest: (Text, Text),
    media_type: Text,
    links: ManifestLinks,
)
    requires
        links.subject matches Some(s) && linked_descriptor(s.0@, s.1@) is Some,
    ensures
        ({
            let after = meta.after(manifest_op(repo, tag, digest, media_type, links));
            let s = links.subject->0;
            let k = (repo, digest_text(s.0@), digest_text(digest));
            after.referrers.contains_key(k) && Some(after.referrers[k]) == linked_descriptor(
                s.0@,
                s.1@,
            )
        }),
{
    let op = manifest_op(repo, tag, digest, media_type, links);
    put_manifest_is_found(meta.tables(), op);
    meta.mutation_shows(op);
}

/// From the moment a manifest is recorded, no sweep collects it or anything that
/// it references.
pub proof fn pushed_manifest_keeps_its_references<M: MetadataStore>(
    meta: &M,
    m: GcModel,
    repo: Text,
    tag: Option<Text>,
    digest: (Text, Text),
    media_type: Text,
    links: ManifestLinks,
    now: u64,
)
    ensures
        ({
            let after = meta.after(manifest_op(repo, tag, digest, media_type, links));
            let refs = digest_texts(links.references@);
            &&& !is_garbage(m, after, (repo, digest_text(digest)), now)
            &&& forall|i: int|
                #![trigger refs[i]]
                0 <= i < refs.len() ==> !is_garbage(m, after, (repo, refs[i]), now)
        }),
{
    let op = manifest_op(repo, tag, digest, media_type, links);
    let plain = apply_op(meta.tables(), op);
    put_manifest_is_found(meta.tables(), op);
    meta.mutation_shows(op);
    let after = meta.after(op);
    let refs = digest_texts(links.references@);
    live_blob_is_never_collected(m, after, (repo, digest_text(digest)), now);
    assert forall|i: int| 0 <= i < refs.len() implies !is_garbage(
        m,
        after,
        (repo, #[trigger] refs[i]),
        now,
    ) by {
        let k = (repo, refs[i]);
        assert(backrefs_at(plain.backrefs, k).contains(digest_text(digest)));
        assert(backrefs_at(after.backrefs, k).contains(digest_text(digest)));
        live_blob_is_never_collected(m, after, k, now);
    }
}

/// A blob that enters unreferenced is not collected before a whole grace period
/// has passed.
pub proof fn new_blob_outlives_the_grace_period(
    m: GcModel,
    t: Tables,
    repo: Text,
    digest: Text,
    entered: u64,
    now: u64,
)
    requires
        m.enabled,
        m.delay > 0,
        now < entered + m.delay,
    ensures
        ({
            let after = gc_entered(m, t, repo, digest, entered);
            !is_garbage(after, t, (repo, digest), now)
        }),
{
}

/// Once a manifest is deleted, the tags that pointed at it and its own digest are
/// no longer resolved from the record: only the index on disk could name them.
pub proof fn deleted_manifest_does_not_resolve<M: MetadataStore>(
    meta: &M,
    repo: Text,
    digest: (Text, Text),
    tag: Text,
    index: JsonModel,
)
    requires
        !tag.contains(':'),
        meta.tables().tags.contains_key((repo, tag)),
        meta.tables().tags[(repo, tag)].0 == digest_text(digest),
    ensures
        ({
            let after = meta.after(Op::DeleteManifest { repo, digest: digest_text(digest) });
            &&& !after.media_types.contains_key((repo, digest_text(digest)))
            &&& target(after, repo, tag, index) == (match index_tag(index, tag) {
                Some(v) => target_of(v.0, v.1),
                None => Target::Missing,
            })
        }),
{
    meta.mutation_shows(Op::DeleteManifest { repo, digest: digest_text(digest) });
}

/// No stored blob is denied: where every blob of `keys` is recorded in the
/// presence filter, as often as it occurs, none of them is answered as absent, and
/// it stays so when a blob enters, when a recorded one leaves, and whatever leaves
/// the filter alone.
pub proof fn stored_blobs_are_never_denied<M: MetadataStore>(
    before: &FsStorage<M>,
    after: &FsStorage<M>,
    keys: Multiset<Text>,
    repo: Text,
    digest: Text,
)
    requires
        before.presence.covers(keys),
    ensures
        keys.contains(blob_key(repo, digest)) ==> before.presence.may_hold(blob_key(repo, digest)),
        after.presence == before.presence ==> after.presence.covers(keys),
        after.presence.has_recorded(&before.presence, blob_key(repo, digest))
            ==> after.presence.covers(keys.insert(blob_key(repo, digest))),
        keys.contains(blob_key(repo, digest)) && after.presence.is_disabled()
            == before.presence.is_disabled() && after.presence.has_dropped(
            &before.presence,
            blob_key(repo, digest),
        ) ==> after.presence.covers(keys.remove(blob_key(repo, digest))),
{
    recorded_blobs_are_never_denied(
        &before.presence,
        &after.presence,
        keys,
        blob_key(repo, digest),
    );
}

} // verus!
