//! What a tag, a digest or a subject leads to, over the tables and the fields of
//! the index on disk.

use crate::basic_laws::put_together;
use crate::digest::{digest_parts, digest_text, Digest};
use crate::error::StorageError;
use crate::fs_storage::collect_laws::paths_are_written_out;
use crate::fs_storage::index::{
    first_with_digest, first_with_tag, index_media_type, index_tag, is_current_index, lacks_size,
    upgrade_op,
};
use crate::fs_storage::lifecycle::{op_model, FsStorage};
use crate::fs_storage::listings::{
    described, linking, listed_referrers, named_tags, referrer_source, referrers_tag_text,
    tag_points_at, ReferrerSource,
};
use crate::fs_storage::manifests::{
    answers, blob_paths, digest_texts, first_irregular, is_regular, linked_descriptor, manifest_op,
    path_list, target, ManifestLinks, Stat, Target,
};
use crate::json::{encoded, parsed, JsonModel};
use crate::layout::index::{index_model, media_of, subject_list, tag_list, Fields};
use crate::layout::index_laws::{first_about, index_of, size_on_disk_is_that_of_the_first_entry};
use crate::layout::reference_laws::{
    accessors_read_their_fields, holds, index_lists_its_manifests, media_type_is, names_tag, says,
};
use crate::layout::{digest_of, manifests_in, subject_of, tag_of};
use crate::metadata::model::{Op, Tables};
use crate::metadata::query::{is_referrer_listing, is_tag_listing};
use crate::metadata::store::MetadataStore;
use crate::metadata::{MetaOp, Referrer};
use crate::page::texts;
use crate::text::Text;
use vstd::prelude::*;

verus! {

/// A descriptor links the subject.
pub open spec fn links(e: JsonModel, subject: Text) -> bool {
    e matches JsonModel::Object(o) && o.contains_key("subject"@) && says(
        o["subject"@],
        "digest"@,
        subject,
    )
}

/// Entry `i` is the first that names the tag.
pub open spec fn first_naming(entries: Seq<JsonModel>, i: int, tag: Text) -> bool {
    &&& 0 <= i < entries.len()
    &&& names_tag(entries[i], tag)
    &&& forall|j: int| 0 <= j < i ==> !names_tag(#[trigger] entries[j], tag)
}

/// The first entry about a digest.
proof fn lemma_first_digest(entries: Seq<JsonModel>, d: Text, i: int)
    ensures
        first_about(entries, i, d) ==> first_with_digest(entries, d) == Some(entries[i]),
        (forall|j: int| 0 <= j < entries.len() ==> !says(#[trigger] entries[j], "digest"@, d))
            ==> first_with_digest(entries, d) is None,
    decreases entries.len(),
{
    if entries.len() > 0 {
        let init = entries.drop_last();
        assert forall|j: int| 0 <= j < init.len() implies #[trigger] init[j] == entries[j] by {}
        assert(entries[entries.len() - 1] == entries.last());
        lemma_first_digest(init, d, i);
        if first_about(entries, i, d) {
            if i < init.len() {
                assert(first_about(init, i, d));
            } else {
                assert forall|j: int| 0 <= j < init.len() implies !says(
                    #[trigger] init[j],
                    "digest"@,
                    d,
                ) by {
                    assert(!says(entries[j], "digest"@, d));
                }
            }
        }
        if forall|j: int| 0 <= j < entries.len() ==> !says(#[trigger] entries[j], "digest"@, d) {
            assert forall|j: int| 0 <= j < init.len() implies !says(
                #[trigger] init[j],
                "digest"@,
                d,
            ) by {
                assert(!says(entries[j], "digest"@, d));
            }
            assert(!says(entries[entries.len() - 1], "digest"@, d));
        }
    }
}

/// The first entry that names a tag.
proof fn lemma_first_tag(entries: Seq<JsonModel>, tag: Text, i: int)
    ensures
        first_naming(entries, i, tag) ==> first_with_tag(entries, tag) == Some(entries[i]),
        (forall|j: int| 0 <= j < entries.len() ==> !names_tag(#[trigger] entries[j], tag))
            ==> first_with_tag(entries, tag) is None,
    decreases entries.len(),
{
    if entries.len() > 0 {
        let init = entries.drop_last();
        assert forall|j: int| 0 <= j < init.len() implies #[trigger] init[j] == entries[j] by {}
        assert(entries[entries.len() - 1] == entries.last());
        lemma_first_tag(init, tag, i);
        if first_naming(entries, i, tag) {
            if i < init.len() {
                assert(first_naming(init, i, tag));
            } else {
                assert forall|j: int| 0 <= j < init.len() implies !names_tag(
                    #[trigger] init[j],
                    tag,
                ) by {
                    assert(!names_tag(entries[j], tag));
                }
            }
        }
        if forall|j: int| 0 <= j < entries.len() ==> !names_tag(#[trigger] entries[j], tag) {
            assert forall|j: int| 0 <= j < init.len() implies !names_tag(
                #[trigger] init[j],
                tag,
            ) by {
                assert(!names_tag(entries[j], tag));
            }
            assert(!names_tag(entries[entries.len() - 1], tag));
        }
    }
}

/// The media type that an index gives a manifest is the `mediaType` of the first
/// entry about it, where that is a string.
pub proof fn index_gives_the_media_type_of_the_first_entry(
    index: JsonModel,
    entries: Seq<JsonModel>,
    digest: Text,
    i: int,
    media_type: Text,
)
    requires
        holds(index, "manifests"@, JsonModel::List(entries)),
    ensures
        first_about(entries, i, digest) && says(entries[i], "mediaType"@, media_type)
            ==> index_media_type(index, digest) == Some(media_type),
        first_about(entries, i, digest) && (forall|t: Text|
            !#[trigger] says(entries[i], "mediaType"@, t)) ==> index_media_type(index, digest)
            is None,
        (forall|j: int| 0 <= j < entries.len() ==> !says(#[trigger] entries[j], "digest"@, digest))
            ==> index_media_type(index, digest) is None,
{
    assert(manifests_in(index) == entries);
    lemma_first_digest(entries, digest, i);
    if first_about(entries, i, digest) && index_media_type(index, digest) is Some {
        assert(says(entries[i], "mediaType"@, index_media_type(index, digest)->0));
    }
}

/// What an index gives a tag is the digest of the first entry that names it, with
/// the media type that this entry gives; nothing, where that entry has no digest or
/// none names the tag.
pub proof fn index_gives_a_tag_the_first_entry(
    index: JsonModel,
    entries: Seq<JsonModel>,
    tag: Text,
    i: int,
    digest: Text,
)
    requires
        holds(index, "manifests"@, JsonModel::List(entries)),
    ensures
        first_naming(entries, i, tag) && says(entries[i], "digest"@, digest) ==> (index_tag(
            index,
            tag,
        ) matches Some(v) && v.0 == digest && media_type_is(entries[i], v.1)),
        first_naming(entries, i, tag) && (forall|t: Text|
            !#[trigger] says(entries[i], "digest"@, t)) ==> index_tag(index, tag) is None,
        (forall|j: int| 0 <= j < entries.len() ==> !names_tag(#[trigger] entries[j], tag))
            ==> index_tag(index, tag) is None,
{
    assert(manifests_in(index) == entries);
    lemma_first_tag(entries, tag, i);
    if first_naming(entries, i, tag) {
        let o = entries[i]->Object_0;
        if index_tag(index, tag) is Some {
            assert(says(entries[i], "digest"@, (index_tag(index, tag)->0).0));
        }
        if o.contains_key("mediaType"@) && o["mediaType"@] is Text {
            assert(says(entries[i], "mediaType"@, o["mediaType"@]->Text_0));
        } else {
            assert forall|t: Text| !#[trigger] says(entries[i], "mediaType"@, t) by {}
        }
    }
}

/// A reference leads where the tables say. A digest leads to itself, with the media
/// type on record, else the one that the index gives, else that of an image
/// manifest; a tag on record leads to what it points at, whatever the index says,
/// and another to what the index gives. A malformed digest is refused as such.
pub proof fn reference_leads_where_the_tables_say(
    t: Tables,
    repo: Text,
    reference: Text,
    index: JsonModel,
    d: (Text, Text),
)
    ensures
        reference.contains(':') && digest_parts(reference) is None ==> target(
            t,
            repo,
            reference,
            index,
        ) == Target::BadDigest(reference),
        reference.contains(':') && digest_parts(reference) == Some(d) ==> (target(
            t,
            repo,
            reference,
            index,
        ) matches Target::Manifest { digest, media_type } && digest == d && (if
        t.media_types.contains_key((repo, reference)) {
            media_type == t.media_types[(repo, reference)]
        } else if index_media_type(index, reference) is Some {
            Some(media_type) == index_media_type(index, reference)
        } else {
            media_type == "application/vnd.oci.image.manifest.v1+json"@
        })),
        !reference.contains(':') && t.tags.contains_key((repo, reference)) && digest_parts(
            t.tags[(repo, reference)].0,
        ) == Some(d) ==> target(t, repo, reference, index) == (Target::Manifest {
            digest: d,
            media_type: t.tags[(repo, reference)].1,
        }),
        !reference.contains(':') && t.tags.contains_key((repo, reference)) && digest_parts(
            t.tags[(repo, reference)].0,
        ) is None ==> target(t, repo, reference, index) == Target::BadDigest(
            t.tags[(repo, reference)].0,
        ),
        !reference.contains(':') && !t.tags.contains_key((repo, reference)) ==> (index_tag(
            index,
            reference,
        ) matches Some(v) ==> target(t, repo, reference, index) == (match digest_parts(v.0) {
            Some(x) => Target::Manifest { digest: x, media_type: v.1 },
            None => Target::BadDigest(v.0),
        })),
        !reference.contains(':') && !t.tags.contains_key((repo, reference)) && index_tag(
            index,
            reference,
        ) is None ==> target(t, repo, reference, index) is Missing,
        t.tags.contains_key((repo, reference)) ==> tag_points_at(t, repo, reference, index) == Some(
            t.tags[(repo, reference)].0,
        ),
        !t.tags.contains_key((repo, reference)) ==> (index_tag(index, reference) matches Some(v)
            ==> tag_points_at(t, repo, reference, index) == Some(v.0)),
        !t.tags.contains_key((repo, reference)) && index_tag(index, reference) is None
            ==> tag_points_at(t, repo, reference, index) is None,
{
}

/// A descriptor on disk that links a subject is recorded as its referrer, as it
/// stands, unless it is on record.
pub proof fn linked_descriptor_is_recorded(
    t: Tables,
    repo: Text,
    e: JsonModel,
    subject: Text,
    referrer: Text,
)
    ensures
        links(e, subject) && says(e, "digest"@, referrer) && !t.referrers.contains_key(
            (repo, subject, referrer),
        ) ==> upgrade_op(t, repo, e) == Some(
            Op::PutReferrer { repo, subject, referrer, descriptor: encoded(e) },
        ),
        links(e, subject) && says(e, "digest"@, referrer) && t.referrers.contains_key(
            (repo, subject, referrer),
        ) ==> upgrade_op(t, repo, e) is None,
        (forall|s: Text| !#[trigger] links(e, s)) || (forall|s: Text|
            !#[trigger] says(e, "digest"@, s)) ==> upgrade_op(t, repo, e) is None,
{
    accessors_read_their_fields(e, subject);
    accessors_read_their_fields(e, referrer);
    if upgrade_op(t, repo, e) is Some {
        assert(links(e, subject_of(e)->0));
        assert(says(e, "digest"@, digest_of(e)->0));
    }
}

/// The size of a manifest is to be found where it is on record and the first entry
/// about it on disk has none.
pub proof fn sizes_are_wanted_where_none_is_on_disk(
    t: Tables,
    repo: Text,
    top: Fields,
    entries: Seq<JsonModel>,
    d: Text,
)
    requires
        top.contains_key("manifests"@),
        top["manifests"@] == JsonModel::List(entries),
    ensures
        lacks_size(t, repo, Some(JsonModel::Object(top)), d) <==> t.media_types.contains_key(
            (repo, d),
        ) && !(exists|i: int, v: JsonModel| #[trigger]
            first_about(entries, i, d) && #[trigger] holds(entries[i], "size"@, v)),
        lacks_size(t, repo, None, d) <==> t.media_types.contains_key((repo, d)),
{
    size_on_disk_is_that_of_the_first_entry(entries, d);
    size_on_disk_is_that_of_the_first_entry(Seq::empty(), d);
}

/// The tags of an index are those that its entries name.
pub proof fn tags_of_an_index_are_those_named(entries: Seq<JsonModel>, tag: Text)
    ensures
        named_tags(entries).contains(tag) <==> exists|i: int|
            0 <= i < entries.len() && names_tag(#[trigger] entries[i], tag),
{
    if named_tags(entries).contains(tag) {
        let i = choose|i: int|
            #![trigger entries[i]]
            0 <= i < entries.len() && tag_of(entries[i]) == Some(tag);
        assert(names_tag(entries[i], tag));
    }
    if exists|i: int| 0 <= i < entries.len() && names_tag(#[trigger] entries[i], tag) {
        let i = choose|i: int| 0 <= i < entries.len() && names_tag(#[trigger] entries[i], tag);
        assert(tag_of(entries[i]) == Some(tag));
    }
}

/// The entries that link a subject stand under their digests, in the order of the
/// index: each that links it and has a digest, and no other.
pub proof fn linking_entries_keep_their_order(
    entries: Seq<JsonModel>,
    e: JsonModel,
    subject: Text,
    d: Text,
)
    ensures
        linking(Seq::empty(), subject).len() == 0,
        links(e, subject) && says(e, "digest"@, d) ==> linking(entries.push(e), subject) == linking(
            entries,
            subject,
        ).push((d, e)),
        !links(e, subject) || (forall|t: Text| !#[trigger] says(e, "digest"@, t)) ==> linking(
            entries.push(e),
            subject,
        ) == linking(entries, subject),
{
    assert(entries.push(e).drop_last() =~= entries);
    accessors_read_their_fields(e, subject);
    if digest_of(e) is Some {
        assert(says(e, "digest"@, digest_of(e)->0));
    }
}

/// The entries of a referrers index stand under their digests as these are written
/// out, in its order: each with a well-formed digest, and no other.
pub proof fn described_entries_keep_their_order(
    entries: Seq<JsonModel>,
    e: JsonModel,
    t: Text,
    d: (Text, Text),
    bytes: Seq<u8>,
    v: JsonModel,
)
    ensures
        described(Seq::empty()).len() == 0,
        says(e, "digest"@, t) && digest_parts(t) == Some(d) ==> described(entries.push(e))
            == described(entries).push((d.0 + ":"@ + d.1, e)),
        says(e, "digest"@, t) && digest_parts(t) is None ==> described(entries.push(e))
            == described(entries),
        (forall|x: Text| !#[trigger] says(e, "digest"@, x)) ==> described(entries.push(e))
            == described(entries),
        parsed(bytes) == Some(v) && holds(v, "manifests"@, JsonModel::List(entries))
            ==> listed_referrers(bytes) == described(entries),
        parsed(bytes) is None ==> listed_referrers(bytes).len() == 0,
{
    assert(entries.push(e).drop_last() =~= entries);
    assert(entries.push(e).last() == e);
    if digest_of(e) is Some {
        assert(says(e, "digest"@, digest_of(e)->0));
    }
}

/// The referrers of a subject come from the entries that link it, and where there
/// are none from what the referrers tag points at: the algorithm, a dash and the
/// first 64 digits.
pub proof fn referrers_come_from_links_or_the_tag(
    t: Tables,
    repo: Text,
    subject: (Text, Text),
    index: JsonModel,
    entries: Seq<JsonModel>,
)
    requires
        holds(index, "manifests"@, JsonModel::List(entries)),
    ensures
        ({
            let name = subject.0 + "-"@ + subject.1.take(64);
            let linked = linking(entries, subject.0 + ":"@ + subject.1);
            let source = referrer_source(t, repo, subject, index);
            &&& linked.len() > 0 ==> source == ReferrerSource::Linked(linked)
            &&& linked.len() == 0 ==> (tag_points_at(t, repo, name, index) matches Some(d) ==> (
            match digest_parts(d) {
                Some(p) => source == ReferrerSource::Tagged(p),
                None => source is Nothing,
            }))
            &&& linked.len() == 0 && tag_points_at(t, repo, name, index) is None ==> source
                is Nothing
            &&& referrers_tag_text(subject) == name
        }),
{
    assert(manifests_in(index) == entries);
}

/// The descriptor that is recorded for a referrer is the one it was given, with its
/// subject set; every other field stays. One that is no object is not recorded.
pub proof fn recorded_descriptor_links_its_subject(
    subject: (Text, Text),
    descriptor: Seq<u8>,
    o: Fields,
)
    ensures
        parsed(descriptor) == Some(JsonModel::Object(o)) ==> exists|n: Fields|
            {
                &&& linked_descriptor(subject, descriptor) == Some(
                    #[trigger] encoded(JsonModel::Object(n)),
                )
                &&& links(JsonModel::Object(n), subject.0 + ":"@ + subject.1)
                &&& forall|k: Text| k != "subject"@ ==> (#[trigger] n.contains_key(k)
                    <==> o.contains_key(k)) && (o.contains_key(k) ==> n[k] == o[k])
            },
        !(parsed(descriptor) matches Some(JsonModel::Object(_))) ==> linked_descriptor(
            subject,
            descriptor,
        ) is None,
{
    if parsed(descriptor) == Some(JsonModel::Object(o)) {
        let n = o.insert(
            "subject"@,
            crate::layout::index::subject_field(digest_text(subject)),
        );
        assert(linked_descriptor(subject, descriptor) == Some(encoded(JsonModel::Object(n))));
    }
}

/// What records a manifest: its digest written out, its media type and tag, the
/// digests of all it references, and its subject with the linked descriptor.
pub proof fn manifest_is_recorded_with_its_links(
    repo: Text,
    tag: Option<Text>,
    digest: (Text, Text),
    media_type: Text,
    links: ManifestLinks,
    i: int,
)
    ensures
        manifest_op(repo, tag, digest, media_type, links) matches Op::PutManifest {
            repo: r,
            digest: d,
            media_type: m,
            tag: t,
            references,
            referrer,
        } && {
            &&& r == repo
            &&& d == digest.0 + ":"@ + digest.1
            &&& m == media_type
            &&& t == tag
            &&& references.len() == links.references@.len()
            &&& 0 <= i < references.len() ==> references[i] == links.references@[i]@.0 + ":"@
                + links.references@[i]@.1
            &&& links.subject is None ==> referrer is None
            &&& links.subject matches Some(s) ==> (referrer matches Some(x) && x.0 == s.0@.0 + ":"@
                + s.0@.1 && (linked_descriptor(s.0@, s.1@) matches Some(b) ==> x.1 == b))
        },
{
}

/// A required blob is there when it is a regular file; the first that is not is the
/// one that is told.
pub proof fn required_blobs_are_regular_files(stats: Seq<Stat>, i: int, j: int, size: u64)
    ensures
        is_regular(Ok(Some((true, size)))),
        !is_regular(Ok(Some((false, size)))),
        !is_regular(Ok(None)),
        0 <= i < stats.len() && stats[i] is Err ==> !is_regular(stats[i]),
        first_irregular(stats, i) && first_irregular(stats, j) ==> i == j,
        0 <= i < stats.len() && !is_regular(stats[i]) && (forall|n: int|
            #![trigger stats[n]]
            0 <= n < i ==> is_regular(stats[n])) ==> first_irregular(stats, i),
        first_irregular(stats, i) ==> 0 <= i < stats.len() && !is_regular(stats[i]),
{
    if first_irregular(stats, i) && first_irregular(stats, j) {
        if i < j {
            assert(is_regular(stats[i]));
        } else if j < i {
            assert(is_regular(stats[j]));
        }
    }
}

/// Digests are written out one by one.
pub proof fn digests_are_written_out(s: Seq<Digest>, i: int)
    ensures
        digest_texts(s).len() == s.len(),
        0 <= i < s.len() ==> digest_texts(s)[i] == s[i]@.0 + ":"@ + s[i]@.1,
{
}

/// An index that is current is the one that the tables give over what is on disk.
pub proof fn current_index_is_that_of_the_tables(
    index: JsonModel,
    t: Tables,
    repo: Text,
    existing: Option<JsonModel>,
    sizes: Map<Text, u64>,
) -> (r: (Vec<(String, Vec<Referrer>)>, Vec<(String, String, String)>))
    requires
        is_current_index(index, t, repo, existing, sizes),
    ensures
        is_referrer_listing(r.0@, t.referrers, repo),
        is_tag_listing(r.1@, t.tags, repo),
        index == index_model(
            media_of(t.media_types, repo),
            subject_list(r.0@),
            tag_list(r.1@),
            existing,
            sizes,
        ),
        existing matches Some(JsonModel::Object(top)) ==> index == index_of(
            t,
            repo,
            r.0@,
            r.1@,
            top,
            sizes,
        ),
{
    choose|listing: Vec<(String, Vec<Referrer>)>, tags: Vec<(String, String, String)>|
        #![trigger subject_list(listing@), tag_list(tags@)]
        is_referrer_listing(listing@, t.referrers, repo) && is_tag_listing(tags@, t.tags, repo)
            && index == index_model(
            media_of(t.media_types, repo),
            subject_list(listing@),
            tag_list(tags@),
            existing,
            sizes,
        )
}

/// A manifest that is found is answered with its digest and its media type, a
/// malformed digest with that digest, and nothing with its absence.
pub proof fn targets_are_answered(
    r: Result<(Digest, String), StorageError>,
    digest: (Text, Text),
    media_type: Text,
    s: Text,
)
    ensures
        answers(r, Target::Manifest { digest, media_type }) <==> (r matches Ok(v) && v.0@ == digest
            && v.1@ == media_type),
        answers(r, Target::BadDigest(s)) <==> (r matches Err(StorageError::BadDigest(b)) && b@ == s),
        answers(r, Target::Missing) <==> r matches Err(StorageError::NotFound),
{
}

/// The key of a blob is its repository, a zero character and its digest written out.
pub proof fn blobs_are_kept_under_their_keys<M: MetadataStore>(repo: Text, d: (Text, Text))
    ensures
        FsStorage::<M>::key_of(repo, d) == repo + seq!['\0'] + d.0 + ":"@ + d.1,
{
    assert(FsStorage::<M>::key_of(repo, d) =~= repo + seq!['\0'] + d.0 + ":"@ + d.1);
}

/// What is read back to warm the cache is within the cache's own limit and eight
/// mebibytes, and as much as both allow.
pub proof fn warming_is_limited<M: MetadataStore>(s: &FsStorage<M>)
    ensures
        s.warm_limit() <= s.cache.limit(),
        s.warm_limit() <= 8388608,
        s.warm_limit() == s.cache.limit() || s.warm_limit() == 8388608,
{
}

/// The blobs that a manifest requires are looked for under their own paths, one by
/// one.
pub proof fn required_blobs_have_their_paths(repo: Text, s: Seq<Digest>, p: Seq<Vec<String>>, i: int)
    ensures
        blob_paths(repo, s).len() == s.len(),
        0 <= i < s.len() ==> put_together(blob_paths(repo, s)[i], '/') == repo + "/blobs/"@
            + s[i]@.0 + "/"@ + s[i]@.1,
        path_list(p).len() == p.len(),
        0 <= i < p.len() ==> path_list(p)[i] == texts(p[i]@),
{
    if 0 <= i < s.len() {
        paths_are_written_out(repo, s[i]@, Seq::empty());
    }
}

/// A mutation that is to be recorded is the one that was decided, if any.
pub proof fn recorded_mutation_is_the_one_decided(op: MetaOp)
    ensures
        op_model(Some(op)) == Some(op.model()),
        op_model(None) is None,
{
}

/// An index without a list of manifests gives nothing: no media type, no tag, and no
/// referrers but those of a tag on record.
pub proof fn index_without_a_list_gives_nothing(
    t: Tables,
    repo: Text,
    index: JsonModel,
    tag: Text,
    subject: (Text, Text),
)
    requires
        forall|l: Seq<JsonModel>| !#[trigger] holds(index, "manifests"@, JsonModel::List(l)),
    ensures
        index_media_type(index, tag) is None,
        index_tag(index, tag) is None,
        ({
            let name = subject.0 + "-"@ + subject.1.take(64);
            let source = referrer_source(t, repo, subject, index);
            &&& !t.tags.contains_key((repo, name)) ==> source is Nothing
            &&& t.tags.contains_key((repo, name)) ==> (match digest_parts(t.tags[(repo, name)].0) {
                Some(p) => source == ReferrerSource::Tagged(p),
                None => source is Nothing,
            })
        }),
{
    index_lists_its_manifests(index, Seq::empty());
    assert(manifests_in(index) =~= Seq::<JsonModel>::empty());
}

} // verus!
