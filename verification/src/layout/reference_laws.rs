//! What holds of the references of a manifest and of an imported layout, over the
//! fields of the descriptors.

use crate::digest::{digest_parts, Digest};
use crate::gc::{key_pairs, BlobKey};
use crate::json::{encoded, Json, JsonModel};
use crate::layout::index::{opt_model, Fields};
use crate::layout::{
    candidates, descriptors_in, digest_of, digest_views, entry_texts, first_match, foreign_op,
    imported, is_layout_page, manifests_in, matching, named_digest, named_digests, of_type,
    references_of, repo_part, subject_of, tag_of,
};
use crate::metadata::model::Op;
use crate::metadata::referrers::referrer_digests;
use crate::metadata::Referrer;
use crate::page::left_over;
use crate::text::{text_lt, Text};
use vstd::prelude::*;

verus! {

/// An object whose field `name` is the string `value`.
pub open spec fn says(e: JsonModel, name: Text, value: Text) -> bool {
    e matches JsonModel::Object(o) && o.contains_key(name) && o[name] == JsonModel::Text(value)
}

/// An object whose annotations name the tag.
pub open spec fn names_tag(e: JsonModel, tag: Text) -> bool {
    e matches JsonModel::Object(o) && o.contains_key("annotations"@) && says(
        o["annotations"@],
        "org.opencontainers.image.ref.name"@,
        tag,
    )
}

/// An object with a field `name` that is a list with `item` in it.
pub open spec fn lists(e: JsonModel, name: Text, item: JsonModel) -> bool {
    e matches JsonModel::Object(o) && o.contains_key(name) && (o[name] matches JsonModel::List(s)
        && s.contains(item))
}

/// An object whose field `name` is `item`.
pub open spec fn holds(e: JsonModel, name: Text, item: JsonModel) -> bool {
    e matches JsonModel::Object(o) && o.contains_key(name) && o[name] == item
}

/// A descriptor is the config, a layer, a child or the subject of a manifest.
pub open spec fn in_manifest(manifest: JsonModel, d: JsonModel) -> bool {
    holds(manifest, "config"@, d) || lists(manifest, "layers"@, d) || lists(
        manifest,
        "manifests"@,
        d,
    ) || holds(manifest, "subject"@, d)
}

/// The accessors read the fields they are named after, and only strings, whatever
/// other fields there are.
pub proof fn accessors_read_their_fields(e: JsonModel, t: Text)
    ensures
        tag_of(e) == Some(t) <==> names_tag(e, t),
        digest_of(e) == Some(t) <==> says(e, "digest"@, t),
        subject_of(e) == Some(t) <==> (e matches JsonModel::Object(o) && o.contains_key(
            "subject"@,
        ) && says(o["subject"@], "digest"@, t)),
{
}

/// An index lists what its `manifests` list holds, in its order, and nothing when
/// there is no such list.
pub proof fn index_lists_its_manifests(e: JsonModel, s: Seq<JsonModel>)
    ensures
        holds(e, "manifests"@, JsonModel::List(s)) ==> manifests_in(e) == s,
        (forall|l: Seq<JsonModel>| !#[trigger] holds(e, "manifests"@, JsonModel::List(l)))
            ==> manifests_in(e).len() == 0,
{
    if manifests_in(e).len() > 0 {
        assert(holds(e, "manifests"@, JsonModel::List(manifests_in(e))));
    }
}

/// The digests that descriptors name, one by one.
proof fn lemma_named(s: Seq<JsonModel>, k: (Text, Text))
    ensures
        named_digests(s).contains(k) <==> exists|i: int|
            #![trigger s[i]]
            0 <= i < s.len() && named_digest(s[i]) == Some(k),
    decreases s.len(),
{
    if s.len() > 0 {
        let init = s.drop_last();
        lemma_named(init, k);
        let all = named_digests(s);
        let some = named_digests(init);
        if some.contains(k) {
            let i = choose|i: int|
                #![trigger init[i]]
                0 <= i < init.len() && named_digest(init[i]) == Some(k);
            assert(s[i] == init[i]);
            let n = choose|n: int| 0 <= n < some.len() && some[n] == k;
            assert(all[n] == k);
        }
        if named_digest(s.last()) == Some(k) {
            assert(all[all.len() - 1] == k);
            assert(s[s.len() - 1] == s.last());
        }
        if all.contains(k) && !some.contains(k) {
            let n = choose|n: int| 0 <= n < all.len() && all[n] == k;
            if n < some.len() {
                assert(some[n] == k);
            }
            assert(s[s.len() - 1] == s.last());
        }
        if exists|i: int| #![trigger s[i]] 0 <= i < s.len() && named_digest(s[i]) == Some(k) {
            let i = choose|i: int|
                #![trigger s[i]]
                0 <= i < s.len() && named_digest(s[i]) == Some(k);
            if i < init.len() {
                assert(init[i] == s[i]);
            }
        }
    }
}

/// Where a descriptor of a manifest stands.
proof fn lemma_in_manifest(manifest: JsonModel, d: JsonModel)
    ensures
        in_manifest(manifest, d) <==> descriptors_in(manifest).contains(d),
{
    let config = crate::layout::alone(manifest, "config"@);
    let layers = crate::layout::items_of(manifest, "layers"@);
    let children = crate::layout::items_of(manifest, "manifests"@);
    let subject = crate::layout::alone(manifest, "subject"@);
    let all = descriptors_in(manifest);
    assert(all =~= config + layers + children + subject);
    if holds(manifest, "config"@, d) {
        assert(all[0] == d);
    }
    if lists(manifest, "layers"@, d) {
        let i = choose|i: int| 0 <= i < layers.len() && layers[i] == d;
        assert(all[config.len() + i] == d);
    }
    if lists(manifest, "manifests"@, d) {
        let i = choose|i: int| 0 <= i < children.len() && children[i] == d;
        assert(all[config.len() + layers.len() + i] == d);
    }
    if holds(manifest, "subject"@, d) {
        assert(all[all.len() - 1] == d);
    }
    if all.contains(d) {
        let i = choose|i: int| 0 <= i < all.len() && all[i] == d;
        let a = config.len() as int;
        let b = a + layers.len();
        let c = b + children.len();
        if i < a {
            assert(config[i] == d);
        } else if i < b {
            assert(layers[i - a] == d);
        } else if i < c {
            assert(children[i - b] == d);
        } else {
            assert(subject[i - c] == d);
        }
    }
}

/// A manifest references the digest of its config, of every layer, of every child
/// and of its subject, wherever that digest is well formed and whatever else the
/// descriptor says; and it references nothing else.
pub proof fn manifest_references_what_it_names(manifest: JsonModel, k: (Text, Text))
    ensures
        references_of(manifest).contains(k) <==> exists|d: JsonModel, t: Text|
            #![trigger says(d, "digest"@, t)]
            in_manifest(manifest, d) && says(d, "digest"@, t) && digest_parts(t) == Some(k),
{
    let all = descriptors_in(manifest);
    lemma_named(all, k);
    if references_of(manifest).contains(k) {
        let i = choose|i: int| #![trigger all[i]] 0 <= i < all.len() && named_digest(all[i]) == Some(k);
        assert(all.contains(all[i]));
        lemma_in_manifest(manifest, all[i]);
        let t = digest_of(all[i])->0;
        assert(says(all[i], "digest"@, t));
    }
    if exists|d: JsonModel, t: Text|
        #![trigger says(d, "digest"@, t)]
        in_manifest(manifest, d) && says(d, "digest"@, t) && digest_parts(t) == Some(k) {
        let (d, t) = choose|d: JsonModel, t: Text|
            #![trigger says(d, "digest"@, t)]
            in_manifest(manifest, d) && says(d, "digest"@, t) && digest_parts(t) == Some(k);
        lemma_in_manifest(manifest, d);
        let i = choose|i: int| 0 <= i < all.len() && all[i] == d;
        assert(named_digest(all[i]) == Some(k));
    }
}

/// What lists of well-formed descriptors name, in their order.
proof fn lemma_all_named(s: Seq<JsonModel>, names: Seq<Text>)
    requires
        s.len() == names.len(),
        forall|i: int| #![trigger s[i]] 0 <= i < s.len() ==> says(s[i], "digest"@, names[i]),
        forall|i: int| #![trigger names[i]] 0 <= i < s.len() ==> digest_parts(names[i]) is Some,
    ensures
        named_digests(s).len() == s.len(),
        forall|i: int|
            #![trigger named_digests(s)[i]]
            0 <= i < s.len() ==> digest_parts(names[i]) == Some(named_digests(s)[i]),
    decreases s.len(),
{
    if s.len() > 0 {
        let init = s.drop_last();
        assert forall|i: int| #![trigger init[i]] 0 <= i < init.len() implies says(
            init[i],
            "digest"@,
            names.drop_last()[i],
        ) by {
            assert(init[i] == s[i]);
        }
        assert forall|i: int| #![trigger names.drop_last()[i]] 0 <= i < init.len() implies
            digest_parts(names.drop_last()[i]) is Some by {
            assert(names.drop_last()[i] == names[i]);
        }
        lemma_all_named(init, names.drop_last());
        assert(s[s.len() - 1] == s.last());
        assert(digest_parts(names[s.len() - 1]) is Some);
        assert forall|i: int|
            #![trigger named_digests(s)[i]]
            0 <= i < s.len() implies digest_parts(names[i]) == Some(named_digests(s)[i]) by {
            if i < init.len() {
                assert(named_digests(s)[i] == named_digests(init)[i]);
                assert(names.drop_last()[i] == names[i]);
            }
        }
    }
}

/// The references of an image stand in the order of the manifest: the config,
/// then the layers, each as often as it occurs.
pub proof fn image_references_in_order(
    manifest: Fields,
    config: JsonModel,
    layers: Seq<JsonModel>,
    names: Seq<Text>,
)
    requires
        manifest.contains_key("config"@) && manifest["config"@] == config,
        manifest.contains_key("layers"@) && manifest["layers"@] == JsonModel::List(layers),
        !manifest.contains_key("manifests"@),
        !manifest.contains_key("subject"@),
        names.len() == layers.len() + 1,
        says(config, "digest"@, names[0]),
        forall|i: int|
            #![trigger layers[i]]
            0 <= i < layers.len() ==> says(layers[i], "digest"@, names[i + 1]),
        forall|i: int| #![trigger names[i]] 0 <= i < names.len() ==> digest_parts(names[i]) is Some,
    ensures
        references_of(JsonModel::Object(manifest)).len() == names.len(),
        forall|i: int|
            #![trigger references_of(JsonModel::Object(manifest))[i]]
            0 <= i < names.len() ==> digest_parts(names[i]) == Some(
                references_of(JsonModel::Object(manifest))[i],
            ),
{
    let all = descriptors_in(JsonModel::Object(manifest));
    assert(all =~= seq![config] + layers);
    assert forall|i: int| #![trigger all[i]] 0 <= i < all.len() implies says(
        all[i],
        "digest"@,
        names[i],
    ) by {
        if i > 0 {
            assert(all[i] == layers[i - 1]);
        }
    }
    lemma_all_named(all, names);
}

/// The references of an index stand in the order of its children, and the subject
/// comes last.
pub proof fn index_references_in_order(
    manifest: Fields,
    children: Seq<JsonModel>,
    subject: JsonModel,
    names: Seq<Text>,
)
    requires
        !manifest.contains_key("config"@),
        !manifest.contains_key("layers"@),
        manifest.contains_key("manifests"@) && manifest["manifests"@] == JsonModel::List(children),
        manifest.contains_key("subject"@) && manifest["subject"@] == subject,
        names.len() == children.len() + 1,
        says(subject, "digest"@, names[children.len() as int]),
        forall|i: int|
            #![trigger children[i]]
            0 <= i < children.len() ==> says(children[i], "digest"@, names[i]),
        forall|i: int| #![trigger names[i]] 0 <= i < names.len() ==> digest_parts(names[i]) is Some,
    ensures
        references_of(JsonModel::Object(manifest)).len() == names.len(),
        forall|i: int|
            #![trigger references_of(JsonModel::Object(manifest))[i]]
            0 <= i < names.len() ==> digest_parts(names[i]) == Some(
                references_of(JsonModel::Object(manifest))[i],
            ),
{
    let all = descriptors_in(JsonModel::Object(manifest));
    assert(all =~= children + seq![subject]);
    assert forall|i: int| #![trigger all[i]] 0 <= i < all.len() implies says(
        all[i],
        "digest"@,
        names[i],
    ) by {
        if i < children.len() {
            assert(all[i] == children[i]);
        }
    }
    lemma_all_named(all, names);
}

/// A referrer read from a layout is of the wanted type when its `artifactType` is
/// that string, or when no type is wanted; the first such one under a digest is
/// the one that is served.
pub proof fn layout_referrers_match_by_artifact_type(
    refs: Seq<(Text, JsonModel)>,
    d: Text,
    t: Text,
    i: int,
)
    requires
        0 <= i < refs.len(),
        refs[i].0 == d,
    ensures
        of_type(refs[i].1, None),
        of_type(refs[i].1, Some(t)) <==> says(refs[i].1, "artifactType"@, t),
        says(refs[i].1, "artifactType"@, t) ==> matching(refs, Some(t)).contains(d),
        matching(refs, None).contains(d),
        (says(refs[i].1, "artifactType"@, t) && forall|j: int|
            #![trigger refs[j]]
            0 <= j < i ==> refs[j].0 != d || !says(refs[j].1, "artifactType"@, t)) ==> first_match(
            refs,
            d,
            Some(t),
        ) == Some(refs[i].1),
        (forall|j: int| #![trigger refs[j]] 0 <= j < i ==> refs[j].0 != d) ==> first_match(
            refs,
            d,
            None,
        ) == Some(refs[i].1),
{
    if says(refs[i].1, "artifactType"@, t) {
        lemma_first_match(refs, d, Some(t), i);
    }
    lemma_first_match(refs, d, None, i);
    assert forall|j: int|
        #![trigger refs[j]]
        0 <= j < i && !(refs[j].0 != d || !says(refs[j].1, "artifactType"@, t)) implies refs[j].0
        == d && of_type(refs[j].1, Some(t)) by {}
}

/// Whoever is served matches.
pub proof fn served_layout_referrers_match(refs: Seq<(Text, JsonModel)>, d: Text, t: Text)
    ensures
        matching(refs, Some(t)).contains(d) <==> exists|i: int|
            #![trigger refs[i]]
            0 <= i < refs.len() && refs[i].0 == d && says(refs[i].1, "artifactType"@, t),
        matching(refs, None).contains(d) <==> exists|i: int|
            #![trigger refs[i]]
            0 <= i < refs.len() && refs[i].0 == d,
    decreases refs.len(),
{
    if refs.len() > 0 {
        let init = refs.drop_last();
        served_layout_referrers_match(init, d, t);
        assert(refs[refs.len() - 1] == refs.last());
        assert forall|i: int| #![trigger init[i]] 0 <= i < init.len() implies init[i] == refs[i] by {}
        if exists|i: int|
            #![trigger refs[i]]
            0 <= i < refs.len() && refs[i].0 == d && says(refs[i].1, "artifactType"@, t) {
            let i = choose|i: int|
                #![trigger refs[i]]
                0 <= i < refs.len() && refs[i].0 == d && says(refs[i].1, "artifactType"@, t);
            if i < init.len() {
                assert(init[i].0 == d);
            }
        }
        if exists|i: int| #![trigger refs[i]] 0 <= i < refs.len() && refs[i].0 == d {
            let i = choose|i: int| #![trigger refs[i]] 0 <= i < refs.len() && refs[i].0 == d;
            if i < init.len() {
                assert(init[i].0 == d);
            }
        }
        if matching(init, Some(t)).contains(d) {
            let i = choose|i: int|
                #![trigger init[i]]
                0 <= i < init.len() && init[i].0 == d && says(init[i].1, "artifactType"@, t);
            assert(refs[i].0 == d);
        }
        if matching(init, None).contains(d) {
            let i = choose|i: int| #![trigger init[i]] 0 <= i < init.len() && init[i].0 == d;
            assert(refs[i].0 == d);
        }
    }
}

/// The first candidate of a type.
proof fn lemma_first_match(refs: Seq<(Text, JsonModel)>, d: Text, wanted: Option<Text>, i: int)
    requires
        0 <= i < refs.len(),
        refs[i].0 == d,
        of_type(refs[i].1, wanted),
    ensures
        first_match(refs, d, wanted) is Some,
        (forall|j: int|
            #![trigger refs[j]]
            0 <= j < i ==> refs[j].0 != d || !of_type(refs[j].1, wanted)) ==> first_match(
            refs,
            d,
            wanted,
        ) == Some(refs[i].1),
    decreases refs.len(),
{
    let init = refs.drop_last();
    if i < init.len() {
        assert(init[i] == refs[i]);
        lemma_first_match(init, d, wanted, i);
        assert forall|j: int| #![trigger init[j]] 0 <= j < init.len() implies init[j] == refs[j] by {}
    } else if first_match(init, d, wanted) is Some {
        lemma_match_at(init, d, wanted);
        let j = choose|j: int|
            #![trigger init[j]]
            0 <= j < init.len() && init[j].0 == d && of_type(init[j].1, wanted);
        assert(refs[j] == init[j]);
    }
}

/// A candidate that is found is there.
proof fn lemma_match_at(refs: Seq<(Text, JsonModel)>, d: Text, wanted: Option<Text>)
    requires
        first_match(refs, d, wanted) is Some,
    ensures
        exists|j: int|
            #![trigger refs[j]]
            0 <= j < refs.len() && refs[j].0 == d && of_type(refs[j].1, wanted),
    decreases refs.len(),
{
    let init = refs.drop_last();
    if first_match(init, d, wanted) is Some {
        lemma_match_at(init, d, wanted);
        let j = choose|j: int|
            #![trigger init[j]]
            0 <= j < init.len() && init[j].0 == d && of_type(init[j].1, wanted);
        assert(refs[j] == init[j]);
    } else {
        assert(refs[refs.len() - 1] == refs.last());
    }
}

/// A descriptor that names a tag and a well-formed digest.
pub open spec fn tagged_at(e: JsonModel, tag: Text, digest: Text) -> bool {
    names_tag(e, tag) && says(e, "digest"@, digest) && digest_parts(digest) is Some
}

/// The media type that a descriptor gives: its `mediaType` where that is a string,
/// and that of an image manifest otherwise.
pub open spec fn media_type_is(e: JsonModel, media_type: Text) -> bool {
    says(e, "mediaType"@, media_type) || ((forall|t: Text| !#[trigger] says(e, "mediaType"@, t))
        && media_type == "application/vnd.oci.image.manifest.v1+json"@)
}

/// A descriptor of another tool is recorded exactly when it names a tag that is
/// not known and a well-formed digest: with that digest, that tag, the media type
/// it gives, and neither references nor a referrer.
pub proof fn foreign_descriptor_is_recorded_as_it_says(
    tags: Map<(Text, Text), (Text, Text)>,
    repo: Text,
    e: JsonModel,
    tag: Text,
    digest: Text,
)
    ensures
        tagged_at(e, tag, digest) && !tags.contains_key((repo, tag)) ==> (foreign_op(tags, repo, e)
            matches Some(Op::PutManifest { repo: r, digest: d, media_type: m, tag: t, references, referrer })
            && r == repo && d == digest && t == Some(tag) && media_type_is(e, m) && references.len()
            == 0 && referrer is None),
        foreign_op(tags, repo, e) is Some ==> exists|t: Text, d: Text| #[trigger]
            tagged_at(e, t, d) && !tags.contains_key((repo, t)),
{
    if foreign_op(tags, repo, e) is Some {
        assert(tagged_at(e, tag_of(e)->0, digest_of(e)->0));
    }
    if tagged_at(e, tag, digest) && !tags.contains_key((repo, tag)) {
        let op = foreign_op(tags, repo, e)->0;
        let o = e->Object_0;
        if o.contains_key("mediaType"@) && o["mediaType"@] is Text {
            assert(says(e, "mediaType"@, o["mediaType"@]->Text_0));
        } else {
            assert forall|t: Text| !#[trigger] says(e, "mediaType"@, t) by {}
        }
        assert(media_type_is(e, op->PutManifest_media_type));
    }
}

/// After an import a tag that was not known points where the first well-formed
/// descriptor of that name says, with the media type that it gives, and the
/// manifest is known with a media type that a descriptor of its digest gives.
pub proof fn imported_tag_points_where_its_descriptor_says(
    tags: Map<(Text, Text), (Text, Text)>,
    media_types: Map<(Text, Text), Text>,
    repo: Text,
    entries: Seq<JsonModel>,
    i: int,
    tag: Text,
    digest: Text,
)
    requires
        0 <= i < entries.len(),
        tagged_at(entries[i], tag, digest),
        !tags.contains_key((repo, tag)),
        forall|j: int, d: Text| 0 <= j < i ==> !#[trigger] tagged_at(entries[j], tag, d),
    ensures
        ({
            let (t, m) = imported(tags, media_types, repo, entries);
            &&& t.contains_key((repo, tag))
            &&& t[(repo, tag)].0 == digest
            &&& media_type_is(entries[i], t[(repo, tag)].1)
            &&& m.contains_key((repo, digest))
            &&& exists|j: int|
                0 <= j < entries.len() && says(#[trigger] entries[j], "digest"@, digest)
                    && media_type_is(entries[j], m[(repo, digest)])
        }),
    decreases entries.len(),
{
    let init = entries.drop_last();
    let (t0, m0) = imported(tags, media_types, repo, init);
    let last = entries.last();
    assert(entries[entries.len() - 1] == last);
    if i < init.len() {
        assert(init[i] == entries[i]);
        assert forall|j: int, d: Text| 0 <= j < i implies !#[trigger] tagged_at(init[j], tag, d) by {
            assert(init[j] == entries[j]);
        }
        imported_tag_points_where_its_descriptor_says(
            tags,
            media_types,
            repo,
            init,
            i,
            tag,
            digest,
        );
        let n = choose|n: int|
            0 <= n < init.len() && says(#[trigger] init[n], "digest"@, digest) && media_type_is(
                init[n],
                m0[(repo, digest)],
            );
        assert(entries[n] == init[n]);
        if foreign_op(t0, repo, last) is Some {
            foreign_descriptor_is_recorded_as_it_says(
                t0,
                repo,
                last,
                tag_of(last)->0,
                digest_of(last)->0,
            );
            assert(says(entries[entries.len() - 1], "digest"@, digest_of(last)->0));
        }
    } else {
        lemma_untouched(tags, media_types, repo, init, (repo, tag));
        if t0.contains_key((repo, tag)) {
            let (j, d) = choose|j: int, d: Text|
                0 <= j < init.len() && #[trigger] tagged_at(init[j], tag, d);
            assert(init[j] == entries[j]);
            assert(tagged_at(entries[j], tag, d));
        }
        foreign_descriptor_is_recorded_as_it_says(t0, repo, last, tag, digest);
        assert(says(entries[i], "digest"@, digest));
    }
}

/// What an import adds comes from a descriptor.
proof fn lemma_untouched(
    tags: Map<(Text, Text), (Text, Text)>,
    media_types: Map<(Text, Text), Text>,
    repo: Text,
    entries: Seq<JsonModel>,
    k: (Text, Text),
)
    ensures
        imported(tags, media_types, repo, entries).0.contains_key(k) && !tags.contains_key(k)
            ==> k.0 == repo && exists|j: int, d: Text|
            0 <= j < entries.len() && #[trigger] tagged_at(entries[j], k.1, d),
        tags.contains_key(k) ==> imported(tags, media_types, repo, entries).0.contains_key(k)
            && imported(tags, media_types, repo, entries).0[k] == tags[k],
        media_types.contains_key(k) ==> imported(tags, media_types, repo, entries).1.contains_key(
            k,
        ),
        (k.0 != repo || forall|j: int|
            0 <= j < entries.len() ==> !says(#[trigger] entries[j], "digest"@, k.1)) ==> (imported(
            tags,
            media_types,
            repo,
            entries,
        ).1.contains_key(k) <==> media_types.contains_key(k)) && (media_types.contains_key(k)
            ==> imported(tags, media_types, repo, entries).1[k] == media_types[k]),
    decreases entries.len(),
{
    if entries.len() > 0 {
        let init = entries.drop_last();
        let last = entries.last();
        lemma_untouched(tags, media_types, repo, init, k);
        assert(entries[entries.len() - 1] == last);
        assert forall|j: int| 0 <= j < init.len() implies #[trigger] init[j] == entries[j] by {}
        let (t0, m0) = imported(tags, media_types, repo, init);
        if t0.contains_key(k) && !tags.contains_key(k) {
            let (j, d) = choose|j: int, d: Text|
                0 <= j < init.len() && #[trigger] tagged_at(init[j], k.1, d);
            assert(init[j] == entries[j]);
            assert(tagged_at(entries[j], k.1, d));
        }
        if foreign_op(t0, repo, last) is Some {
            let tag = tag_of(last)->0;
            let digest = digest_of(last)->0;
            foreign_descriptor_is_recorded_as_it_says(t0, repo, last, tag, digest);
            assert(tagged_at(entries[entries.len() - 1], tag, digest));
            assert(says(entries[entries.len() - 1], "digest"@, digest));
        }
    }
}

/// An import adds nothing but what a descriptor says, and leaves every known tag,
/// every other repository and every manifest that no descriptor is about as they
/// were.
pub proof fn import_adds_only_what_descriptors_say(
    tags: Map<(Text, Text), (Text, Text)>,
    media_types: Map<(Text, Text), Text>,
    repo: Text,
    entries: Seq<JsonModel>,
    k: (Text, Text),
)
    ensures
        ({
            let (t, m) = imported(tags, media_types, repo, entries);
            &&& tags.contains_key(k) ==> t.contains_key(k) && t[k] == tags[k]
            &&& t.contains_key(k) && !tags.contains_key(k) ==> k.0 == repo && exists|
                j: int,
                d: Text,
            |
                0 <= j < entries.len() && #[trigger] tagged_at(entries[j], k.1, d)
            &&& media_types.contains_key(k) ==> m.contains_key(k)
            &&& (k.0 != repo || forall|j: int|
                0 <= j < entries.len() ==> !says(#[trigger] entries[j], "digest"@, k.1)) ==> (
            m.contains_key(k) <==> media_types.contains_key(k)) && (media_types.contains_key(k)
                ==> m[k] == media_types[k])
        }),
{
    lemma_untouched(tags, media_types, repo, entries, k);
}

/// Two indexes list the same descriptors when the texts of their `manifests` are
/// the same, in whatever order and each as often.
pub proof fn same_descriptors_in_any_order(
    a: JsonModel,
    b: JsonModel,
    s: Seq<JsonModel>,
    u: Seq<JsonModel>,
    text: Seq<u8>,
)
    requires
        holds(a, "manifests"@, JsonModel::List(s)),
        holds(b, "manifests"@, JsonModel::List(u)),
    ensures
        entry_texts(a) == s.map_values(|d: JsonModel| encoded(d)),
        entry_texts(b) == u.map_values(|d: JsonModel| encoded(d)),
        s.to_multiset() == u.to_multiset() ==> entry_texts(a).to_multiset() == entry_texts(
            b,
        ).to_multiset(),
        s.len() != u.len() ==> entry_texts(a).to_multiset() != entry_texts(b).to_multiset(),
        entry_texts(a).contains(text) && !entry_texts(b).contains(text) ==> entry_texts(
            a,
        ).to_multiset() != entry_texts(b).to_multiset(),
{
    broadcast use vstd::seq_lib::group_to_multiset_ensures;
    let f = |d: JsonModel| encoded(d);
    assert(entry_texts(a) =~= s.map_values(f));
    assert(entry_texts(b) =~= u.map_values(f));
    if s.to_multiset() == u.to_multiset() {
        lemma_mapped_alike(s, u, f);
    }
    assert(entry_texts(a).to_multiset().len() == s.len());
    assert(entry_texts(b).to_multiset().len() == u.len());
    assert(entry_texts(a).to_multiset().contains(text) <==> entry_texts(a).contains(text));
    assert(entry_texts(b).to_multiset().contains(text) <==> entry_texts(b).contains(text));
}

/// What is the same in whatever order stays so under a function.
proof fn lemma_mapped_alike(
    s: Seq<JsonModel>,
    u: Seq<JsonModel>,
    f: spec_fn(JsonModel) -> Seq<u8>,
)
    requires
        s.to_multiset() == u.to_multiset(),
    ensures
        s.map_values(f).to_multiset() == u.map_values(f).to_multiset(),
    decreases s.len(),
{
    broadcast use vstd::seq_lib::group_to_multiset_ensures;
    assert(s.to_multiset().len() == s.len());
    assert(u.to_multiset().len() == u.len());
    if s.len() == 0 {
        assert(s.map_values(f) =~= u.map_values(f));
    } else {
        let x = s.last();
        assert(s.contains(x)) by {
            assert(s[s.len() - 1] == x);
        }
        assert(u.to_multiset().contains(x));
        let i = choose|i: int| 0 <= i < u.len() && u[i] == x;
        let s0 = s.drop_last();
        let u0 = u.remove(i);
        assert(s =~= s0.push(x));
        assert(u0.to_multiset() =~= s0.to_multiset()) by {
            assert(u.to_multiset().remove(x) =~= u0.to_multiset());
            assert(s0.to_multiset().insert(x) =~= s.to_multiset());
        }
        lemma_mapped_alike(s0, u0, f);
        assert(s.map_values(f) =~= s0.map_values(f).push(f(x)));
        let m = u.map_values(f);
        assert(m.remove(i) =~= u0.map_values(f));
        assert(m[i] == f(x));
        assert(m.contains(f(x)));
        assert(m.to_multiset().remove(f(x)) =~= m.remove(i).to_multiset());
        assert(m.to_multiset() =~= u0.map_values(f).to_multiset().insert(f(x)));
        assert(s.map_values(f).to_multiset() =~= m.to_multiset());
    }
}

/// A directory may belong to a repository's name unless it is the content or the
/// staging directory, or hidden.
pub proof fn repository_names_leave_out_the_layout(name: Text)
    ensures
        !repo_part("blobs"@),
        !repo_part("uploads"@),
        name.len() > 0 && name[0] == '.' ==> !repo_part(name),
        name.len() > 0 && name[0] != '.' && name != "blobs"@ && name != "uploads"@ ==> repo_part(
            name,
        ),
{
}

/// A page of the referrers that a layout lists: in the order of their digests, after
/// the cursor, no more than asked for, and of the wanted type, each with the text of
/// the first candidate that is. Whichever belongs there is on the page, or the page
/// is full and says that more follow.
pub proof fn layout_referrers_are_paged(
    items: Seq<Referrer>,
    more: bool,
    refs: Seq<(Text, JsonModel)>,
    wanted: Option<Text>,
    last: Option<Text>,
    limit: nat,
    n: int,
)
    requires
        is_layout_page(items, more, refs, wanted, last, limit),
    ensures
        items.len() <= limit,
        more ==> items.len() == limit,
        forall|i: int, j: int|
            #![trigger items[i], items[j]]
            0 <= i < j < items.len() ==> text_lt(items[i].0@, items[j].0@),
        forall|i: int|
            #![trigger items[i]]
            0 <= i < items.len() ==> (last matches Some(l) ==> text_lt(l, items[i].0@)) && exists|
                j: int,
            |
                #![trigger refs[j]]
                0 <= j < refs.len() && refs[j].0 == items[i].0@ && items[i].1@ == encoded(refs[j].1)
                    && (wanted matches Some(t) ==> says(refs[j].1, "artifactType"@, t)),
        0 <= n < refs.len() && (wanted matches Some(t) ==> says(refs[n].1, "artifactType"@, t)) && (
        last matches Some(l) ==> text_lt(l, refs[n].0)) ==> (exists|i: int|
            #![trigger items[i]]
            0 <= i < items.len() && items[i].0@ == refs[n].0) || (more && items.len() == limit
            && forall|i: int|
            #![trigger items[i]]
            0 <= i < items.len() ==> text_lt(items[i].0@, refs[n].0)),
{
    let ds = referrer_digests(items);
    let keys = matching(refs, wanted);
    assert forall|i: int, j: int|
        #![trigger items[i], items[j]]
        0 <= i < j < items.len() implies text_lt(items[i].0@, items[j].0@) by {
        assert(text_lt(ds[i], ds[j]));
    }
    assert forall|i: int| #![trigger items[i]] 0 <= i < items.len() implies (last matches Some(l)
        ==> text_lt(l, items[i].0@)) && exists|j: int|
        #![trigger refs[j]]
        0 <= j < refs.len() && refs[j].0 == items[i].0@ && items[i].1@ == encoded(refs[j].1) && (
        wanted matches Some(t) ==> says(refs[j].1, "artifactType"@, t)) by {
        assert(ds[i] == items[i].0@);
        let j = lemma_match_text(refs, items[i].0@, wanted);
        assert(refs[j].0 == items[i].0@);
    }
    if 0 <= n < refs.len() && (wanted matches Some(t) ==> says(refs[n].1, "artifactType"@, t)) && (
    last matches Some(l) ==> text_lt(l, refs[n].0)) {
        let d = refs[n].0;
        assert(of_type(refs[n].1, wanted));
        lemma_first_match(refs, d, wanted, n);
        assert(keys.contains(d));
        if ds.contains(d) {
            let i = choose|i: int| 0 <= i < ds.len() && ds[i] == d;
            assert(items[i].0@ == d);
        } else {
            assert(left_over(d, ds, keys, last));
            assert forall|i: int| #![trigger items[i]] 0 <= i < items.len() implies text_lt(
                items[i].0@,
                d,
            ) by {
                assert(text_lt(ds[i], d));
            }
        }
    }
    if more {
        let x = choose|x: Text| left_over(x, ds, keys, last);
        assert(left_over(x, ds, keys, last));
    }
}

/// Where the candidate that is served stands.
proof fn lemma_match_text(refs: Seq<(Text, JsonModel)>, d: Text, wanted: Option<Text>) -> (j: int)
    requires
        first_match(refs, d, wanted) is Some,
    ensures
        0 <= j < refs.len(),
        refs[j].0 == d,
        of_type(refs[j].1, wanted),
        first_match(refs, d, wanted) == Some(refs[j].1),
    decreases refs.len(),
{
    let init = refs.drop_last();
    if first_match(init, d, wanted) is Some {
        let j = lemma_match_text(init, d, wanted);
        assert(refs[j] == init[j]);
        j
    } else {
        assert(refs[refs.len() - 1] == refs.last());
        refs.len() - 1
    }
}

/// An import goes through the descriptors in order: one that names a tag that is not
/// known by then, with a well-formed digest, sets that tag and the media type of the
/// manifest; every other changes nothing.
pub proof fn import_goes_through_in_order(
    tags: Map<(Text, Text), (Text, Text)>,
    media_types: Map<(Text, Text), Text>,
    repo: Text,
    entries: Seq<JsonModel>,
    e: JsonModel,
    tag: Text,
    digest: Text,
    media_type: Text,
)
    ensures
        imported(tags, media_types, repo, Seq::empty()) == (tags, media_types),
        ({
            let (t, m) = imported(tags, media_types, repo, entries);
            let next = imported(tags, media_types, repo, entries.push(e));
            &&& tagged_at(e, tag, digest) && media_type_is(e, media_type) && !t.contains_key(
                (repo, tag),
            ) ==> next == (
                t.insert((repo, tag), (digest, media_type)),
                m.insert((repo, digest), media_type),
            )
            &&& tagged_at(e, tag, digest) && t.contains_key((repo, tag)) ==> next == (t, m)
            &&& (forall|x: Text, d: Text| !#[trigger] tagged_at(e, x, d)) ==> next == (t, m)
        }),
{
    let (t, m) = imported(tags, media_types, repo, entries);
    assert(entries.push(e).drop_last() =~= entries);
    foreign_descriptor_is_recorded_as_it_says(t, repo, e, tag, digest);
}

/// The references of a manifest that has everything stand in the order of its parts:
/// the config, the layers, the children, the subject.
pub proof fn references_in_order_of_the_parts(
    manifest: Fields,
    config: JsonModel,
    layers: Seq<JsonModel>,
    children: Seq<JsonModel>,
    subject: JsonModel,
    names: Seq<Text>,
)
    requires
        manifest.contains_key("config"@) && manifest["config"@] == config,
        manifest.contains_key("layers"@) && manifest["layers"@] == JsonModel::List(layers),
        manifest.contains_key("manifests"@) && manifest["manifests"@] == JsonModel::List(children),
        manifest.contains_key("subject"@) && manifest["subject"@] == subject,
        names.len() == layers.len() + children.len() + 2,
        forall|i: int|
            #![trigger names[i]]
            0 <= i < names.len() ==> digest_parts(names[i]) is Some && says(
                if i == 0 {
                    config
                } else if i <= layers.len() {
                    layers[i - 1]
                } else if i <= layers.len() + children.len() {
                    children[i - 1 - layers.len()]
                } else {
                    subject
                },
                "digest"@,
                names[i],
            ),
    ensures
        references_of(JsonModel::Object(manifest)).len() == names.len(),
        forall|i: int|
            #![trigger references_of(JsonModel::Object(manifest))[i]]
            0 <= i < names.len() ==> digest_parts(names[i]) == Some(
                references_of(JsonModel::Object(manifest))[i],
            ),
{
    let all = descriptors_in(JsonModel::Object(manifest));
    assert(all =~= seq![config] + layers + children + seq![subject]);
    assert forall|i: int| #![trigger all[i]] 0 <= i < all.len() implies says(
        all[i],
        "digest"@,
        names[i],
    ) by {
        assert(digest_parts(names[i]) is Some);
    }
    lemma_all_named(all, names);
}

/// Lists stand for what they hold, item by item.
pub proof fn lists_stand_for_their_items(
    refs: Seq<(String, &Json)>,
    digests: Seq<Digest>,
    keys: Seq<BlobKey>,
    v: Option<Json>,
    i: int,
)
    ensures
        candidates(refs).len() == refs.len(),
        0 <= i < refs.len() ==> candidates(refs)[i] == (refs[i].0@, refs[i].1.model()),
        digest_views(digests).len() == digests.len(),
        0 <= i < digests.len() ==> digest_views(digests)[i] == digests[i]@,
        key_pairs(keys).len() == keys.len(),
        0 <= i < keys.len() ==> key_pairs(keys)[i] == (keys[i].0@, keys[i].1@),
        v is None ==> opt_model(v) is None,
        v matches Some(j) ==> opt_model(v) == Some(j.model()),
{
}

} // verus!
