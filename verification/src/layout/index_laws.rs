//! What holds of a rebuilt image index, over the fields of its descriptors and
//! the metadata tables.

use crate::json::{parsed, JsonModel, JsonNumberModel};
use crate::layout::index::{
    bare, blended, first_entry, foreign_entries, has_tag, index_model, is_foreign, known_bases,
    media_of, naming, no_manifests, on_disk, rebuilt, stripped, subject_list, tag_list,
    tagged_entries, untagged, with_all_referrers, with_one_referrer, with_referrers_of, Fields,
};
use crate::layout::laws::foreign_entries_stay_and_deleted_ones_go;
use crate::layout::reference_laws::{holds, names_tag, says};
use crate::metadata::model::Tables;
use crate::metadata::query::{is_referrer_listing, is_tag_listing};
use crate::metadata::Referrer;
use crate::text::{text_lt, Text};
use vstd::prelude::*;

verus! {

/// The index that is rebuilt for a repository from the tables and what is on disk.
pub open spec fn index_of(
    t: Tables,
    repo: Text,
    listing: Seq<(String, Vec<Referrer>)>,
    tags: Seq<(String, String, String)>,
    top: Fields,
    sizes: Map<Text, u64>,
) -> JsonModel {
    index_model(
        media_of(t.media_types, repo),
        subject_list(listing),
        tag_list(tags),
        Some(JsonModel::Object(top)),
        sizes,
    )
}

/// An entry on disk of a manifest that is not on record, which names no tag and
/// has no subject; or one that is no object.
pub open spec fn of_another_tool(t: Tables, repo: Text, e: JsonModel) -> bool {
    &&& forall|d: Text| #[trigger] says(e, "digest"@, d) ==> !t.media_types.contains_key((repo, d))
    &&& forall|tag: Text| !#[trigger] names_tag(e, tag)
    &&& forall|v: JsonModel| !#[trigger] holds(e, "subject"@, v)
}

/// An entry is foreign exactly when it is that of another tool: what it says of a
/// digest, a tag or a subject decides, and no other field does.
pub proof fn only_digest_tag_and_subject_make_an_entry_foreign(t: Tables, repo: Text, e: JsonModel)
    ensures
        is_foreign(e, media_of(t.media_types, repo).dom()) <==> of_another_tool(t, repo, e),
{
    let known = media_of(t.media_types, repo).dom();
    if is_foreign(e, known) {
        assert forall|d: Text| #[trigger]
            says(e, "digest"@, d) implies !t.media_types.contains_key((repo, d)) by {
            if t.media_types.contains_key((repo, d)) {
                assert(known.contains(d));
            }
        }
        assert forall|tag: Text| !#[trigger] names_tag(e, tag) by {}
        assert forall|v: JsonModel| !#[trigger] holds(e, "subject"@, v) by {}
    }
    if of_another_tool(t, repo, e) && e is Object {
        let o = e->Object_0;
        if crate::layout::digest_of(e) is Some {
            assert(says(e, "digest"@, crate::layout::digest_of(e)->0));
        }
        if crate::layout::tag_of(e) is Some {
            assert(names_tag(e, crate::layout::tag_of(e)->0));
        }
        if o.contains_key("subject"@) {
            assert(holds(e, "subject"@, o["subject"@]));
        }
    }
}

/// An entry on disk that another tool wrote is among the manifests of the rebuilt
/// index, as it is and whatever other fields it has.
pub proof fn entries_of_other_tools_stay(
    t: Tables,
    repo: Text,
    listing: Seq<(String, Vec<Referrer>)>,
    tags: Seq<(String, String, String)>,
    top: Fields,
    sizes: Map<Text, u64>,
    entries: Seq<JsonModel>,
    e: JsonModel,
)
    requires
        top.contains_key("manifests"@),
        top["manifests"@] == JsonModel::List(entries),
        entries.contains(e),
        of_another_tool(t, repo, e),
    ensures
        index_of(t, repo, listing, tags, top, sizes) matches JsonModel::Object(out)
            && out.contains_key("manifests"@) && (out["manifests"@] matches JsonModel::List(l)
            && l.contains(e)),
{
    let media = media_of(t.media_types, repo);
    let foreign = foreign_entries(entries, media.dom());
    foreign_entries_stay_and_deleted_ones_go(entries, media.dom(), e);
    only_digest_tag_and_subject_make_an_entry_foreign(t, repo, e);
    let base = with_all_referrers(known_bases(entries, media, sizes), subject_list(listing));
    let rest = untagged(base, tag_list(tags)).map_values(|d: Text| JsonModel::Object(base[d]));
    let l = tagged_entries(base, tag_list(tags)) + rest + foreign;
    let out = index_of(t, repo, listing, tags, top, sizes)->Object_0;
    assert(out["manifests"@] == JsonModel::List(l));
    let i = choose|i: int| 0 <= i < foreign.len() && foreign[i] == e;
    assert(l[tagged_entries(base, tag_list(tags)).len() + rest.len() + i] == e);
}

/// The entries of other tools keep their order and their number.
pub proof fn entries_of_other_tools_keep_their_order(
    t: Tables,
    repo: Text,
    entries: Seq<JsonModel>,
)
    ensures
        foreign_entries(entries, media_of(t.media_types, repo).dom()) == entries.filter(
            |e: JsonModel| of_another_tool(t, repo, e),
        ),
    decreases entries.len(),
{
    reveal(Seq::filter);
    if entries.len() > 0 {
        entries_of_other_tools_keep_their_order(t, repo, entries.drop_last());
        only_digest_tag_and_subject_make_an_entry_foreign(t, repo, entries.last());
    }
}

/// The fields of an index that the store owns are written anew; every other
/// top-level field stays.
pub proof fn top_level_fields_stay(
    t: Tables,
    repo: Text,
    listing: Seq<(String, Vec<Referrer>)>,
    tags: Seq<(String, String, String)>,
    top: Fields,
    sizes: Map<Text, u64>,
    name: Text,
)
    ensures
        index_of(t, repo, listing, tags, top, sizes) matches JsonModel::Object(out) && {
            &&& out.contains_key("schemaVersion"@)
            &&& out["schemaVersion"@] == JsonModel::Number(JsonNumberModel::Natural(2))
            &&& out.contains_key("mediaType"@)
            &&& out["mediaType"@] == JsonModel::Text("application/vnd.oci.image.index.v1+json"@)
            &&& out.contains_key("manifests"@)
            &&& name != "schemaVersion"@ && name != "mediaType"@ && name != "manifests"@ ==> (
            out.contains_key(name) <==> top.contains_key(name)) && (top.contains_key(name)
                ==> out[name] == top[name])
        },
{
    crate::layout::laws::lemma_field_names();
    reveal_strlit("mediaType");
    reveal_strlit("schemaVersion");
    assert("mediaType"@.len() == 9 && "schemaVersion"@.len() == 13);
}

/// The descriptors that the index is made of, before the tags.
spec fn base_of(
    t: Tables,
    repo: Text,
    listing: Seq<(String, Vec<Referrer>)>,
    entries: Seq<JsonModel>,
    sizes: Map<Text, u64>,
) -> Map<Text, Fields> {
    with_all_referrers(
        known_bases(entries, media_of(t.media_types, repo), sizes),
        subject_list(listing),
    )
}

/// What the index lists: tagged manifests, other manifests, foreign entries.
proof fn lemma_parts(
    t: Tables,
    repo: Text,
    listing: Seq<(String, Vec<Referrer>)>,
    tags: Seq<(String, String, String)>,
    top: Fields,
    sizes: Map<Text, u64>,
    entries: Seq<JsonModel>,
)
    requires
        top.contains_key("manifests"@),
        top["manifests"@] == JsonModel::List(entries),
    ensures
        ({
            let base = base_of(t, repo, listing, entries, sizes);
            let rest = untagged(base, tag_list(tags)).map_values(
                |d: Text| JsonModel::Object(base[d]),
            );
            let foreign = foreign_entries(entries, media_of(t.media_types, repo).dom());
            listed(index_of(t, repo, listing, tags, top, sizes)) == tagged_entries(
                base,
                tag_list(tags),
            ) + rest + foreign
        }),
{
}

/// The manifests that an index lists.
pub open spec fn listed(index: JsonModel) -> Seq<JsonModel> {
    index->Object_0["manifests"@]->List_0
}

/// A descriptor keeps its digest, its media type and its size, and names no tag.
spec fn settled(o: Fields, d: Text, media_type: Text, size: Option<JsonModel>) -> bool {
    &&& says(JsonModel::Object(o), "digest"@, d)
    &&& says(JsonModel::Object(o), "mediaType"@, media_type)
    &&& size is Some ==> holds(JsonModel::Object(o), "size"@, size->0)
    &&& forall|tag: Text| !#[trigger] names_tag(JsonModel::Object(o), tag)
}

/// A descriptor's annotations can hold a tag's name.
spec fn nameable(o: Fields) -> bool {
    o.contains_key("annotations"@) ==> o["annotations"@] is Object
}

/// The names of the fields differ.
proof fn lemma_names()
    ensures
        "digest"@ != "mediaType"@,
        "digest"@ != "size"@,
        "digest"@ != "annotations"@,
        "digest"@ != "subject"@,
        "mediaType"@ != "size"@,
        "mediaType"@ != "annotations"@,
        "mediaType"@ != "subject"@,
        "size"@ != "annotations"@,
        "size"@ != "subject"@,
        "annotations"@ != "subject"@,
{
    reveal_strlit("digest");
    reveal_strlit("mediaType");
    reveal_strlit("size");
    reveal_strlit("annotations");
    reveal_strlit("subject");
    assert("digest"@.len() == 6);
    assert("mediaType"@.len() == 9);
    assert("size"@.len() == 4);
    assert("annotations"@.len() == 11);
    assert("subject"@.len() == 7);
}

/// One referrer leaves a settled descriptor settled.
proof fn lemma_settled_one(
    base: Map<Text, Fields>,
    subject: Text,
    referrer: Text,
    descriptor: Seq<u8>,
    d: Text,
    media_type: Text,
    size: Option<JsonModel>,
)
    requires
        base.contains_key(d),
        settled(base[d], d, media_type, size),
    ensures
        with_one_referrer(base, subject, referrer, descriptor).contains_key(d),
        settled(
            with_one_referrer(base, subject, referrer, descriptor)[d],
            d,
            media_type,
            size,
        ),
        nameable(base[d]) ==> nameable(with_one_referrer(base, subject, referrer, descriptor)[d]),
{
    lemma_names();
    let out = with_one_referrer(base, subject, referrer, descriptor);
    let o = base[d];
    let n = out[d];
    if d == referrer && (parsed(descriptor) matches Some(JsonModel::Object(_))) {
        let r = parsed(descriptor)->0->Object_0;
        let b = blended(o, r);
        assert(n == b.insert("subject"@, crate::layout::index::subject_field(subject)));
        assert forall|tag: Text| !#[trigger] names_tag(JsonModel::Object(n), tag) by {
            assert(!names_tag(JsonModel::Object(o), tag));
        }
    }
}

/// The referrers of one subject leave a settled descriptor settled.
proof fn lemma_settled_some(
    base: Map<Text, Fields>,
    subject: Text,
    refs: Seq<(Text, Seq<u8>)>,
    d: Text,
    media_type: Text,
    size: Option<JsonModel>,
)
    requires
        base.contains_key(d),
        settled(base[d], d, media_type, size),
    ensures
        with_referrers_of(base, subject, refs).contains_key(d),
        settled(with_referrers_of(base, subject, refs)[d], d, media_type, size),
        nameable(base[d]) ==> nameable(with_referrers_of(base, subject, refs)[d]),
    decreases refs.len(),
{
    if refs.len() > 0 {
        lemma_settled_some(base, subject, refs.drop_last(), d, media_type, size);
        lemma_settled_one(
            with_referrers_of(base, subject, refs.drop_last()),
            subject,
            refs.last().0,
            refs.last().1,
            d,
            media_type,
            size,
        );
    }
}

/// All referrers leave a settled descriptor settled.
proof fn lemma_settled_all(
    base: Map<Text, Fields>,
    listing: Seq<(Text, Seq<(Text, Seq<u8>)>)>,
    d: Text,
    media_type: Text,
    size: Option<JsonModel>,
)
    requires
        base.contains_key(d),
        settled(base[d], d, media_type, size),
    ensures
        with_all_referrers(base, listing).contains_key(d),
        settled(with_all_referrers(base, listing)[d], d, media_type, size),
        nameable(base[d]) ==> nameable(with_all_referrers(base, listing)[d]),
    decreases listing.len(),
{
    if listing.len() > 0 {
        lemma_settled_all(base, listing.drop_last(), d, media_type, size);
        lemma_settled_some(
            with_all_referrers(base, listing.drop_last()),
            listing.last().0,
            listing.last().1,
            d,
            media_type,
            size,
        );
    }
}

/// Entry `i` is the first on disk about `d`.
pub open spec fn first_about(entries: Seq<JsonModel>, i: int, d: Text) -> bool {
    &&& 0 <= i < entries.len()
    &&& says(entries[i], "digest"@, d)
    &&& forall|j: int| 0 <= j < i ==> !says(#[trigger] entries[j], "digest"@, d)
}

/// What the first entry on disk says.
proof fn lemma_first(entries: Seq<JsonModel>, d: Text) -> (i: int)
    ensures
        first_entry(entries, d) matches Some(o) ==> first_about(entries, i, d) && o == stripped(
            entries[i]->Object_0,
        ),
        first_entry(entries, d) is None ==> forall|j: int|
            0 <= j < entries.len() ==> !says(#[trigger] entries[j], "digest"@, d),
    decreases entries.len(),
{
    if entries.len() == 0 {
        0
    } else {
        let init = entries.drop_last();
        let i = lemma_first(init, d);
        assert forall|j: int| 0 <= j < init.len() implies #[trigger] init[j] == entries[j] by {}
        assert(entries[entries.len() - 1] == entries.last());
        if first_entry(init, d) is Some {
            assert(init[i] == entries[i]);
            assert forall|j: int| 0 <= j < i implies !says(#[trigger] entries[j], "digest"@, d) by {
                assert(init[j] == entries[j]);
            }
            i
        } else {
            assert forall|j: int| 0 <= j < init.len() implies !says(
                #[trigger] entries[j],
                "digest"@,
                d,
            ) by {
                assert(init[j] == entries[j]);
            }
            entries.len() - 1
        }
    }
}

/// The size that a known manifest is listed with: that on disk, or the one found.
pub open spec fn known_size(
    entries: Seq<JsonModel>,
    sizes: Map<Text, u64>,
    d: Text,
    size: JsonModel,
) -> bool {
    ||| exists|i: int| #[trigger] first_about(entries, i, d) && holds(entries[i], "size"@, size)
    ||| (forall|i: int|
        #[trigger] first_about(entries, i, d) ==> forall|v: JsonModel|
            !#[trigger] holds(entries[i], "size"@, v)) && sizes.contains_key(d) && size
        == JsonModel::Number(JsonNumberModel::Natural(sizes[d]))
}

/// What is on disk about a manifest has annotations that can hold a tag's name.
pub open spec fn nameable_on_disk(entries: Seq<JsonModel>, d: Text) -> bool {
    forall|i: int, v: JsonModel| #[trigger]
        first_about(entries, i, d) && #[trigger] holds(entries[i], "annotations"@, v) ==> v is Object
}

/// The descriptor of a manifest that is on record.
proof fn lemma_known(
    t: Tables,
    repo: Text,
    listing: Seq<(String, Vec<Referrer>)>,
    entries: Seq<JsonModel>,
    sizes: Map<Text, u64>,
    d: Text,
)
    requires
        t.media_types.contains_key((repo, d)),
    ensures
        ({
            let base = base_of(t, repo, listing, entries, sizes);
            &&& base.contains_key(d)
            &&& settled(base[d], d, t.media_types[(repo, d)], None)
            &&& forall|v: JsonModel| #[trigger]
                known_size(entries, sizes, d, v) ==> holds(JsonModel::Object(base[d]), "size"@, v)
            &&& nameable_on_disk(entries, d) ==> nameable(base[d])
        }),
{
    lemma_names();
    let media = media_of(t.media_types, repo);
    let known = known_bases(entries, media, sizes);
    let i = lemma_first(entries, d);
    let o = known[d];
    assert(known.contains_key(d));
    assert forall|tag: Text| !#[trigger] names_tag(JsonModel::Object(o), tag) by {}
    assert(settled(o, d, media[d], None));
    lemma_settled_all(known, subject_list(listing), d, media[d], None);
    let base = base_of(t, repo, listing, entries, sizes);
    if nameable_on_disk(entries, d) {
        if first_entry(entries, d) is Some {
            let e = entries[i]->Object_0;
            if e.contains_key("annotations"@) {
                assert(holds(entries[i], "annotations"@, e["annotations"@]));
            }
        }
        assert(nameable(o));
    }
    assert forall|v: JsonModel| #[trigger] known_size(entries, sizes, d, v) implies holds(
        JsonModel::Object(base[d]),
        "size"@,
        v,
    ) by {
        if exists|j: int| #[trigger] first_about(entries, j, d) && holds(entries[j], "size"@, v) {
            let j = choose|j: int| #[trigger]
                first_about(entries, j, d) && holds(entries[j], "size"@, v);
            if first_entry(entries, d) is Some {
                if i < j {
                    assert(!says(entries[i], "digest"@, d));
                } else if j < i {
                    assert(!says(entries[j], "digest"@, d));
                }
            }
            assert(i == j);
            assert(holds(JsonModel::Object(o), "size"@, v));
        } else {
            if first_entry(entries, d) is Some {
                let e = entries[i]->Object_0;
                if e.contains_key("size"@) {
                    assert(holds(entries[i], "size"@, e["size"@]));
                }
            }
            assert(holds(JsonModel::Object(o), "size"@, v));
        }
        lemma_settled_all(known, subject_list(listing), d, media[d], Some(v));
    }
}

/// Where an entry of a tag comes from.
proof fn lemma_tagged_from(base: Map<Text, Fields>, tags: Seq<(Text, Text)>, j: int) -> (i: int)
    requires
        0 <= j < tagged_entries(base, tags).len(),
    ensures
        0 <= i < tags.len(),
        base.contains_key(tags[i].1),
        tagged_entries(base, tags)[j] == JsonModel::Object(naming(base[tags[i].1], tags[i].0)),
        (forall|n: int| #![trigger tags[n]] 0 <= n < tags.len() ==> base.contains_key(tags[n].1))
            ==> i == j,
    decreases tags.len(),
{
    let init = tags.drop_last();
    let some = tagged_entries(base, init);
    assert(tags[tags.len() - 1] == tags.last());
    if j < some.len() {
        let i = lemma_tagged_from(base, init, j);
        assert(init[i] == tags[i]);
        if forall|n: int| #![trigger tags[n]] 0 <= n < tags.len() ==> base.contains_key(tags[n].1) {
            assert forall|n: int| #![trigger init[n]] 0 <= n < init.len() implies base.contains_key(
                init[n].1,
            ) by {
                assert(init[n] == tags[n]);
            }
        }
        i
    } else {
        if forall|n: int| #![trigger tags[n]] 0 <= n < tags.len() ==> base.contains_key(tags[n].1) {
            lemma_tagged_len(base, init, tags);
        }
        tags.len() - 1
    }
}

/// Where every tag's manifest is described, there is one entry per tag.
proof fn lemma_tagged_len(base: Map<Text, Fields>, tags: Seq<(Text, Text)>, all: Seq<(Text, Text)>)
    requires
        tags.len() <= all.len(),
        forall|n: int| #![trigger tags[n]] 0 <= n < tags.len() ==> tags[n] == all[n],
        forall|n: int| #![trigger all[n]] 0 <= n < all.len() ==> base.contains_key(all[n].1),
    ensures
        tagged_entries(base, tags).len() == tags.len(),
    decreases tags.len(),
{
    if tags.len() > 0 {
        let init = tags.drop_last();
        assert forall|n: int| #![trigger init[n]] 0 <= n < init.len() implies init[n] == all[n] by {
            assert(tags[n] == all[n]);
        }
        lemma_tagged_len(base, init, all);
        assert(tags[tags.len() - 1] == all[tags.len() - 1]);
    }
}

/// Naming a tag leaves the rest of a descriptor as it is.
proof fn lemma_naming(o: Fields, tag: Text)
    ensures
        forall|k: Text| k != "annotations"@ ==> (#[trigger] naming(o, tag).contains_key(k)
            <==> o.contains_key(k)) && (o.contains_key(k) ==> naming(o, tag)[k] == o[k]),
        nameable(o) ==> names_tag(JsonModel::Object(naming(o, tag)), tag),
        forall|other: Text| #[trigger]
            names_tag(JsonModel::Object(naming(o, tag)), other) ==> other == tag,
{
}

/// Every manifest on record whose tags are told is listed once per tag, in the
/// order of the tags, with its digest, the recorded media type and the known size.
/// (A tag at a manifest that is not on record is left out, and annotations on disk
/// that are no object cannot hold a tag's name.)
pub proof fn tags_are_listed_first(
    t: Tables,
    repo: Text,
    listing: Seq<(String, Vec<Referrer>)>,
    tags: Seq<(String, String, String)>,
    top: Fields,
    sizes: Map<Text, u64>,
    entries: Seq<JsonModel>,
    j: int,
)
    requires
        is_tag_listing(tags, t.tags, repo),
        top.contains_key("manifests"@),
        top["manifests"@] == JsonModel::List(entries),
        forall|k: (Text, Text)| #[trigger]
            t.tags.contains_key(k) && k.0 == repo ==> t.media_types.contains_key(
                (repo, t.tags[k].0),
            ),
        0 <= j < listed(index_of(t, repo, listing, tags, top, sizes)).len(),
    ensures
        tags.len() <= listed(index_of(t, repo, listing, tags, top, sizes)).len(),
        ({
            let e = listed(index_of(t, repo, listing, tags, top, sizes))[j];
            let d = tags[j].1@;
            &&& j < tags.len() ==> t.tags.contains_key((repo, tags[j].0@)) && t.tags[(
                repo,
                tags[j].0@,
            )].0 == d && says(e, "digest"@, d) && says(
                e,
                "mediaType"@,
                t.media_types[(repo, d)],
            ) && (nameable_on_disk(entries, d) ==> names_tag(e, tags[j].0@))
            &&& j < tags.len() ==> forall|v: JsonModel| #[trigger]
                known_size(entries, sizes, d, v) ==> holds(e, "size"@, v)
        }),
{
    lemma_names();
    let base = base_of(t, repo, listing, entries, sizes);
    let pairs = tag_list(tags);
    lemma_parts(t, repo, listing, tags, top, sizes, entries);
    assert forall|n: int| #![trigger pairs[n]] 0 <= n < pairs.len() implies base.contains_key(
        pairs[n].1,
    ) by {
        assert(tags[n].0@ == pairs[n].0);
        assert(t.tags.contains_key((repo, tags[n].0@)));
        lemma_known(t, repo, listing, entries, sizes, pairs[n].1);
    }
    lemma_tagged_len(base, pairs, pairs);
    if j < tags.len() {
        let i = lemma_tagged_from(base, pairs, j);
        assert(t.tags.contains_key((repo, tags[j].0@)));
        let d = tags[j].1@;
        lemma_known(t, repo, listing, entries, sizes, d);
        lemma_naming(base[d], tags[j].0@);
        let e = listed(index_of(t, repo, listing, tags, top, sizes))[j];
        assert(e == tagged_entries(base, pairs)[j]);
        assert(e == JsonModel::Object(naming(base[d], tags[j].0@)));
        assert(naming(base[d], tags[j].0@).contains_key("digest"@));
        assert(naming(base[d], tags[j].0@).contains_key("mediaType"@));
        assert forall|v: JsonModel| #[trigger] known_size(entries, sizes, d, v) implies holds(
            e,
            "size"@,
            v,
        ) by {
            assert(holds(JsonModel::Object(base[d]), "size"@, v));
            assert(naming(base[d], tags[j].0@).contains_key("size"@));
        }
    }
}

/// No descriptor names a tag of its own, and every one says whose it is.
spec fn untitled(base: Map<Text, Fields>) -> bool {
    forall|d: Text|
        #![trigger base[d]]
        base.contains_key(d) ==> says(JsonModel::Object(base[d]), "digest"@, d) && forall|tag: Text|
            !#[trigger] names_tag(JsonModel::Object(base[d]), tag)
}

/// One referrer names no tag.
proof fn lemma_untitled_one(base: Map<Text, Fields>, subject: Text, referrer: Text, descriptor: Seq<u8>)
    requires
        untitled(base),
    ensures
        untitled(with_one_referrer(base, subject, referrer, descriptor)),
{
    lemma_names();
    let out = with_one_referrer(base, subject, referrer, descriptor);
    assert forall|d: Text| #![trigger out[d]] out.contains_key(d) implies says(
        JsonModel::Object(out[d]),
        "digest"@,
        d,
    ) && forall|tag: Text| !#[trigger] names_tag(JsonModel::Object(out[d]), tag) by {
        if d != referrer {
            assert(out[d] == base[d]);
        } else {
            let o = if base.contains_key(d) {
                base[d]
            } else {
                bare(d)
            };
            assert(says(JsonModel::Object(o), "digest"@, d));
            assert forall|tag: Text| !#[trigger] names_tag(JsonModel::Object(out[d]), tag) by {
                assert(!names_tag(JsonModel::Object(o), tag));
            }
        }
    }
}

/// The referrers of one subject name no tag.
proof fn lemma_untitled_some(base: Map<Text, Fields>, subject: Text, refs: Seq<(Text, Seq<u8>)>)
    requires
        untitled(base),
    ensures
        untitled(with_referrers_of(base, subject, refs)),
    decreases refs.len(),
{
    if refs.len() > 0 {
        lemma_untitled_some(base, subject, refs.drop_last());
        lemma_untitled_one(
            with_referrers_of(base, subject, refs.drop_last()),
            subject,
            refs.last().0,
            refs.last().1,
        );
    }
}

/// No referrer names a tag.
proof fn lemma_untitled_all(base: Map<Text, Fields>, listing: Seq<(Text, Seq<(Text, Seq<u8>)>)>)
    requires
        untitled(base),
    ensures
        untitled(with_all_referrers(base, listing)),
    decreases listing.len(),
{
    if listing.len() > 0 {
        lemma_untitled_all(base, listing.drop_last());
        lemma_untitled_some(
            with_all_referrers(base, listing.drop_last()),
            listing.last().0,
            listing.last().1,
        );
    }
}

/// The descriptors that the index is made of name no tag.
proof fn lemma_untitled(
    t: Tables,
    repo: Text,
    listing: Seq<(String, Vec<Referrer>)>,
    entries: Seq<JsonModel>,
    sizes: Map<Text, u64>,
)
    ensures
        untitled(base_of(t, repo, listing, entries, sizes)),
{
    let media = media_of(t.media_types, repo);
    let known = known_bases(entries, media, sizes);
    let none = Seq::<(String, Vec<Referrer>)>::empty();
    assert forall|d: Text| #![trigger known[d]] known.contains_key(d) implies says(
        JsonModel::Object(known[d]),
        "digest"@,
        d,
    ) && forall|tag: Text| !#[trigger] names_tag(JsonModel::Object(known[d]), tag) by {
        assert(media.contains_key(d));
        lemma_known(t, repo, none, entries, sizes, d);
        assert(subject_list(none).len() == 0);
        assert(base_of(t, repo, none, entries, sizes) == known);
    }
    lemma_untitled_all(known, subject_list(listing));
}

/// Some referrer among `refs` is `d`.
spec fn among(refs: Seq<(Text, Seq<u8>)>, d: Text) -> bool {
    exists|i: int| #![trigger refs[i]] 0 <= i < refs.len() && refs[i].0 == d
}

/// What the referrers of one subject do to one descriptor.
proof fn lemma_one_of(base: Map<Text, Fields>, subject: Text, refs: Seq<(Text, Seq<u8>)>, d: Text)
    ensures
        with_referrers_of(base, subject, refs).contains_key(d) <==> base.contains_key(d) || among(
            refs,
            d,
        ),
        !among(refs, d) && base.contains_key(d) ==> with_referrers_of(base, subject, refs)[d]
            == base[d],
        base.dom().finite() ==> with_referrers_of(base, subject, refs).dom().finite(),
    decreases refs.len(),
{
    if refs.len() > 0 {
        let init = refs.drop_last();
        lemma_one_of(base, subject, init, d);
        assert(refs[refs.len() - 1] == refs.last());
        assert forall|i: int| #![trigger init[i]] 0 <= i < init.len() implies init[i] == refs[i] by {}
        if among(refs, d) {
            let i = choose|i: int| #![trigger refs[i]] 0 <= i < refs.len() && refs[i].0 == d;
            if i < init.len() {
                assert(init[i].0 == d);
            }
        }
        if among(init, d) {
            let i = choose|i: int| #![trigger init[i]] 0 <= i < init.len() && init[i].0 == d;
            assert(refs[i].0 == d);
        }
    }
}

/// A referrer that is named once.
proof fn lemma_once(
    base: Map<Text, Fields>,
    subject: Text,
    refs: Seq<(Text, Seq<u8>)>,
    n: int,
)
    requires
        0 <= n < refs.len(),
        forall|i: int| #![trigger refs[i]] 0 <= i < refs.len() && refs[i].0 == refs[n].0 ==> i == n,
    ensures
        with_referrers_of(base, subject, refs)[refs[n].0] == with_one_referrer(
            base,
            subject,
            refs[n].0,
            refs[n].1,
        )[refs[n].0],
    decreases refs.len(),
{
    let init = refs.drop_last();
    let d = refs[n].0;
    assert forall|i: int| #![trigger init[i]] 0 <= i < init.len() implies init[i] == refs[i] by {}
    assert(refs[refs.len() - 1] == refs.last());
    if n < init.len() {
        assert(init[n] == refs[n]);
        lemma_once(base, subject, init, n);
    } else {
        lemma_one_of(base, subject, init, d);
        if among(init, d) {
            let i = choose|i: int| #![trigger init[i]] 0 <= i < init.len() && init[i].0 == d;
            assert(refs[i].0 == d);
        }
    }
}

/// Some subject of the listing has the referrer.
spec fn among_all(listing: Seq<(Text, Seq<(Text, Seq<u8>)>)>, d: Text) -> bool {
    exists|i: int| #![trigger listing[i]] 0 <= i < listing.len() && among(listing[i].1, d)
}

/// What all referrers do to one descriptor.
proof fn lemma_all_of(
    base: Map<Text, Fields>,
    listing: Seq<(Text, Seq<(Text, Seq<u8>)>)>,
    d: Text,
)
    ensures
        with_all_referrers(base, listing).contains_key(d) <==> base.contains_key(d) || among_all(
            listing,
            d,
        ),
        !among_all(listing, d) && base.contains_key(d) ==> with_all_referrers(base, listing)[d]
            == base[d],
        base.dom().finite() ==> with_all_referrers(base, listing).dom().finite(),
    decreases listing.len(),
{
    if listing.len() > 0 {
        let init = listing.drop_last();
        lemma_all_of(base, init, d);
        lemma_one_of(with_all_referrers(base, init), listing.last().0, listing.last().1, d);
        assert(listing[listing.len() - 1] == listing.last());
        assert forall|i: int| #![trigger init[i]] 0 <= i < init.len() implies init[i]
            == listing[i] by {}
        if among_all(listing, d) {
            let i = choose|i: int|
                #![trigger listing[i]]
                0 <= i < listing.len() && among(listing[i].1, d);
            if i < init.len() {
                assert(among(init[i].1, d));
            }
        }
        if among_all(init, d) {
            let i = choose|i: int| #![trigger init[i]] 0 <= i < init.len() && among(init[i].1, d);
            assert(among(listing[i].1, d));
        }
    }
}

/// A referrer of one subject only.
proof fn lemma_of_one_subject(
    base: Map<Text, Fields>,
    listing: Seq<(Text, Seq<(Text, Seq<u8>)>)>,
    s: int,
    d: Text,
)
    requires
        0 <= s < listing.len(),
        among(listing[s].1, d),
        forall|i: int|
            #![trigger listing[i]]
            0 <= i < listing.len() && among(listing[i].1, d) ==> i == s,
    ensures
        with_all_referrers(base, listing)[d] == with_referrers_of(
            base.restrict(set![d]),
            listing[s].0,
            listing[s].1,
        )[d],
    decreases listing.len(),
{
    let init = listing.drop_last();
    assert forall|i: int| #![trigger init[i]] 0 <= i < init.len() implies init[i] == listing[i] by {}
    assert(listing[listing.len() - 1] == listing.last());
    let before = with_all_referrers(base, init);
    if s < init.len() {
        assert(init[s] == listing[s]);
        lemma_of_one_subject(base, init, s, d);
        if among(listing.last().1, d) {
            assert(among(listing[listing.len() - 1].1, d));
        }
        lemma_one_of(before, listing.last().0, listing.last().1, d);
        lemma_all_of(base, init, d);
        assert(among_all(init, d)) by {
            assert(among(init[s].1, d));
        }
    } else {
        lemma_all_of(base, init, d);
        if among_all(init, d) {
            let i = choose|i: int| #![trigger init[i]] 0 <= i < init.len() && among(init[i].1, d);
            assert(among(listing[i].1, d));
        }
        lemma_alike(before, base.restrict(set![d]), listing.last().0, listing.last().1, d);
        lemma_one_of(before, listing.last().0, listing.last().1, d);
    }
}

/// What referrers do to one descriptor rests on that descriptor alone.
proof fn lemma_alike(
    a: Map<Text, Fields>,
    b: Map<Text, Fields>,
    subject: Text,
    refs: Seq<(Text, Seq<u8>)>,
    d: Text,
)
    requires
        a.contains_key(d) <==> b.contains_key(d),
        a.contains_key(d) ==> a[d] == b[d],
    ensures
        with_referrers_of(a, subject, refs).contains_key(d) <==> with_referrers_of(
            b,
            subject,
            refs,
        ).contains_key(d),
        with_referrers_of(a, subject, refs).contains_key(d) ==> with_referrers_of(
            a,
            subject,
            refs,
        )[d] == with_referrers_of(b, subject, refs)[d],
    decreases refs.len(),
{
    if refs.len() > 0 {
        lemma_alike(a, b, subject, refs.drop_last(), d);
    }
}

/// What a referrer listing says of one referrer.
proof fn lemma_listing(
    t: Tables,
    repo: Text,
    listing: Seq<(String, Vec<Referrer>)>,
    d: Text,
)
    requires
        is_referrer_listing(listing, t.referrers, repo),
    ensures
        among_all(subject_list(listing), d) <==> exists|s: Text|
            #[trigger] t.referrers.contains_key((repo, s, d)),
        forall|i: int, n: int|
            #![trigger subject_list(listing)[i].1[n]]
            0 <= i < listing.len() && 0 <= n < subject_list(listing)[i].1.len() ==> {
                let s = subject_list(listing)[i].0;
                let r = subject_list(listing)[i].1[n];
                t.referrers.contains_key((repo, s, r.0)) && r.1 == t.referrers[(repo, s, r.0)]
            },
{
    let all = subject_list(listing);
    assert forall|i: int, n: int|
        #![trigger all[i].1[n]]
        0 <= i < listing.len() && 0 <= n < all[i].1.len() implies {
        let s = all[i].0;
        let r = all[i].1[n];
        t.referrers.contains_key((repo, s, r.0)) && r.1 == t.referrers[(repo, s, r.0)]
    } by {
        let refs = listing[i].1@;
        let m = crate::metadata::query::referrers_of(t.referrers, repo, listing[i].0@);
        assert(crate::metadata::query::is_full_listing(refs, m));
        assert(m.contains_key(refs[n].0@));
    }
    if among_all(all, d) {
        let i = choose|i: int| #![trigger all[i]] 0 <= i < all.len() && among(all[i].1, d);
        let n = choose|n: int| #![trigger all[i].1[n]] 0 <= n < all[i].1.len() && all[i].1[n].0 == d;
        assert(t.referrers.contains_key((repo, all[i].0, d)));
    }
    if exists|s: Text| #[trigger] t.referrers.contains_key((repo, s, d)) {
        let s = choose|s: Text| #[trigger] t.referrers.contains_key((repo, s, d));
        let (i, n) = lemma_listed_at(t, repo, listing, s, d);
        assert(all[i].1[n].0 == d);
        assert(among(all[i].1, d));
    }
}

/// Where a recorded referrer stands in the listing.
proof fn lemma_listed_at(
    t: Tables,
    repo: Text,
    listing: Seq<(String, Vec<Referrer>)>,
    s: Text,
    d: Text,
) -> (r: (int, int))
    requires
        is_referrer_listing(listing, t.referrers, repo),
        t.referrers.contains_key((repo, s, d)),
    ensures
        0 <= r.0 < listing.len(),
        subject_list(listing)[r.0].0 == s,
        0 <= r.1 < subject_list(listing)[r.0].1.len(),
        subject_list(listing)[r.0].1[r.1] == (d, t.referrers[(repo, s, d)]),
{
    let names = crate::metadata::query::listed_subjects(listing);
    assert(crate::metadata::query::subjects_of(t.referrers, repo).contains(s));
    assert(names.to_set().contains(s));
    let i = choose|i: int| 0 <= i < names.len() && names[i] == s;
    let refs = listing[i].1@;
    let m = crate::metadata::query::referrers_of(t.referrers, repo, s);
    assert(crate::metadata::query::is_full_listing(refs, m));
    let ds = crate::metadata::referrers::referrer_digests(refs);
    assert(m.contains_key(d));
    assert(ds.to_set().contains(d));
    let n = choose|n: int| 0 <= n < ds.len() && ds[n] == d;
    assert(refs[n].0@ == d);
    assert(subject_list(listing)[i].1[n] == (d, refs[n].1@));
    (i, n)
}

/// The texts of a finite set of descriptors are finitely many.
proof fn lemma_media_finite(t: Tables, repo: Text)
    requires
        t.media_types.dom().finite(),
    ensures
        media_of(t.media_types, repo).dom().finite(),
{
    let all = t.media_types.dom().map(|k: (Text, Text)| k.1);
    let some = media_of(t.media_types, repo).dom();
    t.media_types.dom().lemma_map_finite(|k: (Text, Text)| k.1);
    assert forall|d: Text| some.contains(d) implies all.contains(d) by {
        assert(t.media_types.dom().contains((repo, d)));
    }
    vstd::set_lib::lemma_set_subset_finite(all, some);
}

/// The descriptors are those of the manifests on record and of the referrers.
proof fn lemma_described(
    t: Tables,
    repo: Text,
    listing: Seq<(String, Vec<Referrer>)>,
    entries: Seq<JsonModel>,
    sizes: Map<Text, u64>,
    d: Text,
)
    requires
        is_referrer_listing(listing, t.referrers, repo),
    ensures
        base_of(t, repo, listing, entries, sizes).contains_key(d) <==> t.media_types.contains_key(
            (repo, d),
        ) || exists|s: Text| #[trigger] t.referrers.contains_key((repo, s, d)),
        t.media_types.dom().finite() ==> base_of(t, repo, listing, entries, sizes).dom().finite(),
{
    let known = known_bases(entries, media_of(t.media_types, repo), sizes);
    lemma_all_of(known, subject_list(listing), d);
    lemma_listing(t, repo, listing, d);
    if t.media_types.dom().finite() {
        lemma_media_finite(t, repo);
        assert(known.dom() =~= media_of(t.media_types, repo).dom());
    }
}

/// A manifest is on record, or known as a referrer.
pub open spec fn on_record(t: Tables, repo: Text, d: Text) -> bool {
    t.media_types.contains_key((repo, d)) || exists|s: Text|
        #[trigger] t.referrers.contains_key((repo, s, d))
}

/// A tag of the repository points at the manifest.
pub open spec fn is_tagged(t: Tables, repo: Text, d: Text) -> bool {
    exists|tag: Text| #[trigger] t.tags.contains_key((repo, tag)) && t.tags[(repo, tag)].0 == d
}

/// Which manifests the tag listing speaks of.
proof fn lemma_tagged(t: Tables, repo: Text, tags: Seq<(String, String, String)>, d: Text)
    requires
        is_tag_listing(tags, t.tags, repo),
    ensures
        has_tag(tag_list(tags), d) <==> is_tagged(t, repo, d),
{
    let pairs = tag_list(tags);
    if has_tag(pairs, d) {
        let i = choose|i: int| #![trigger pairs[i]] 0 <= i < pairs.len() && pairs[i].1 == d;
        assert(tags[i].1@ == d);
        assert(t.tags.contains_key((repo, tags[i].0@)));
    }
    if is_tagged(t, repo, d) {
        let tag = choose|tag: Text| #[trigger]
            t.tags.contains_key((repo, tag)) && t.tags[(repo, tag)].0 == d;
        let names = crate::metadata::query::listed_tags(tags);
        assert(crate::page::seconds(t.tags.dom(), repo).contains(tag));
        assert(names.to_set().contains(tag));
        let i = choose|i: int| 0 <= i < names.len() && names[i] == tag;
        assert(tags[i].0@ == tag);
        assert(pairs[i].1 == d);
    }
}

/// A manifest without a tag is listed too, exactly once, under its digest and
/// without a tag; and one on record with the recorded media type and the known
/// size.
pub proof fn untagged_manifest_is_listed(
    t: Tables,
    repo: Text,
    listing: Seq<(String, Vec<Referrer>)>,
    tags: Seq<(String, String, String)>,
    top: Fields,
    sizes: Map<Text, u64>,
    entries: Seq<JsonModel>,
    d: Text,
) -> (j: int)
    requires
        t.media_types.dom().finite(),
        is_tag_listing(tags, t.tags, repo),
        is_referrer_listing(listing, t.referrers, repo),
        top.contains_key("manifests"@),
        top["manifests"@] == JsonModel::List(entries),
        on_record(t, repo, d),
        !is_tagged(t, repo, d),
    ensures
        ({
            let l = listed(index_of(t, repo, listing, tags, top, sizes));
            &&& 0 <= j < l.len()
            &&& says(l[j], "digest"@, d)
            &&& forall|tag: Text| !#[trigger] names_tag(l[j], tag)
            &&& t.media_types.contains_key((repo, d)) ==> says(
                l[j],
                "mediaType"@,
                t.media_types[(repo, d)],
            ) && forall|v: JsonModel| #[trigger]
                known_size(entries, sizes, d, v) ==> holds(l[j], "size"@, v)
            &&& forall|i: int|
                0 <= i < l.len() && says(#[trigger] l[i], "digest"@, d) && !of_another_tool(
                    t,
                    repo,
                    l[i],
                ) && t.media_types.contains_key((repo, d)) ==> i == j
        }),
{
    let base = base_of(t, repo, listing, entries, sizes);
    let pairs = tag_list(tags);
    let l = listed(index_of(t, repo, listing, tags, top, sizes));
    lemma_parts(t, repo, listing, tags, top, sizes, entries);
    lemma_described(t, repo, listing, entries, sizes, d);
    lemma_untitled(t, repo, listing, entries, sizes);
    lemma_tagged(t, repo, tags, d);
    let want = Set::new(|x: Text| base.contains_key(x) && !has_tag(pairs, x));
    vstd::set_lib::lemma_set_subset_finite(base.dom(), want);
    crate::metadata::redb_model::lemma_sorted_texts(want);
    let names = untagged(base, pairs);
    assert(names.to_set().contains(d));
    let n = choose|n: int| 0 <= n < names.len() && names[n] == d;
    let head = tagged_entries(base, pairs);
    let rest = names.map_values(|x: Text| JsonModel::Object(base[x]));
    let foreign = foreign_entries(entries, media_of(t.media_types, repo).dom());
    let j = head.len() + n;
    assert(l[j] == rest[n]);
    assert(l[j] == JsonModel::Object(base[d]));
    if t.media_types.contains_key((repo, d)) {
        lemma_known(t, repo, listing, entries, sizes, d);
        assert forall|i: int|
            0 <= i < l.len() && says(#[trigger] l[i], "digest"@, d) && !of_another_tool(
                t,
                repo,
                l[i],
            ) implies i == j by {
            if i < head.len() {
                let k = lemma_tagged_from(base, pairs, i);
                lemma_names();
                lemma_naming(base[pairs[k].1], pairs[k].0);
                assert(l[i] == head[i]);
                assert(says(JsonModel::Object(base[pairs[k].1]), "digest"@, pairs[k].1));
                assert(naming(base[pairs[k].1], pairs[k].0).contains_key("digest"@));
                assert(pairs[k].1 == d);
                assert(has_tag(pairs, d));
            } else if i < head.len() + rest.len() {
                let m = i - head.len();
                assert(l[i] == rest[m]);
                assert(names.to_set().contains(names[m]));
                assert(says(JsonModel::Object(base[names[m]]), "digest"@, names[m]));
                assert(names[m] == d);
                if m < n {
                    assert(crate::text::text_lt(names[m], names[n]));
                    crate::text::text_lt_irreflexive(d);
                } else if n < m {
                    assert(crate::text::text_lt(names[n], names[m]));
                    crate::text::text_lt_irreflexive(d);
                }
            } else {
                let m = i - head.len() - rest.len();
                assert(l[i] == foreign[m]);
                assert(foreign.contains(foreign[m]));
                foreign_entries_stay_and_deleted_ones_go(
                    entries,
                    media_of(t.media_types, repo).dom(),
                    l[i],
                );
                only_digest_tag_and_subject_make_an_entry_foreign(t, repo, l[i]);
            }
        }
    }
    j
}

/// Whatever is listed is of a manifest on record or of a referrer, under a tag only
/// where that tag points at it, or it was on disk and another tool wrote it: what
/// was deleted goes.
pub proof fn nothing_else_is_listed(
    t: Tables,
    repo: Text,
    listing: Seq<(String, Vec<Referrer>)>,
    tags: Seq<(String, String, String)>,
    top: Fields,
    sizes: Map<Text, u64>,
    entries: Seq<JsonModel>,
    j: int,
)
    requires
        t.media_types.dom().finite(),
        is_tag_listing(tags, t.tags, repo),
        is_referrer_listing(listing, t.referrers, repo),
        top.contains_key("manifests"@),
        top["manifests"@] == JsonModel::List(entries),
        0 <= j < listed(index_of(t, repo, listing, tags, top, sizes)).len(),
    ensures
        ({
            let e = listed(index_of(t, repo, listing, tags, top, sizes))[j];
            ||| entries.contains(e) && of_another_tool(t, repo, e)
            ||| exists|d: Text|
                {
                    &&& #[trigger] says(e, "digest"@, d)
                    &&& on_record(t, repo, d)
                    &&& forall|tag: Text| #[trigger]
                        names_tag(e, tag) ==> t.tags.contains_key((repo, tag)) && t.tags[(
                            repo,
                            tag,
                        )].0 == d
                }
        }),
{
    let base = base_of(t, repo, listing, entries, sizes);
    let pairs = tag_list(tags);
    let l = listed(index_of(t, repo, listing, tags, top, sizes));
    lemma_parts(t, repo, listing, tags, top, sizes, entries);
    lemma_untitled(t, repo, listing, entries, sizes);
    let some = choose|x: Text| base.contains_key(x);
    lemma_described(t, repo, listing, entries, sizes, some);
    let want = Set::new(|x: Text| base.contains_key(x) && !has_tag(pairs, x));
    vstd::set_lib::lemma_set_subset_finite(base.dom(), want);
    crate::metadata::redb_model::lemma_sorted_texts(want);
    let names = untagged(base, pairs);
    let head = tagged_entries(base, pairs);
    let rest = names.map_values(|x: Text| JsonModel::Object(base[x]));
    let foreign = foreign_entries(entries, media_of(t.media_types, repo).dom());
    let e = l[j];
    if j < head.len() {
        let k = lemma_tagged_from(base, pairs, j);
        let d = pairs[k].1;
        lemma_names();
        lemma_naming(base[d], pairs[k].0);
        assert(e == head[j]);
        assert(says(JsonModel::Object(base[d]), "digest"@, d));
        assert(naming(base[d], pairs[k].0).contains_key("digest"@));
        assert(says(e, "digest"@, d));
        lemma_described(t, repo, listing, entries, sizes, d);
        assert(tags[k].0@ == pairs[k].0);
        assert(t.tags.contains_key((repo, tags[k].0@)));
    } else if j < head.len() + rest.len() {
        let d = names[j - head.len()];
        assert(e == rest[j - head.len()]);
        assert(names.to_set().contains(d));
        assert(want.contains(d));
        assert(says(JsonModel::Object(base[d]), "digest"@, d));
        lemma_described(t, repo, listing, entries, sizes, d);
        assert(says(e, "digest"@, d));
    } else {
        assert(e == foreign[j - head.len() - rest.len()]);
        assert(foreign.contains(e));
        foreign_entries_stay_and_deleted_ones_go(
            entries,
            media_of(t.media_types, repo).dom(),
            e,
        );
        only_digest_tag_and_subject_make_an_entry_foreign(t, repo, e);
    }
}

/// The descriptor under which a manifest on record or a referrer is listed, with
/// its tag or without.
proof fn lemma_listed_fields(
    t: Tables,
    repo: Text,
    listing: Seq<(String, Vec<Referrer>)>,
    tags: Seq<(String, String, String)>,
    top: Fields,
    sizes: Map<Text, u64>,
    entries: Seq<JsonModel>,
    j: int,
    d: Text,
)
    requires
        t.media_types.dom().finite(),
        is_tag_listing(tags, t.tags, repo),
        is_referrer_listing(listing, t.referrers, repo),
        top.contains_key("manifests"@),
        top["manifests"@] == JsonModel::List(entries),
        0 <= j < listed(index_of(t, repo, listing, tags, top, sizes)).len(),
        says(listed(index_of(t, repo, listing, tags, top, sizes))[j], "digest"@, d),
        !of_another_tool(t, repo, listed(index_of(t, repo, listing, tags, top, sizes))[j]),
    ensures
        base_of(t, repo, listing, entries, sizes).contains_key(d),
        forall|k: Text, v: JsonModel| #[trigger]
            holds(JsonModel::Object(base_of(t, repo, listing, entries, sizes)[d]), k, v) && k
                != "annotations"@ ==> holds(
                listed(index_of(t, repo, listing, tags, top, sizes))[j],
                k,
                v,
            ),
        forall|k: Text, v: JsonModel| #[trigger]
            holds(listed(index_of(t, repo, listing, tags, top, sizes))[j], k, v) && k
                != "annotations"@ ==> holds(
                JsonModel::Object(base_of(t, repo, listing, entries, sizes)[d]),
                k,
                v,
            ),
        forall|k: Text, v: JsonModel| #[trigger]
            annotated(listed(index_of(t, repo, listing, tags, top, sizes))[j], k, v) && k
                != "org.opencontainers.image.ref.name"@ ==> annotated(
                JsonModel::Object(base_of(t, repo, listing, entries, sizes)[d]),
                k,
                v,
            ),
{
    let base = base_of(t, repo, listing, entries, sizes);
    let pairs = tag_list(tags);
    let l = listed(index_of(t, repo, listing, tags, top, sizes));
    lemma_parts(t, repo, listing, tags, top, sizes, entries);
    lemma_untitled(t, repo, listing, entries, sizes);
    lemma_described(t, repo, listing, entries, sizes, d);
    let want = Set::new(|x: Text| base.contains_key(x) && !has_tag(pairs, x));
    vstd::set_lib::lemma_set_subset_finite(base.dom(), want);
    crate::metadata::redb_model::lemma_sorted_texts(want);
    let names = untagged(base, pairs);
    let head = tagged_entries(base, pairs);
    let rest = names.map_values(|x: Text| JsonModel::Object(base[x]));
    let foreign = foreign_entries(entries, media_of(t.media_types, repo).dom());
    let e = l[j];
    if j < head.len() {
        let k = lemma_tagged_from(base, pairs, j);
        lemma_names();
        lemma_naming(base[pairs[k].1], pairs[k].0);
        assert(e == head[j]);
        assert(says(JsonModel::Object(base[pairs[k].1]), "digest"@, pairs[k].1));
        assert(naming(base[pairs[k].1], pairs[k].0).contains_key("digest"@));
        assert(d == pairs[k].1);
        assert forall|f: Text, v: JsonModel| #[trigger]
            holds(JsonModel::Object(base[d]), f, v) && f != "annotations"@ implies holds(e, f, v) by {
            assert(naming(base[d], pairs[k].0).contains_key(f));
        }
        assert forall|f: Text, v: JsonModel| #[trigger] holds(e, f, v) && f
            != "annotations"@ implies holds(JsonModel::Object(base[d]), f, v) by {
            assert(naming(base[d], pairs[k].0).contains_key(f));
        }
    } else if j < head.len() + rest.len() {
        let n = names[j - head.len()];
        assert(e == rest[j - head.len()]);
        assert(names.to_set().contains(n));
        assert(want.contains(n));
        assert(says(JsonModel::Object(base[n]), "digest"@, n));
        assert(n == d);
    } else {
        assert(e == foreign[j - head.len() - rest.len()]);
        assert(foreign.contains(e));
        foreign_entries_stay_and_deleted_ones_go(
            entries,
            media_of(t.media_types, repo).dom(),
            e,
        );
        only_digest_tag_and_subject_make_an_entry_foreign(t, repo, e);
    }
}

/// What is on disk about a manifest on record that is nobody's referrer stays:
/// every field but those that the store owns.
pub proof fn fields_on_disk_stay(
    t: Tables,
    repo: Text,
    listing: Seq<(String, Vec<Referrer>)>,
    tags: Seq<(String, String, String)>,
    top: Fields,
    sizes: Map<Text, u64>,
    entries: Seq<JsonModel>,
    i: int,
    j: int,
    d: Text,
    k: Text,
    v: JsonModel,
)
    requires
        t.media_types.dom().finite(),
        is_tag_listing(tags, t.tags, repo),
        is_referrer_listing(listing, t.referrers, repo),
        top.contains_key("manifests"@),
        top["manifests"@] == JsonModel::List(entries),
        t.media_types.contains_key((repo, d)),
        forall|s: Text| !#[trigger] t.referrers.contains_key((repo, s, d)),
        first_about(entries, i, d),
        holds(entries[i], k, v),
        k != "mediaType"@ && k != "annotations"@,
        0 <= j < listed(index_of(t, repo, listing, tags, top, sizes)).len(),
        says(listed(index_of(t, repo, listing, tags, top, sizes))[j], "digest"@, d),
    ensures
        holds(listed(index_of(t, repo, listing, tags, top, sizes))[j], k, v),
{
    lemma_names();
    let media = media_of(t.media_types, repo);
    let known = known_bases(entries, media, sizes);
    let base = base_of(t, repo, listing, entries, sizes);
    lemma_listed_fields(t, repo, listing, tags, top, sizes, entries, j, d);
    lemma_listing(t, repo, listing, d);
    lemma_all_of(known, subject_list(listing), d);
    assert(known.contains_key(d));
    assert(base[d] == known[d]);
    let n = lemma_first(entries, d);
    if first_entry(entries, d) is Some {
        if i < n {
            assert(!says(entries[i], "digest"@, d));
        } else if n < i {
            assert(!says(entries[n], "digest"@, d));
        }
    }
    assert(on_disk(entries, d) == stripped(entries[i]->Object_0));
    assert(holds(JsonModel::Object(base[d]), k, v));
}

/// A referrer of one subject is listed with that subject and with the fields of
/// its recorded descriptor, such as its artifact type.
pub proof fn referrer_is_listed_with_its_subject(
    t: Tables,
    repo: Text,
    listing: Seq<(String, Vec<Referrer>)>,
    tags: Seq<(String, String, String)>,
    top: Fields,
    sizes: Map<Text, u64>,
    entries: Seq<JsonModel>,
    j: int,
    subject: Text,
    d: Text,
    r: Fields,
    k: Text,
)
    requires
        t.media_types.dom().finite(),
        is_tag_listing(tags, t.tags, repo),
        is_referrer_listing(listing, t.referrers, repo),
        top.contains_key("manifests"@),
        top["manifests"@] == JsonModel::List(entries),
        t.referrers.contains_key((repo, subject, d)),
        parsed(t.referrers[(repo, subject, d)]) == Some(JsonModel::Object(r)),
        forall|s: Text| #[trigger] t.referrers.contains_key((repo, s, d)) ==> s == subject,
        0 <= j < listed(index_of(t, repo, listing, tags, top, sizes)).len(),
        says(listed(index_of(t, repo, listing, tags, top, sizes))[j], "digest"@, d),
        !of_another_tool(t, repo, listed(index_of(t, repo, listing, tags, top, sizes))[j]),
    ensures
        ({
            let e = listed(index_of(t, repo, listing, tags, top, sizes))[j];
            &&& e matches JsonModel::Object(o) && o.contains_key("subject"@) && says(
                o["subject"@],
                "digest"@,
                subject,
            )
            &&& r.contains_key(k) && k != "digest"@ && k != "mediaType"@ && k != "size"@ && k
                != "annotations"@ && k != "subject"@ ==> holds(e, k, r[k])
        }),
{
    lemma_names();
    let known = known_bases(entries, media_of(t.media_types, repo), sizes);
    let base = base_of(t, repo, listing, entries, sizes);
    let all = subject_list(listing);
    lemma_listed_fields(t, repo, listing, tags, top, sizes, entries, j, d);
    lemma_listing(t, repo, listing, d);
    let (i, n) = lemma_listed_at(t, repo, listing, subject, d);
    assert(all[i].1[n].0 == d);
    assert(among(all[i].1, d));
    lemma_single(t, repo, listing, subject, d, i, n);
    lemma_of_one_subject(known, all, i, d);
    lemma_once(known.restrict(set![d]), subject, all[i].1, n);
    let o = base[d];
    let s = crate::layout::index::subject_field(subject);
    assert(holds(JsonModel::Object(o), "subject"@, s));
    let e = listed(index_of(t, repo, listing, tags, top, sizes))[j];
    assert(holds(e, "subject"@, s));
    if r.contains_key(k) && k != "digest"@ && k != "mediaType"@ && k != "size"@ && k
        != "annotations"@ && k != "subject"@ {
        assert(holds(JsonModel::Object(o), k, r[k]));
    }
}

/// A descriptor carries the annotation.
pub open spec fn annotated(e: JsonModel, k: Text, v: JsonModel) -> bool {
    e matches JsonModel::Object(o) && o.contains_key("annotations"@) && holds(
        o["annotations"@],
        k,
        v,
    )
}

/// Referrers leave the annotations of a descriptor as they are.
proof fn lemma_annotated_some(
    base: Map<Text, Fields>,
    subject: Text,
    refs: Seq<(Text, Seq<u8>)>,
    d: Text,
    k: Text,
    v: JsonModel,
)
    requires
        base.contains_key(d),
        annotated(JsonModel::Object(base[d]), k, v),
    ensures
        with_referrers_of(base, subject, refs).contains_key(d),
        annotated(JsonModel::Object(with_referrers_of(base, subject, refs)[d]), k, v),
    decreases refs.len(),
{
    lemma_names();
    if refs.len() > 0 {
        lemma_annotated_some(base, subject, refs.drop_last(), d, k, v);
    }
}

/// Referrers leave the annotations of a descriptor as they are.
proof fn lemma_annotated_all(
    base: Map<Text, Fields>,
    listing: Seq<(Text, Seq<(Text, Seq<u8>)>)>,
    d: Text,
    k: Text,
    v: JsonModel,
)
    requires
        base.contains_key(d),
        annotated(JsonModel::Object(base[d]), k, v),
    ensures
        with_all_referrers(base, listing).contains_key(d),
        annotated(JsonModel::Object(with_all_referrers(base, listing)[d]), k, v),
    decreases listing.len(),
{
    if listing.len() > 0 {
        lemma_annotated_all(base, listing.drop_last(), d, k, v);
        lemma_annotated_some(
            with_all_referrers(base, listing.drop_last()),
            listing.last().0,
            listing.last().1,
            d,
            k,
            v,
        );
    }
}

/// The annotations on disk of a manifest on record stay, but for the tag's name,
/// whatever referrers say.
pub proof fn annotations_on_disk_stay(
    t: Tables,
    repo: Text,
    listing: Seq<(String, Vec<Referrer>)>,
    tags: Seq<(String, String, String)>,
    top: Fields,
    sizes: Map<Text, u64>,
    entries: Seq<JsonModel>,
    i: int,
    j: int,
    d: Text,
    k: Text,
    v: JsonModel,
)
    requires
        t.media_types.dom().finite(),
        is_tag_listing(tags, t.tags, repo),
        is_referrer_listing(listing, t.referrers, repo),
        top.contains_key("manifests"@),
        top["manifests"@] == JsonModel::List(entries),
        t.media_types.contains_key((repo, d)),
        first_about(entries, i, d),
        annotated(entries[i], k, v),
        k != "org.opencontainers.image.ref.name"@,
        0 <= j < listed(index_of(t, repo, listing, tags, top, sizes)).len(),
        says(listed(index_of(t, repo, listing, tags, top, sizes))[j], "digest"@, d),
    ensures
        annotated(listed(index_of(t, repo, listing, tags, top, sizes))[j], k, v),
{
    lemma_names();
    let known = known_bases(entries, media_of(t.media_types, repo), sizes);
    let base = base_of(t, repo, listing, entries, sizes);
    assert(known.contains_key(d));
    let n = lemma_first(entries, d);
    if first_entry(entries, d) is Some {
        if i < n {
            assert(!says(entries[i], "digest"@, d));
        } else if n < i {
            assert(!says(entries[n], "digest"@, d));
        }
    }
    let disk = entries[i]->Object_0;
    assert(on_disk(entries, d) == stripped(disk));
    let left = disk["annotations"@]->Object_0.remove("org.opencontainers.image.ref.name"@);
    assert(left.contains_key(k));
    assert(!(left =~= Map::<Text, JsonModel>::empty()));
    assert(annotated(JsonModel::Object(known[d]), k, v));
    lemma_annotated_all(known, subject_list(listing), d, k, v);
    lemma_listed_fields(t, repo, listing, tags, top, sizes, entries, j, d);
    lemma_listed_annotations(t, repo, listing, tags, top, sizes, entries, j, d, k, v);
}

/// The annotations under which a descriptor is listed.
proof fn lemma_listed_annotations(
    t: Tables,
    repo: Text,
    listing: Seq<(String, Vec<Referrer>)>,
    tags: Seq<(String, String, String)>,
    top: Fields,
    sizes: Map<Text, u64>,
    entries: Seq<JsonModel>,
    j: int,
    d: Text,
    k: Text,
    v: JsonModel,
)
    requires
        t.media_types.dom().finite(),
        is_tag_listing(tags, t.tags, repo),
        is_referrer_listing(listing, t.referrers, repo),
        top.contains_key("manifests"@),
        top["manifests"@] == JsonModel::List(entries),
        0 <= j < listed(index_of(t, repo, listing, tags, top, sizes)).len(),
        says(listed(index_of(t, repo, listing, tags, top, sizes))[j], "digest"@, d),
        !of_another_tool(t, repo, listed(index_of(t, repo, listing, tags, top, sizes))[j]),
        annotated(JsonModel::Object(base_of(t, repo, listing, entries, sizes)[d]), k, v),
        k != "org.opencontainers.image.ref.name"@,
    ensures
        annotated(listed(index_of(t, repo, listing, tags, top, sizes))[j], k, v),
{
    let base = base_of(t, repo, listing, entries, sizes);
    let pairs = tag_list(tags);
    let l = listed(index_of(t, repo, listing, tags, top, sizes));
    lemma_parts(t, repo, listing, tags, top, sizes, entries);
    lemma_untitled(t, repo, listing, entries, sizes);
    lemma_described(t, repo, listing, entries, sizes, d);
    let want = Set::new(|x: Text| base.contains_key(x) && !has_tag(pairs, x));
    vstd::set_lib::lemma_set_subset_finite(base.dom(), want);
    crate::metadata::redb_model::lemma_sorted_texts(want);
    let names = untagged(base, pairs);
    let head = tagged_entries(base, pairs);
    let rest = names.map_values(|x: Text| JsonModel::Object(base[x]));
    let foreign = foreign_entries(entries, media_of(t.media_types, repo).dom());
    let e = l[j];
    if j < head.len() {
        let n = lemma_tagged_from(base, pairs, j);
        lemma_names();
        lemma_naming(base[pairs[n].1], pairs[n].0);
        assert(e == head[j]);
        assert(says(JsonModel::Object(base[pairs[n].1]), "digest"@, pairs[n].1));
        assert(naming(base[pairs[n].1], pairs[n].0).contains_key("digest"@));
        assert(d == pairs[n].1);
    } else if j < head.len() + rest.len() {
        let n = names[j - head.len()];
        assert(e == rest[j - head.len()]);
        assert(names.to_set().contains(n));
        assert(want.contains(n));
        assert(says(JsonModel::Object(base[n]), "digest"@, n));
        assert(n == d);
    } else {
        assert(e == foreign[j - head.len() - rest.len()]);
        assert(foreign.contains(e));
        foreign_entries_stay_and_deleted_ones_go(
            entries,
            media_of(t.media_types, repo).dom(),
            e,
        );
        only_digest_tag_and_subject_make_an_entry_foreign(t, repo, e);
    }
}

/// A referrer of one subject is listed with the annotations of its recorded
/// descriptor that it does not have on disk, but for a tag's name.
pub proof fn referrer_is_listed_with_its_annotations(
    t: Tables,
    repo: Text,
    listing: Seq<(String, Vec<Referrer>)>,
    tags: Seq<(String, String, String)>,
    top: Fields,
    sizes: Map<Text, u64>,
    entries: Seq<JsonModel>,
    j: int,
    subject: Text,
    d: Text,
    r: JsonModel,
    k: Text,
    v: JsonModel,
)
    requires
        t.media_types.dom().finite(),
        is_tag_listing(tags, t.tags, repo),
        is_referrer_listing(listing, t.referrers, repo),
        top.contains_key("manifests"@),
        top["manifests"@] == JsonModel::List(entries),
        t.referrers.contains_key((repo, subject, d)),
        parsed(t.referrers[(repo, subject, d)]) == Some(r),
        forall|s: Text| #[trigger] t.referrers.contains_key((repo, s, d)) ==> s == subject,
        annotated(r, k, v),
        k != "org.opencontainers.image.ref.name"@,
        forall|i: int, x: JsonModel|
            0 <= i < entries.len() && says(#[trigger] entries[i], "digest"@, d) ==> !#[trigger] holds(
                entries[i],
                "annotations"@,
                x,
            ),
        0 <= j < listed(index_of(t, repo, listing, tags, top, sizes)).len(),
        says(listed(index_of(t, repo, listing, tags, top, sizes))[j], "digest"@, d),
        !of_another_tool(t, repo, listed(index_of(t, repo, listing, tags, top, sizes))[j]),
    ensures
        annotated(listed(index_of(t, repo, listing, tags, top, sizes))[j], k, v),
{
    lemma_names();
    let known = known_bases(entries, media_of(t.media_types, repo), sizes);
    let base = base_of(t, repo, listing, entries, sizes);
    let all = subject_list(listing);
    lemma_listing(t, repo, listing, d);
    let (i, n) = lemma_listed_at(t, repo, listing, subject, d);
    lemma_single(t, repo, listing, subject, d, i, n);
    lemma_of_one_subject(known, all, i, d);
    lemma_once(known.restrict(set![d]), subject, all[i].1, n);
    let f = lemma_first(entries, d);
    if known.contains_key(d) && known[d].contains_key("annotations"@) && first_entry(entries, d)
        is Some {
        assert(holds(entries[f], "annotations"@, entries[f]->Object_0["annotations"@]));
    }
    assert(annotated(JsonModel::Object(base[d]), k, v));
    lemma_listed_annotations(t, repo, listing, tags, top, sizes, entries, j, d, k, v);
}

/// A referrer of one subject stands once in the listing.
proof fn lemma_single(
    t: Tables,
    repo: Text,
    listing: Seq<(String, Vec<Referrer>)>,
    subject: Text,
    d: Text,
    i: int,
    n: int,
)
    requires
        is_referrer_listing(listing, t.referrers, repo),
        forall|s: Text| #[trigger] t.referrers.contains_key((repo, s, d)) ==> s == subject,
        0 <= i < listing.len(),
        subject_list(listing)[i].0 == subject,
        0 <= n < subject_list(listing)[i].1.len(),
        subject_list(listing)[i].1[n].0 == d,
    ensures
        among(subject_list(listing)[i].1, d),
        forall|x: int|
            #![trigger subject_list(listing)[x]]
            0 <= x < listing.len() && among(subject_list(listing)[x].1, d) ==> x == i,
        forall|x: int|
            #![trigger subject_list(listing)[i].1[x]]
            0 <= x < subject_list(listing)[i].1.len() && subject_list(listing)[i].1[x].0 == d ==> x
                == n,
{
    let all = subject_list(listing);
    lemma_listing(t, repo, listing, d);
    assert(among(all[i].1, d));
    let names = crate::metadata::query::listed_subjects(listing);
    assert forall|x: int| #![trigger all[x]] 0 <= x < all.len() && among(all[x].1, d) implies x
        == i by {
        let m = choose|m: int| #![trigger all[x].1[m]] 0 <= m < all[x].1.len() && all[x].1[m].0 == d;
        assert(t.referrers.contains_key((repo, all[x].0, d)));
        assert(names[x] == subject && names[i] == subject);
        crate::text::text_lt_irreflexive(subject);
        if x < i {
            assert(crate::text::text_lt(names[x], names[i]));
        } else if i < x {
            assert(crate::text::text_lt(names[i], names[x]));
        }
    }
    let refs = all[i].1;
    let ds = crate::metadata::referrers::referrer_digests(listing[i].1@);
    assert(crate::metadata::query::is_full_listing(
        listing[i].1@,
        crate::metadata::query::referrers_of(t.referrers, repo, subject),
    ));
    assert forall|x: int| #![trigger refs[x]] 0 <= x < refs.len() && refs[x].0 == d implies x
        == n by {
        assert(ds[x] == d && ds[n] == d);
        crate::text::text_lt_irreflexive(d);
        if x < n {
            assert(crate::text::text_lt(ds[x], ds[n]));
        } else if n < x {
            assert(crate::text::text_lt(ds[n], ds[x]));
        }
    }
}

/// A tag's name is all that is taken from a descriptor on disk, and annotations
/// that hold nothing else go with it.
pub proof fn only_the_tag_is_taken_off(o: Fields, k: Text, a: Fields)
    ensures
        forall|tag: Text| !#[trigger] names_tag(JsonModel::Object(stripped(o)), tag),
        k != "annotations"@ ==> (stripped(o).contains_key(k) <==> o.contains_key(k)) && (
        o.contains_key(k) ==> stripped(o)[k] == o[k]),
        holds(JsonModel::Object(o), "annotations"@, JsonModel::Object(a)) && (forall|x: Text| #[trigger]
            a.contains_key(x) ==> x == "org.opencontainers.image.ref.name"@) ==> !stripped(
            o,
        ).contains_key("annotations"@),
        holds(JsonModel::Object(o), "annotations"@, JsonModel::Object(a)) && a.contains_key(k) && k
            != "org.opencontainers.image.ref.name"@ ==> annotated(
            JsonModel::Object(stripped(o)),
            k,
            a[k],
        ),
        stripped(o).contains_key("annotations"@) ==> o.contains_key("annotations"@),
{
    let left = a.remove("org.opencontainers.image.ref.name"@);
    if forall|x: Text| #[trigger] a.contains_key(x) ==> x == "org.opencontainers.image.ref.name"@ {
        assert(left =~= Map::<Text, JsonModel>::empty());
    }
    if a.contains_key(k) && k != "org.opencontainers.image.ref.name"@ {
        assert(left.contains_key(k));
    }
}

/// A size is on disk of a manifest where the first entry about it has one.
pub proof fn size_on_disk_is_that_of_the_first_entry(entries: Seq<JsonModel>, d: Text)
    ensures
        on_disk(entries, d).contains_key("size"@) <==> exists|i: int, v: JsonModel| #[trigger]
            first_about(entries, i, d) && #[trigger] holds(entries[i], "size"@, v),
{
    lemma_names();
    let n = lemma_first(entries, d);
    if first_entry(entries, d) is Some && on_disk(entries, d).contains_key("size"@) {
        assert(holds(entries[n], "size"@, entries[n]->Object_0["size"@]));
    }
    if exists|i: int, v: JsonModel| #[trigger]
        first_about(entries, i, d) && #[trigger] holds(entries[i], "size"@, v) {
        let (i, v) = choose|i: int, v: JsonModel| #[trigger]
            first_about(entries, i, d) && #[trigger] holds(entries[i], "size"@, v);
        if first_entry(entries, d) is Some {
            if i < n {
                assert(!says(entries[i], "digest"@, d));
            } else if n < i {
                assert(!says(entries[n], "digest"@, d));
            }
        }
    }
}

/// An empty index is one of schema version 2 and of the index media type that
/// lists nothing, and says nothing else.
pub proof fn empty_index_lists_nothing(k: Text)
    ensures
        says(no_manifests(), "mediaType"@, "application/vnd.oci.image.index.v1+json"@),
        holds(
            no_manifests(),
            "schemaVersion"@,
            JsonModel::Number(JsonNumberModel::Natural(2)),
        ),
        no_manifests() matches JsonModel::Object(o) && o.contains_key("manifests"@) && (
        o["manifests"@] matches JsonModel::List(l) && l.len() == 0),
        no_manifests() matches JsonModel::Object(o) && (o.contains_key(k) ==> k == "mediaType"@ || k
            == "schemaVersion"@ || k == "manifests"@),
{
    crate::layout::laws::lemma_field_names();
    reveal_strlit("mediaType");
    reveal_strlit("schemaVersion");
    assert("mediaType"@.len() == 9 && "schemaVersion"@.len() == 13);
}

/// A manifest on record that is nobody's referrer is listed with nothing but what
/// was on disk about it, its digest, its media type, a size, and its tag.
pub proof fn nothing_is_added_to_a_descriptor(
    t: Tables,
    repo: Text,
    listing: Seq<(String, Vec<Referrer>)>,
    tags: Seq<(String, String, String)>,
    top: Fields,
    sizes: Map<Text, u64>,
    entries: Seq<JsonModel>,
    j: int,
    d: Text,
    k: Text,
    v: JsonModel,
)
    requires
        t.media_types.dom().finite(),
        is_tag_listing(tags, t.tags, repo),
        is_referrer_listing(listing, t.referrers, repo),
        top.contains_key("manifests"@),
        top["manifests"@] == JsonModel::List(entries),
        t.media_types.contains_key((repo, d)),
        forall|s: Text| !#[trigger] t.referrers.contains_key((repo, s, d)),
        0 <= j < listed(index_of(t, repo, listing, tags, top, sizes)).len(),
        says(listed(index_of(t, repo, listing, tags, top, sizes))[j], "digest"@, d),
    ensures
        ({
            let e = listed(index_of(t, repo, listing, tags, top, sizes))[j];
            &&& holds(e, k, v) && k != "digest"@ && k != "mediaType"@ && k != "annotations"@ ==> (
            exists|i: int| #[trigger] first_about(entries, i, d) && holds(entries[i], k, v)) || (k
                == "size"@ && known_size(entries, sizes, d, v))
            &&& annotated(e, k, v) && k != "org.opencontainers.image.ref.name"@ ==> exists|i: int|
                #[trigger] first_about(entries, i, d) && annotated(entries[i], k, v)
        }),
{
    lemma_names();
    let known = known_bases(entries, media_of(t.media_types, repo), sizes);
    let base = base_of(t, repo, listing, entries, sizes);
    let e = listed(index_of(t, repo, listing, tags, top, sizes))[j];
    lemma_listed_fields(t, repo, listing, tags, top, sizes, entries, j, d);
    lemma_listing(t, repo, listing, d);
    lemma_all_of(known, subject_list(listing), d);
    assert(known.contains_key(d));
    assert(base[d] == known[d]);
    let n = lemma_first(entries, d);
    if holds(e, k, v) && k != "digest"@ && k != "mediaType"@ && k != "annotations"@ {
        assert(holds(JsonModel::Object(base[d]), k, v));
        if first_entry(entries, d) is Some {
            assert(first_about(entries, n, d));
            if k == "size"@ && !holds(entries[n], k, v) {
                assert forall|i: int| #[trigger] first_about(entries, i, d) implies forall|
                    x: JsonModel,
                |
                    !#[trigger] holds(entries[i], "size"@, x) by {
                    if i < n {
                        assert(!says(entries[i], "digest"@, d));
                    } else if n < i {
                        assert(!says(entries[n], "digest"@, d));
                    }
                }
                assert(known_size(entries, sizes, d, v));
            }
        } else {
            assert(known_size(entries, sizes, d, v));
        }
    }
    if annotated(e, k, v) && k != "org.opencontainers.image.ref.name"@ {
        assert(annotated(JsonModel::Object(base[d]), k, v));
        assert(first_about(entries, n, d));
        assert(annotated(entries[n], k, v));
    }
}

/// A referrer of one subject is listed with nothing but what was on disk about it
/// and what its recorded descriptor says, its digest, its media type, a size, its
/// subject, and its tag.
pub proof fn nothing_is_added_to_a_referrer(
    t: Tables,
    repo: Text,
    listing: Seq<(String, Vec<Referrer>)>,
    tags: Seq<(String, String, String)>,
    top: Fields,
    sizes: Map<Text, u64>,
    entries: Seq<JsonModel>,
    j: int,
    subject: Text,
    d: Text,
    r: JsonModel,
    k: Text,
    v: JsonModel,
)
    requires
        t.media_types.dom().finite(),
        is_tag_listing(tags, t.tags, repo),
        is_referrer_listing(listing, t.referrers, repo),
        top.contains_key("manifests"@),
        top["manifests"@] == JsonModel::List(entries),
        t.referrers.contains_key((repo, subject, d)),
        parsed(t.referrers[(repo, subject, d)]) == Some(r),
        forall|s: Text| #[trigger] t.referrers.contains_key((repo, s, d)) ==> s == subject,
        0 <= j < listed(index_of(t, repo, listing, tags, top, sizes)).len(),
        says(listed(index_of(t, repo, listing, tags, top, sizes))[j], "digest"@, d),
        !of_another_tool(t, repo, listed(index_of(t, repo, listing, tags, top, sizes))[j]),
    ensures
        ({
            let e = listed(index_of(t, repo, listing, tags, top, sizes))[j];
            &&& holds(e, k, v) && k != "digest"@ && k != "mediaType"@ && k != "size"@ && k
                != "annotations"@ && k != "subject"@ ==> holds(r, k, v) || exists|i: int| #[trigger]
                first_about(entries, i, d) && holds(entries[i], k, v)
            &&& annotated(e, k, v) && k != "org.opencontainers.image.ref.name"@ ==> annotated(
                r,
                k,
                v,
            ) || exists|i: int| #[trigger]
                first_about(entries, i, d) && annotated(entries[i], k, v)
        }),
{
    lemma_names();
    let known = known_bases(entries, media_of(t.media_types, repo), sizes);
    let base = base_of(t, repo, listing, entries, sizes);
    let all = subject_list(listing);
    let e = listed(index_of(t, repo, listing, tags, top, sizes))[j];
    lemma_listed_fields(t, repo, listing, tags, top, sizes, entries, j, d);
    lemma_listing(t, repo, listing, d);
    let (i, n) = lemma_listed_at(t, repo, listing, subject, d);
    lemma_single(t, repo, listing, subject, d, i, n);
    lemma_of_one_subject(known, all, i, d);
    lemma_once(known.restrict(set![d]), subject, all[i].1, n);
    let f = lemma_first(entries, d);
    if holds(e, k, v) && k != "digest"@ && k != "mediaType"@ && k != "size"@ && k != "annotations"@ && k
        != "subject"@ {
        assert(holds(JsonModel::Object(base[d]), k, v));
        if !holds(r, k, v) {
            assert(first_about(entries, f, d));
            assert(holds(entries[f], k, v));
        }
    }
    if annotated(e, k, v) && k != "org.opencontainers.image.ref.name"@ {
        assert(annotated(JsonModel::Object(base[d]), k, v));
        if !annotated(r, k, v) {
            assert(first_about(entries, f, d));
            assert(annotated(entries[f], k, v));
        }
    }
}

/// No index on disk, or one that is no object, counts as one without fields; and an
/// object without a list of manifests counts as one that lists none.
pub proof fn missing_index_counts_as_empty(
    media_types: Map<Text, Text>,
    listing: Seq<(Text, Seq<(Text, Seq<u8>)>)>,
    tags: Seq<(Text, Text)>,
    sizes: Map<Text, u64>,
    v: JsonModel,
    top: Fields,
)
    ensures
        ({
            let empty = Some(
                JsonModel::Object(
                    Map::empty().insert("manifests"@, JsonModel::List(Seq::empty())),
                ),
            );
            let bare = index_model(media_types, listing, tags, empty, sizes);
            &&& index_model(media_types, listing, tags, None, sizes) == bare
            &&& !(v is Object) ==> index_model(media_types, listing, tags, Some(v), sizes) == bare
            &&& !(top.contains_key("manifests"@) && top["manifests"@] is List) ==> index_model(
                media_types,
                listing,
                tags,
                Some(JsonModel::Object(top)),
                sizes,
            ) == index_model(
                media_types,
                listing,
                tags,
                Some(
                    JsonModel::Object(top.insert("manifests"@, JsonModel::List(Seq::empty()))),
                ),
                sizes,
            )
        }),
{
    crate::layout::laws::lemma_field_names();
    let none = Seq::<JsonModel>::empty();
    let base = with_all_referrers(known_bases(none, media_types, sizes), listing);
    let foreign = foreign_entries(none, media_types.dom());
    let first = Map::<Text, JsonModel>::empty().insert("manifests"@, JsonModel::List(none));
    lemma_same_rebuilt(Map::empty(), first, base, tags, foreign);
    lemma_same_rebuilt(
        top,
        top.insert("manifests"@, JsonModel::List(none)),
        base,
        tags,
        foreign,
    );
}

/// The list of an index is written anew, whatever it was.
proof fn lemma_same_rebuilt(
    a: Fields,
    b: Fields,
    base: Map<Text, Fields>,
    tags: Seq<(Text, Text)>,
    foreign: Seq<JsonModel>,
)
    requires
        forall|k: Text| k != "manifests"@ ==> (#[trigger] a.contains_key(k) <==> b.contains_key(k)),
        forall|k: Text| k != "manifests"@ && a.contains_key(k) ==> #[trigger] a[k] == b[k],
    ensures
        rebuilt(a, base, tags, foreign) == rebuilt(b, base, tags, foreign),
{
    let x = rebuilt(a, base, tags, foreign)->Object_0;
    let y = rebuilt(b, base, tags, foreign)->Object_0;
    assert forall|k: Text| x.contains_key(k) <==> y.contains_key(k) by {
        if k != "manifests"@ {
            assert(a.contains_key(k) <==> b.contains_key(k));
        }
    }
    assert forall|k: Text| x.contains_key(k) implies x[k] == y[k] by {
        if k != "manifests"@ && a.contains_key(k) {
            assert(a[k] == b[k]);
        }
    }
    assert(x =~= y);
}

/// A referrer names the subject.
spec fn names_subject(o: Fields, subject: Text) -> bool {
    o.contains_key("subject"@) && says(o["subject"@], "digest"@, subject)
}

/// The bytes read as an object.
pub open spec fn is_object(bytes: Seq<u8>) -> bool {
    parsed(bytes) matches Some(JsonModel::Object(_))
}

/// The last subject under which a referrer's descriptor is an object is the one it
/// names.
proof fn lemma_last_subject(
    base: Map<Text, Fields>,
    listing: Seq<(Text, Seq<(Text, Seq<u8>)>)>,
    i: int,
    n: int,
)
    requires
        0 <= i < listing.len(),
        0 <= n < listing[i].1.len(),
        is_object(listing[i].1[n].1),
        forall|x: int, a: int, b: int|
            #![trigger listing[x].1[a], listing[x].1[b]]
            0 <= x < listing.len() && 0 <= a < b < listing[x].1.len() ==> listing[x].1[a].0
                != listing[x].1[b].0,
        forall|x: int, a: int|
            #![trigger listing[x].1[a]]
            i < x < listing.len() && 0 <= a < listing[x].1.len() && listing[x].1[a].0
                == listing[i].1[n].0 ==> !is_object(listing[x].1[a].1),
    ensures
        with_all_referrers(base, listing).contains_key(listing[i].1[n].0),
        names_subject(with_all_referrers(base, listing)[listing[i].1[n].0], listing[i].0),
    decreases listing.len(),
{
    lemma_names();
    let init = listing.drop_last();
    let last = listing.last();
    let before = with_all_referrers(base, init);
    let d = listing[i].1[n].0;
    let top = listing.len() - 1;
    assert(listing[top] == last);
    assert forall|x: int| #![trigger init[x]] 0 <= x < init.len() implies init[x] == listing[x] by {}
    if i == top {
        assert forall|x: int| #![trigger last.1[x]] 0 <= x < last.1.len() && last.1[x].0
            == last.1[n].0 implies x == n by {
            if x < n {
                assert(listing[top].1[x].0 != listing[top].1[n].0);
            } else if n < x {
                assert(listing[top].1[n].0 != listing[top].1[x].0);
            }
        }
        lemma_once(before, last.0, last.1, n);
        lemma_one_of(before, last.0, last.1, d);
        assert(among(last.1, d));
        let o = with_one_referrer(before, last.0, d, last.1[n].1)[d];
        assert(o.contains_key("subject"@));
        assert(o["subject"@] == crate::layout::index::subject_field(last.0));
    } else {
        assert(init[i] == listing[i]);
        assert forall|x: int, a: int, b: int|
            #![trigger init[x].1[a], init[x].1[b]]
            0 <= x < init.len() && 0 <= a < b < init[x].1.len() implies init[x].1[a].0
            != init[x].1[b].0 by {
            assert(init[x] == listing[x]);
            assert(listing[x].1[a].0 != listing[x].1[b].0);
        }
        assert forall|x: int, a: int|
            #![trigger init[x].1[a]]
            i < x < init.len() && 0 <= a < init[x].1.len() && init[x].1[a].0
                == init[i].1[n].0 implies !is_object(init[x].1[a].1) by {
            assert(init[x] == listing[x]);
            assert(!is_object(listing[x].1[a].1));
        }
        lemma_last_subject(base, init, i, n);
        lemma_one_of(before, last.0, last.1, d);
        if among(last.1, d) {
            let m = choose|m: int| #![trigger last.1[m]] 0 <= m < last.1.len() && last.1[m].0 == d;
            assert(listing[top].1[m].0 == d);
            assert(!is_object(listing[top].1[m].1));
            assert forall|x: int| #![trigger last.1[x]] 0 <= x < last.1.len() && last.1[x].0
                == last.1[m].0 implies x == m by {
                if x < m {
                    assert(listing[top].1[x].0 != listing[top].1[m].0);
                } else if m < x {
                    assert(listing[top].1[m].0 != listing[top].1[x].0);
                }
            }
            lemma_once(before, last.0, last.1, m);
        }
    }
}

/// A referrer of several subjects is listed with the last of them, in the order of
/// their digests, under which its recorded descriptor is an object.
pub proof fn referrer_is_listed_with_its_last_subject(
    t: Tables,
    repo: Text,
    listing: Seq<(String, Vec<Referrer>)>,
    tags: Seq<(String, String, String)>,
    top: Fields,
    sizes: Map<Text, u64>,
    entries: Seq<JsonModel>,
    j: int,
    subject: Text,
    d: Text,
)
    requires
        t.media_types.dom().finite(),
        is_tag_listing(tags, t.tags, repo),
        is_referrer_listing(listing, t.referrers, repo),
        top.contains_key("manifests"@),
        top["manifests"@] == JsonModel::List(entries),
        t.referrers.contains_key((repo, subject, d)),
        is_object(t.referrers[(repo, subject, d)]),
        forall|s: Text| #[trigger]
            t.referrers.contains_key((repo, s, d)) && text_lt(subject, s) ==> !is_object(
                t.referrers[(repo, s, d)],
            ),
        0 <= j < listed(index_of(t, repo, listing, tags, top, sizes)).len(),
        says(listed(index_of(t, repo, listing, tags, top, sizes))[j], "digest"@, d),
        !of_another_tool(t, repo, listed(index_of(t, repo, listing, tags, top, sizes))[j]),
    ensures
        listed(index_of(t, repo, listing, tags, top, sizes))[j] matches JsonModel::Object(o)
            && o.contains_key("subject"@) && says(o["subject"@], "digest"@, subject),
{
    lemma_names();
    let known = known_bases(entries, media_of(t.media_types, repo), sizes);
    let base = base_of(t, repo, listing, entries, sizes);
    let all = subject_list(listing);
    lemma_listed_fields(t, repo, listing, tags, top, sizes, entries, j, d);
    lemma_listing(t, repo, listing, d);
    let (i, n) = lemma_listed_at(t, repo, listing, subject, d);
    let names = crate::metadata::query::listed_subjects(listing);
    assert forall|x: int, a: int, b: int|
        #![trigger all[x].1[a], all[x].1[b]]
        0 <= x < all.len() && 0 <= a < b < all[x].1.len() implies all[x].1[a].0
        != all[x].1[b].0 by {
        let ds = crate::metadata::referrers::referrer_digests(listing[x].1@);
        assert(crate::metadata::query::is_full_listing(
            listing[x].1@,
            crate::metadata::query::referrers_of(t.referrers, repo, listing[x].0@),
        ));
        assert(text_lt(ds[a], ds[b]));
        crate::text::text_lt_irreflexive(ds[a]);
    }
    assert forall|x: int, a: int|
        #![trigger all[x].1[a]]
        i < x < all.len() && 0 <= a < all[x].1.len() && all[x].1[a].0
            == all[i].1[n].0 implies !is_object(all[x].1[a].1) by {
        assert(text_lt(names[i], names[x]));
        assert(t.referrers.contains_key((repo, all[x].0, d)));
    }
    lemma_last_subject(known, all, i, n);
    let s = base[d]["subject"@];
    assert(holds(JsonModel::Object(base[d]), "subject"@, s));
    assert(holds(listed(index_of(t, repo, listing, tags, top, sizes))[j], "subject"@, s));
}

/// A referrer that is not on record as a manifest is listed with the media type and
/// the size of its recorded descriptor.
pub proof fn unrecorded_referrer_is_listed_as_it_says(
    t: Tables,
    repo: Text,
    listing: Seq<(String, Vec<Referrer>)>,
    tags: Seq<(String, String, String)>,
    top: Fields,
    sizes: Map<Text, u64>,
    entries: Seq<JsonModel>,
    j: int,
    subject: Text,
    d: Text,
    r: Fields,
)
    requires
        t.media_types.dom().finite(),
        is_tag_listing(tags, t.tags, repo),
        is_referrer_listing(listing, t.referrers, repo),
        top.contains_key("manifests"@),
        top["manifests"@] == JsonModel::List(entries),
        !t.media_types.contains_key((repo, d)),
        t.referrers.contains_key((repo, subject, d)),
        parsed(t.referrers[(repo, subject, d)]) == Some(JsonModel::Object(r)),
        forall|s: Text| #[trigger] t.referrers.contains_key((repo, s, d)) ==> s == subject,
        0 <= j < listed(index_of(t, repo, listing, tags, top, sizes)).len(),
        says(listed(index_of(t, repo, listing, tags, top, sizes))[j], "digest"@, d),
        !of_another_tool(t, repo, listed(index_of(t, repo, listing, tags, top, sizes))[j]),
    ensures
        ({
            let e = listed(index_of(t, repo, listing, tags, top, sizes))[j];
            &&& r.contains_key("mediaType"@) ==> holds(e, "mediaType"@, r["mediaType"@])
            &&& r.contains_key("size"@) ==> holds(e, "size"@, r["size"@])
        }),
{
    lemma_names();
    let known = known_bases(entries, media_of(t.media_types, repo), sizes);
    let base = base_of(t, repo, listing, entries, sizes);
    let all = subject_list(listing);
    lemma_listed_fields(t, repo, listing, tags, top, sizes, entries, j, d);
    let (i, n) = lemma_listed_at(t, repo, listing, subject, d);
    lemma_single(t, repo, listing, subject, d, i, n);
    lemma_of_one_subject(known, all, i, d);
    lemma_once(known.restrict(set![d]), subject, all[i].1, n);
    assert(!known.contains_key(d));
    if r.contains_key("mediaType"@) {
        assert(holds(JsonModel::Object(base[d]), "mediaType"@, r["mediaType"@]));
    }
    if r.contains_key("size"@) {
        assert(holds(JsonModel::Object(base[d]), "size"@, r["size"@]));
    }
}

} // verus!
