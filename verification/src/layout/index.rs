//! The image index rebuilt from the metadata store, over what is on disk.

use crate::json::{models, parse, parsed, Json, JsonModel, JsonNumber, JsonNumberModel, Object};
use crate::layout::{
    descriptor_tag, digest_of, index_manifests, manifests_in, tag_of, MEDIA_TYPE_IMAGE_INDEX,
    REF_NAME_ANNOTATION,
};
use crate::lists::lemma_pushed;
use crate::metadata::query::{is_referrer_listing, is_tag_listing};
use crate::metadata::redb_model::{lemma_sorted_is, sorted_texts};
use crate::metadata::store::MetadataStore;
use crate::metadata::Referrer;
use crate::page::{increasing, seconds, texts};
use crate::table::{lemma_row_at, lemma_row_of, Table};
use crate::text::{same, text_lt, Text};
use vstd::prelude::*;

verus! {

broadcast use vstd::string::group_string_axioms;

/// The fields of a descriptor.
pub type Fields = Map<Text, JsonModel>;

/// A document that is a number.
pub open spec fn number(n: u64) -> JsonModel {
    JsonModel::Number(JsonNumberModel::Natural(n))
}

/// The empty image index.
pub open spec fn no_manifests() -> JsonModel {
    JsonModel::Object(
        Map::empty().insert("schemaVersion"@, number(2)).insert(
            "mediaType"@,
            JsonModel::Text(MEDIA_TYPE_IMAGE_INDEX@),
        ).insert("manifests"@, JsonModel::List(Seq::empty())),
    )
}

/// The empty image index.
pub fn empty_index() -> (r: Json)
    ensures
        r.model() == no_manifests(),
{
    let mut o = Object::new();
    o.insert("schemaVersion", Json::Number(JsonNumber::Natural(2)));
    o.insert("mediaType", Json::Text(MEDIA_TYPE_IMAGE_INDEX.to_owned()));
    let none: Vec<Json> = Vec::new();
    proof {
        Json::lemma_list(none);
        assert(models(none@) =~= Seq::<JsonModel>::empty());
    }
    o.insert("manifests", Json::List(none));
    Json::Object(o)
}

/// A descriptor without the tag it names; annotations that are left empty go.
pub open spec fn stripped(o: Fields) -> Fields {
    if o.contains_key("annotations"@) {
        match o["annotations"@] {
            JsonModel::Object(a) => {
                let left = a.remove(REF_NAME_ANNOTATION@);
                if left =~= Map::<Text, JsonModel>::empty() {
                    o.remove("annotations"@)
                } else {
                    o.insert("annotations"@, JsonModel::Object(left))
                }
            },
            _ => o,
        }
    } else {
        o
    }
}

/// What the first entry with digest `d` says.
pub open spec fn first_entry(entries: Seq<JsonModel>, d: Text) -> Option<Fields>
    decreases entries.len(),
{
    if entries.len() == 0 {
        None
    } else {
        match first_entry(entries.drop_last(), d) {
            Some(o) => Some(o),
            None => match entries.last() {
                JsonModel::Object(o) => if digest_of(entries.last()) == Some(d) {
                    Some(stripped(o))
                } else {
                    None
                },
                _ => None,
            },
        }
    }
}

/// An entry that is not about a known manifest and that the store would not have
/// written: it names no tag and no subject.
pub open spec fn is_foreign(e: JsonModel, known: Set<Text>) -> bool {
    match e {
        JsonModel::Object(_) => !(digest_of(e) is Some && known.contains(digest_of(e)->0))
            && tag_of(e) is None && e.field("subject"@) is None,
        _ => true,
    }
}

/// The foreign entries, in order.
pub open spec fn foreign_entries(entries: Seq<JsonModel>, known: Set<Text>) -> Seq<JsonModel>
    decreases entries.len(),
{
    if entries.len() == 0 {
        Seq::empty()
    } else if is_foreign(entries.last(), known) {
        foreign_entries(entries.drop_last(), known).push(entries.last())
    } else {
        foreign_entries(entries.drop_last(), known)
    }
}

/// A descriptor of which only the digest is known.
pub open spec fn bare(d: Text) -> Fields {
    Map::<Text, JsonModel>::empty().insert("digest"@, JsonModel::Text(d))
}

/// What is on disk of a known manifest, or a bare descriptor.
pub open spec fn on_disk(entries: Seq<JsonModel>, d: Text) -> Fields {
    match first_entry(entries, d) {
        Some(o) => o,
        None => bare(d),
    }
}

/// A descriptor with the recorded media type, and with a size where it has none
/// and one was found.
pub open spec fn completed(o: Fields, media_type: Text, size: Option<u64>) -> Fields {
    let o = o.insert("mediaType"@, JsonModel::Text(media_type));
    if !o.contains_key("size"@) && size is Some {
        o.insert("size"@, number(size->0))
    } else {
        o
    }
}

/// The size found for `d`.
pub open spec fn size_of(sizes: Map<Text, u64>, d: Text) -> Option<u64> {
    if sizes.contains_key(d) {
        Some(sizes[d])
    } else {
        None
    }
}

/// A descriptor for every known manifest.
pub open spec fn known_bases(
    entries: Seq<JsonModel>,
    media_types: Map<Text, Text>,
    sizes: Map<Text, u64>,
) -> Map<Text, Fields> {
    Map::new(
        |d: Text| media_types.contains_key(d),
        |d: Text| completed(on_disk(entries, d), media_types[d], size_of(sizes, d)),
    )
}

/// The annotations `cur` with those of `new` that it lacks, but for the tag name.
pub open spec fn joined_annotations(cur: Fields, new: Fields) -> Fields {
    Map::new(
        |k: Text| cur.contains_key(k) || (new.contains_key(k) && k != REF_NAME_ANNOTATION@),
        |k: Text|
            if cur.contains_key(k) {
                cur[k]
            } else {
                new[k]
            },
    )
}

/// A descriptor's annotations once a referrer's are joined.
pub open spec fn with_annotations(cur: JsonModel, new: JsonModel) -> JsonModel {
    match (new, cur) {
        (JsonModel::Object(n), JsonModel::Object(c)) => JsonModel::Object(
            joined_annotations(c, n),
        ),
        _ => cur,
    }
}

/// Whether a referrer's field `k` shows in the descriptor.
pub open spec fn taken_over(k: Text) -> bool {
    k != "digest"@
}

/// A descriptor with the fields of a referrer's: its identity stays, its media
/// type, size and annotations win, everything else is taken over.
pub open spec fn blended(o: Fields, r: Fields) -> Fields {
    Map::new(
        |k: Text| o.contains_key(k) || (r.contains_key(k) && taken_over(k)),
        |k: Text|
            if !r.contains_key(k) || !taken_over(k) {
                o[k]
            } else if k == "mediaType"@ || k == "size"@ {
                if o.contains_key(k) {
                    o[k]
                } else {
                    r[k]
                }
            } else if k == "annotations"@ {
                with_annotations(
                    if o.contains_key(k) {
                        o[k]
                    } else {
                        JsonModel::Object(Map::empty())
                    },
                    r[k],
                )
            } else {
                r[k]
            },
    )
}

/// The subject field of a referrer.
pub open spec fn subject_field(subject: Text) -> JsonModel {
    JsonModel::Object(Map::empty().insert("digest"@, JsonModel::Text(subject)))
}

/// The descriptors once one referrer is taken into account. A descriptor that
/// does not read as an object adds nothing but the referrer itself.
pub open spec fn with_one_referrer(
    base: Map<Text, Fields>,
    subject: Text,
    referrer: Text,
    descriptor: Seq<u8>,
) -> Map<Text, Fields> {
    let o = if base.contains_key(referrer) {
        base[referrer]
    } else {
        bare(referrer)
    };
    base.insert(
        referrer,
        match parsed(descriptor) {
            Some(JsonModel::Object(r)) => blended(o, r).insert("subject"@, subject_field(subject)),
            _ => o,
        },
    )
}

/// The descriptors once the referrers of one subject are taken into account.
pub open spec fn with_referrers_of(
    base: Map<Text, Fields>,
    subject: Text,
    refs: Seq<(Text, Seq<u8>)>,
) -> Map<Text, Fields>
    decreases refs.len(),
{
    if refs.len() == 0 {
        base
    } else {
        with_one_referrer(
            with_referrers_of(base, subject, refs.drop_last()),
            subject,
            refs.last().0,
            refs.last().1,
        )
    }
}

/// The descriptors once all referrers are taken into account.
pub open spec fn with_all_referrers(
    base: Map<Text, Fields>,
    listing: Seq<(Text, Seq<(Text, Seq<u8>)>)>,
) -> Map<Text, Fields>
    decreases listing.len(),
{
    if listing.len() == 0 {
        base
    } else {
        with_referrers_of(
            with_all_referrers(base, listing.drop_last()),
            listing.last().0,
            listing.last().1,
        )
    }
}

/// A descriptor that names a tag.
pub open spec fn naming(o: Fields, tag: Text) -> Fields {
    let cur = if o.contains_key("annotations"@) {
        o["annotations"@]
    } else {
        JsonModel::Object(Map::empty())
    };
    o.insert(
        "annotations"@,
        match cur {
            JsonModel::Object(a) => JsonModel::Object(
                a.insert(REF_NAME_ANNOTATION@, JsonModel::Text(tag)),
            ),
            _ => cur,
        },
    )
}

/// One descriptor per tag, in tag order.
pub open spec fn tagged_entries(base: Map<Text, Fields>, tags: Seq<(Text, Text)>) -> Seq<JsonModel>
    decreases tags.len(),
{
    if tags.len() == 0 {
        Seq::empty()
    } else {
        let init = tagged_entries(base, tags.drop_last());
        let (tag, digest) = tags.last();
        if base.contains_key(digest) {
            init.push(JsonModel::Object(naming(base[digest], tag)))
        } else {
            init
        }
    }
}

/// Some tag points at `d`.
pub open spec fn has_tag(tags: Seq<(Text, Text)>, d: Text) -> bool {
    exists|i: int| #![trigger tags[i]] 0 <= i < tags.len() && tags[i].1 == d
}

/// The manifests that no tag points at, in order.
pub open spec fn untagged(base: Map<Text, Fields>, tags: Seq<(Text, Text)>) -> Seq<Text> {
    sorted_texts(Set::new(|d: Text| base.contains_key(d) && !has_tag(tags, d)))
}

/// The index rebuilt: what is known, tagged first, then the foreign entries,
/// under the top-level fields that were there.
pub open spec fn rebuilt(
    top: Fields,
    base: Map<Text, Fields>,
    tags: Seq<(Text, Text)>,
    foreign: Seq<JsonModel>,
) -> JsonModel {
    let rest = untagged(base, tags).map_values(|d: Text| JsonModel::Object(base[d]));
    JsonModel::Object(
        top.insert("schemaVersion"@, number(2)).insert(
            "mediaType"@,
            JsonModel::Text(MEDIA_TYPE_IMAGE_INDEX@),
        ).insert(
            "manifests"@,
            JsonModel::List(tagged_entries(base, tags) + rest + foreign),
        ),
    )
}

/// The top-level fields of an existing index.
pub open spec fn top_fields(existing: Option<JsonModel>) -> Fields {
    match existing {
        Some(JsonModel::Object(o)) => o,
        _ => Map::empty(),
    }
}

/// The entries of an existing index.
pub open spec fn entries_in(existing: Option<JsonModel>) -> Seq<JsonModel> {
    match existing {
        Some(v) => manifests_in(v),
        None => Seq::empty(),
    }
}

/// The media types of one repository's manifests.
pub open spec fn media_of(m: Map<(Text, Text), Text>, repo: Text) -> Map<Text, Text> {
    Map::new(|d: Text| m.contains_key((repo, d)), |d: Text| m[(repo, d)])
}

/// The model of a tag listing.
pub open spec fn tag_list(s: Seq<(String, String, String)>) -> Seq<(Text, Text)> {
    Seq::new(s.len(), |i: int| (s[i].0@, s[i].1@))
}

/// The model of one subject's referrers.
pub open spec fn referrer_list(s: Seq<Referrer>) -> Seq<(Text, Seq<u8>)> {
    Seq::new(s.len(), |i: int| (s[i].0@, s[i].1@))
}

/// The model of a referrer listing.
pub open spec fn subject_list(s: Seq<(String, Vec<Referrer>)>) -> Seq<
    (Text, Seq<(Text, Seq<u8>)>),
> {
    Seq::new(s.len(), |i: int| (s[i].0@, referrer_list(s[i].1@)))
}

/// The index that the listings give.
pub open spec fn index_model(
    media_types: Map<Text, Text>,
    listing: Seq<(Text, Seq<(Text, Seq<u8>)>)>,
    tags: Seq<(Text, Text)>,
    existing: Option<JsonModel>,
    sizes: Map<Text, u64>,
) -> JsonModel {
    let entries = entries_in(existing);
    let base = with_all_referrers(known_bases(entries, media_types, sizes), listing);
    rebuilt(top_fields(existing), base, tags, foreign_entries(entries, media_types.dom()))
}

/// The model of an optional document.
pub open spec fn opt_model(v: Option<Json>) -> Option<JsonModel> {
    match v {
        Some(j) => Some(j.model()),
        None => None,
    }
}

/// The models of some descriptors.
pub open spec fn base_models(m: Map<Text, Object>) -> Map<Text, Fields> {
    m.map_values(|o: Object| o.model())
}

/// A descriptor without the tag it names.
fn strip(o: &Object) -> (r: Object)
    ensures
        r.model() == stripped(o.model()),
{
    let mut out = o.copied();
    let annotations = match o.get("annotations") {
        Some(a) => a.as_object(),
        None => None,
    };
    if let Some(a) = annotations {
        let mut left = a.copied();
        left.remove(REF_NAME_ANNOTATION);
        if left.is_empty() {
            out.remove("annotations");
        } else {
            out.insert("annotations", Json::Object(left));
        }
    }
    out
}

/// What the existing entries say of known manifests, and the foreign ones.
fn sort_entries(entries: &Vec<Json>, known: &Table<String, ()>) -> (r: (
    Table<String, Object>,
    Vec<Json>,
))
    requires
        known.wf(),
    ensures
        r.0.wf(),
        forall|d: Text|
            #![trigger r.0.map().contains_key(d)]
            r.0.map().contains_key(d) <==> known.map().contains_key(d) && first_entry(
                models(entries@),
                d,
            ) is Some,
        forall|d: Text|
            #![trigger r.0.map()[d]]
            r.0.map().contains_key(d) ==> first_entry(models(entries@), d) == Some(
                r.0.map()[d].model(),
            ),
        models(r.1@) == foreign_entries(models(entries@), known.map().dom()),
{
    let ghost all = models(entries@);
    let ghost names = known.map().dom();
    let mut base: Table<String, Object> = Table::new();
    let mut foreign: Vec<Json> = Vec::new();
    let mut i: usize = 0;
    assert(all.take(0) =~= Seq::<JsonModel>::empty());
    assert(models(foreign@) =~= Seq::<JsonModel>::empty());
    while i < entries.len()
        invariant
            all == models(entries@),
            names == known.map().dom(),
            known.wf(),
            i <= all.len(),
            base.wf(),
            forall|d: Text|
                #![trigger base.map().contains_key(d)]
                base.map().contains_key(d) <==> names.contains(d) && first_entry(
                    all.take(i as int),
                    d,
                ) is Some,
            forall|d: Text|
                #![trigger base.map()[d]]
                base.map().contains_key(d) ==> first_entry(all.take(i as int), d) == Some(
                    base.map()[d].model(),
                ),
            models(foreign@) == foreign_entries(all.take(i as int), names),
        decreases all.len() - i,
    {
        let ghost m0 = base.map();
        let ghost f0 = foreign@;
        let ghost prev = all.take(i as int);
        let ghost next = all.take(i + 1);
        let e = &entries[i];
        let ghost v = e.model();
        proof {
            assert(next.drop_last() =~= prev);
            assert(next.last() == v);
        }
        match e {
            Json::Object(o) => {
                let about: Option<String> = match crate::layout::descriptor_digest(e) {
                    Some(d) => {
                        let name = d.to_owned();
                        if known.contains(&name) {
                            Some(name)
                        } else {
                            None
                        }
                    },
                    None => None,
                };
                match about {
                    Some(name) => {
                        if !base.contains(&name) {
                            base.insert(name, strip(o));
                        }
                    },
                    None => {
                        if descriptor_tag(e).is_none() && e.get("subject").is_none() {
                            foreign.push(e.copied());
                        }
                    },
                }
            },
            _ => {
                foreign.push(e.copied());
            },
        }
        proof {
            if foreign@.len() > f0.len() {
                assert(models(foreign@) =~= models(f0).push(v));
            }
            assert forall|d: Text|
                #![trigger base.map().contains_key(d)]
                base.map().contains_key(d) <==> names.contains(d) && first_entry(next, d) is Some by {
                assert(m0.contains_key(d) <==> names.contains(d) && first_entry(prev, d) is Some);
            }
            assert forall|d: Text|
                #![trigger base.map()[d]]
                base.map().contains_key(d) implies first_entry(next, d) == Some(
                base.map()[d].model(),
            ) by {
                if m0.contains_key(d) {
                    assert(base.map()[d] == m0[d]);
                } else {
                    assert(first_entry(prev, d) is None || !names.contains(d));
                }
            }
        }
        i += 1;
    }
    assert(all.take(all.len() as int) =~= all);
    (base, foreign)
}

/// A set of names as a table.
fn name_table(names: &Vec<String>) -> (r: Table<String, ()>)
    ensures
        r.wf(),
        r.map().dom() == texts(names@).to_set(),
{
    let ghost all = texts(names@);
    let mut out: Table<String, ()> = Table::new();
    let mut i: usize = 0;
    assert(out.map().dom() =~= all.take(0).to_set());
    while i < names.len()
        invariant
            all == texts(names@),
            i <= all.len(),
            out.wf(),
            out.map().dom() == all.take(i as int).to_set(),
        decreases all.len() - i,
    {
        let ghost d0 = out.map().dom();
        out.insert(names[i].clone(), ());
        proof {
            let next = all.take(i + 1);
            assert(next =~= all.take(i as int).push(all[i as int]));
            all.take(i as int).lemma_push_to_set_commute(all[i as int]);
            assert(out.map().dom() =~= d0.insert(all[i as int]));
        }
        i += 1;
    }
    assert(all.take(all.len() as int) =~= all);
    out
}

/// Completes the descriptor of every known manifest.
fn complete<M: MetadataStore>(
    meta: &M,
    repo: &str,
    known: &Table<String, ()>,
    disk: &Table<String, Object>,
    sizes: &Table<String, u64>,
    Ghost(entries): Ghost<Seq<JsonModel>>,
) -> (r: Table<String, Object>)
    requires
        meta.wf(),
        known.wf(),
        disk.wf(),
        sizes.wf(),
        known.map().dom() == media_of(meta.tables().media_types, repo@).dom(),
        forall|d: Text|
            #![trigger disk.map().contains_key(d)]
            disk.map().contains_key(d) <==> known.map().contains_key(d) && first_entry(entries, d)
                is Some,
        forall|d: Text|
            #![trigger disk.map()[d]]
            disk.map().contains_key(d) ==> first_entry(entries, d) == Some(disk.map()[d].model()),
    ensures
        r.wf(),
        base_models(r.map()) == known_bases(
            entries,
            media_of(meta.tables().media_types, repo@),
            sizes.map(),
        ),
{
    let ghost media = media_of(meta.tables().media_types, repo@);
    let ghost want = known_bases(entries, media, sizes.map());
    let ghost rows = known.rows();
    let mut base: Table<String, Object> = Table::new();
    let mut i: usize = 0;
    while i < known.len()
        invariant
            meta.wf(),
            known.wf(),
            disk.wf(),
            sizes.wf(),
            rows == known.rows(),
            known.map().dom() == media.dom(),
            media == media_of(meta.tables().media_types, repo@),
            want == known_bases(entries, media, sizes.map()),
            forall|d: Text|
                #![trigger disk.map().contains_key(d)]
                disk.map().contains_key(d) <==> known.map().contains_key(d) && first_entry(
                    entries,
                    d,
                ) is Some,
            forall|d: Text|
                #![trigger disk.map()[d]]
                disk.map().contains_key(d) ==> first_entry(entries, d) == Some(
                    disk.map()[d].model(),
                ),
            i <= rows.len(),
            base.wf(),
            forall|d: Text|
                #![trigger base.map().contains_key(d)]
                base.map().contains_key(d) <==> exists|j: int|
                    #![trigger rows[j]]
                    0 <= j < i && rows[j].0@ == d,
            forall|d: Text|
                #![trigger base.map().contains_key(d)]
                base.map().contains_key(d) ==> want.contains_key(d) && base.map()[d].model()
                    == want[d],
        decreases rows.len() - i,
    {
        let ghost m0 = base.map();
        let d = known.key_at(i);
        proof {
            lemma_row_at(rows, i as int);
            assert(rows[i as int].0.deep_view() == d@);
            assert(known.map().contains_key(d@));
            assert(media.contains_key(d@));
        }
        let mut o = match disk.get(d) {
            Some(o) => o.copied(),
            None => {
                let mut o = Object::new();
                o.insert("digest", Json::Text(d.clone()));
                o
            },
        };
        assert(o.model() == on_disk(entries, d@));
        if let Some(mt) = meta.manifest_media_type(repo, d.as_str()) {
            o.insert("mediaType", Json::Text(mt));
        }
        if !o.contains("size") {
            if let Some(size) = sizes.get(d) {
                o.insert("size", Json::Number(JsonNumber::Natural(*size)));
            }
        }
        assert(o.model() == want[d@]);
        base.insert(d.clone(), o);
        proof {
            assert forall|x: Text|
                #![trigger base.map().contains_key(x)]
                base.map().contains_key(x) <==> exists|j: int|
                    #![trigger rows[j]]
                    0 <= j < i + 1 && rows[j].0@ == x by {
                if x == d@ {
                    assert(rows[i as int].0@ == x);
                } else if m0.contains_key(x) {
                    let j = choose|j: int| #![trigger rows[j]] 0 <= j < i && rows[j].0@ == x;
                    assert(rows[j].0@ == x);
                }
            }
            assert forall|x: Text|
                #![trigger base.map().contains_key(x)]
                base.map().contains_key(x) implies want.contains_key(x) && base.map()[x].model()
                == want[x] by {
                if x != d@ {
                    assert(m0.contains_key(x));
                    assert(base.map()[x] == m0[x]);
                }
            }
        }
        i += 1;
    }
    proof {
        let got = base_models(base.map());
        assert forall|d: Text| got.contains_key(d) <==> want.contains_key(d) by {
            if want.contains_key(d) {
                assert(known.map().contains_key(d));
                let j = lemma_row_of(rows, d);
                assert(rows[j].0@ == d);
            }
        }
        assert(got =~= want);
    }
    base
}

/// The rows of an object up to `n`, as a map.
spec fn first_fields(o: Object, n: int) -> Fields {
    Map::new(
        |k: Text| exists|j: int| #![trigger o.rows()[j]] 0 <= j < n && o.rows()[j].0@ == k,
        |k: Text| o.model()[k],
    )
}

/// A descriptor with the fields of a referrer's.
fn blend(o: Object, r: &Object) -> (out: Object)
    ensures
        out.model() == blended(o.model(), r.model()),
{
    let ghost base = o.model();
    let mut out = o;
    let mut i: usize = 0;
    proof {
        assert(first_fields(*r, 0) =~= Map::<Text, JsonModel>::empty());
        assert(blended(base, first_fields(*r, 0)) =~= base);
    }
    while i < r.len()
        invariant
            i <= r.rows().len(),
            out.model() == blended(base, first_fields(*r, i as int)),
        decreases r.rows().len() - i,
    {
        let ghost before = out.model();
        let ghost part = first_fields(*r, i as int);
        let ghost next = first_fields(*r, i + 1);
        let name = r.name_at(i);
        let value = r.value_at(i);
        let ghost k = name@;
        let ghost v = value.model();
        proof {
            assert forall|x: Text| next.contains_key(x) <==> part.contains_key(x) || x == k by {
                if next.contains_key(x) && x != k {
                    let j = choose|j: int|
                        #![trigger r.rows()[j]]
                        0 <= j < i + 1 && r.rows()[j].0@ == x;
                    assert(r.rows()[j].0@ == x);
                }
                if part.contains_key(x) {
                    let j = choose|j: int|
                        #![trigger r.rows()[j]]
                        0 <= j < i && r.rows()[j].0@ == x;
                    assert(r.rows()[j].0@ == x);
                }
                assert(r.rows()[i as int].0@ == k);
            }
            assert(!part.contains_key(k)) by {
                if part.contains_key(k) {
                    let j = choose|j: int|
                        #![trigger r.rows()[j]]
                        0 <= j < i && r.rows()[j].0@ == k;
                    assert(r.rows()[j].0@ != r.rows()[i as int].0@);
                }
            }
            assert(next[k] == v);
            reveal_strlit("digest");
            reveal_strlit("mediaType");
            reveal_strlit("size");
            reveal_strlit("annotations");
            assert("digest"@.len() == 6 && "mediaType"@.len() == 9 && "size"@.len() == 4
                && "annotations"@.len() == 11);
        }
        if same(name.as_str(), "digest") {
            assert(blended(base, next) =~= before);
        } else if same(name.as_str(), "mediaType") || same(name.as_str(), "size") {
            if !out.contains(name.as_str()) {
                out.insert(name.as_str(), value.copied());
            }
            assert(blended(base, next) =~= out.model());
        } else if same(name.as_str(), "annotations") {
            let current = match out.get("annotations") {
                Some(c) => c.copied(),
                None => Json::Object(Object::new()),
            };
            let joined = join_annotations(current, value);
            out.insert("annotations", joined);
            assert(blended(base, next) =~= out.model());
        } else {
            out.insert(name.as_str(), value.copied());
            assert(blended(base, next) =~= out.model());
        }
        i += 1;
    }
    proof {
        let whole = first_fields(*r, r.rows().len() as int);
        assert forall|k: Text| whole.contains_key(k) <==> r.model().contains_key(k) by {
            if r.model().contains_key(k) {
                let j = r.lemma_row_for(k);
                assert(r.rows()[j].0@ == k);
            }
            if whole.contains_key(k) {
                let j = choose|j: int|
                    #![trigger r.rows()[j]]
                    0 <= j < r.rows().len() && r.rows()[j].0@ == k;
                r.lemma_name_held(j);
            }
        }
        assert(whole =~= r.model());
    }
    out
}

/// A descriptor's annotations once a referrer's are joined.
fn join_annotations(current: Json, new: &Json) -> (r: Json)
    ensures
        r.model() == with_annotations(current.model(), new.model()),
{
    let added = match new.as_object() {
        Some(n) => n,
        None => {
            return current;
        },
    };
    match current {
        Json::Object(c) => {
            let ghost base = c.model();
            let mut out = c;
            let mut i: usize = 0;
            proof {
                assert(first_fields(*added, 0) =~= Map::<Text, JsonModel>::empty());
                assert(joined_annotations(base, first_fields(*added, 0)) =~= base);
            }
            while i < added.len()
                invariant
                    i <= added.rows().len(),
                    out.model() == joined_annotations(base, first_fields(*added, i as int)),
                decreases added.rows().len() - i,
            {
                let ghost before = out.model();
                let ghost part = first_fields(*added, i as int);
                let ghost next = first_fields(*added, i + 1);
                let name = added.name_at(i);
                let value = added.value_at(i);
                let ghost k = name@;
                proof {
                    assert forall|x: Text| next.contains_key(x) <==> part.contains_key(x) || x
                        == k by {
                        if next.contains_key(x) && x != k {
                            let j = choose|j: int|
                                #![trigger added.rows()[j]]
                                0 <= j < i + 1 && added.rows()[j].0@ == x;
                            assert(added.rows()[j].0@ == x);
                        }
                        if part.contains_key(x) {
                            let j = choose|j: int|
                                #![trigger added.rows()[j]]
                                0 <= j < i && added.rows()[j].0@ == x;
                            assert(added.rows()[j].0@ == x);
                        }
                        assert(added.rows()[i as int].0@ == k);
                    }
                }
                if !same(name.as_str(), REF_NAME_ANNOTATION) && !out.contains(name.as_str()) {
                    out.insert(name.as_str(), value.copied());
                }
                assert(joined_annotations(base, next) =~= out.model());
                i += 1;
            }
            proof {
                let whole = first_fields(*added, added.rows().len() as int);
                assert forall|k: Text| whole.contains_key(k) <==> added.model().contains_key(k) by {
                    if added.model().contains_key(k) {
                        let j = added.lemma_row_for(k);
                        assert(added.rows()[j].0@ == k);
                    }
                    if whole.contains_key(k) {
                        let j = choose|j: int|
                            #![trigger added.rows()[j]]
                            0 <= j < added.rows().len() && added.rows()[j].0@ == k;
                        added.lemma_name_held(j);
                    }
                }
                assert(whole =~= added.model());
            }
            Json::Object(out)
        },
        other => other,
    }
}

/// Takes one referrer into account.
fn add_referrer(base: &mut Table<String, Object>, subject: &String, referrer: &String, descriptor: &Vec<u8>)
    requires
        old(base).wf(),
    ensures
        final(base).wf(),
        base_models(final(base).map()) == with_one_referrer(
            base_models(old(base).map()),
            subject@,
            referrer@,
            descriptor@,
        ),
{
    let ghost was = base_models(base.map());
    let o = match base.remove(referrer) {
        Some(o) => o,
        None => {
            let mut o = Object::new();
            o.insert("digest", Json::Text(referrer.clone()));
            o
        },
    };
    let ghost start = o.model();
    assert(start == (if was.contains_key(referrer@) {
        was[referrer@]
    } else {
        bare(referrer@)
    }));
    let document = parse(descriptor.as_slice());
    let out = match &document {
        Some(Json::Object(r)) => {
            let mut out = blend(o, r);
            let mut s = Object::new();
            s.insert("digest", Json::Text(subject.clone()));
            out.insert("subject", Json::Object(s));
            out
        },
        _ => o,
    };
    base.insert(referrer.clone(), out);
    assert(base_models(base.map()) =~= with_one_referrer(
        was,
        subject@,
        referrer@,
        descriptor@,
    ));
}

/// Takes all referrers into account.
fn add_referrers(base: &mut Table<String, Object>, listing: &Vec<(String, Vec<Referrer>)>)
    requires
        old(base).wf(),
    ensures
        final(base).wf(),
        base_models(final(base).map()) == with_all_referrers(
            base_models(old(base).map()),
            subject_list(listing@),
        ),
{
    let ghost start = base_models(base.map());
    let ghost all = subject_list(listing@);
    let mut i: usize = 0;
    assert(all.take(0) =~= Seq::empty());
    while i < listing.len()
        invariant
            all == subject_list(listing@),
            i <= all.len(),
            base.wf(),
            base_models(base.map()) == with_all_referrers(start, all.take(i as int)),
        decreases all.len() - i,
    {
        let (subject, refs) = &listing[i];
        let ghost mid = base_models(base.map());
        let ghost part = referrer_list(refs@);
        let mut j: usize = 0;
        assert(part.take(0) =~= Seq::empty());
        while j < refs.len()
            invariant
                part == referrer_list(refs@),
                j <= part.len(),
                base.wf(),
                base_models(base.map()) == with_referrers_of(mid, subject@, part.take(j as int)),
            decreases part.len() - j,
        {
            let (referrer, descriptor) = &refs[j];
            proof {
                let next = part.take(j + 1);
                assert(next.drop_last() =~= part.take(j as int));
                assert(next.last() == (referrer@, descriptor@));
            }
            add_referrer(base, subject, referrer, descriptor);
            j += 1;
        }
        proof {
            assert(part.take(part.len() as int) =~= part);
            let next = all.take(i + 1);
            assert(next.drop_last() =~= all.take(i as int));
            assert(next.last() == (subject@, part));
        }
        i += 1;
    }
    assert(all.take(all.len() as int) =~= all);
}

/// A descriptor that names a tag.
fn name_tag(o: &Object, tag: &String) -> (r: Object)
    ensures
        r.model() == naming(o.model(), tag@),
{
    let mut out = o.copied();
    let current = match o.get("annotations") {
        Some(c) => c.copied(),
        None => Json::Object(Object::new()),
    };
    let annotations = match current {
        Json::Object(mut a) => {
            a.insert(REF_NAME_ANNOTATION, Json::Text(tag.clone()));
            Json::Object(a)
        },
        other => other,
    };
    out.insert("annotations", annotations);
    out
}

/// The descriptors of the tags and those of what no tag points at.
fn emit(base: &Table<String, Object>, tags: &Vec<(String, String, String)>) -> (r: Vec<Json>)
    requires
        base.wf(),
    ensures
        models(r@) == tagged_entries(base_models(base.map()), tag_list(tags@)) + untagged(
            base_models(base.map()),
            tag_list(tags@),
        ).map_values(|d: Text| JsonModel::Object(base_models(base.map())[d])),
{
    let ghost m = base_models(base.map());
    let ghost all = tag_list(tags@);
    let mut out: Vec<Json> = Vec::new();
    let mut tagged: Table<String, ()> = Table::new();
    let mut i: usize = 0;
    assert(all.take(0) =~= Seq::empty());
    assert(models(out@) =~= Seq::<JsonModel>::empty());
    while i < tags.len()
        invariant
            base.wf(),
            m == base_models(base.map()),
            all == tag_list(tags@),
            i <= all.len(),
            tagged.wf(),
            models(out@) == tagged_entries(m, all.take(i as int)),
            forall|d: Text|
                #![trigger tagged.map().contains_key(d)]
                tagged.map().contains_key(d) <==> m.contains_key(d) && has_tag(
                    all.take(i as int),
                    d,
                ),
        decreases all.len() - i,
    {
        let ghost had = out@;
        let ghost t0 = tagged.map();
        let ghost prev = all.take(i as int);
        let ghost next = all.take(i + 1);
        let (tag, digest, _) = &tags[i];
        proof {
            assert(next.drop_last() =~= prev);
            assert(next.last() == (tag@, digest@));
        }
        if let Some(o) = base.get(digest) {
            let named = name_tag(o, tag);
            out.push(Json::Object(named));
            assert(models(out@) =~= models(had).push(JsonModel::Object(naming(m[digest@], tag@))));
            tagged.insert(digest.clone(), ());
        }
        proof {
            assert forall|d: Text|
                #![trigger tagged.map().contains_key(d)]
                tagged.map().contains_key(d) <==> m.contains_key(d) && has_tag(next, d) by {
                assert(t0.contains_key(d) <==> m.contains_key(d) && has_tag(prev, d));
                assert(has_tag(next, d) <==> has_tag(prev, d) || d == digest@) by {
                    if has_tag(next, d) {
                        let j = choose|j: int|
                            #![trigger next[j]]
                            0 <= j < next.len() && next[j].1 == d;
                        if j < prev.len() {
                            assert(prev[j] == next[j]);
                        }
                    }
                    if has_tag(prev, d) {
                        let j = choose|j: int|
                            #![trigger prev[j]]
                            0 <= j < prev.len() && prev[j].1 == d;
                        assert(next[j] == prev[j]);
                    }
                    assert(next[i as int].1 == digest@);
                }
            }
        }
        i += 1;
    }
    assert(all.take(all.len() as int) =~= all);
    let ghost head = models(out@);
    let ghost rows = base.rows();
    let ghost mut names: Seq<Text> = Seq::empty();
    let ghost f = |d: Text| JsonModel::Object(m[d]);
    let mut i: usize = 0;
    assert(head + names.map_values(f) =~= head);
    while i < base.len()
        invariant
            base.wf(),
            tagged.wf(),
            rows == base.rows(),
            m == base_models(base.map()),
            f == (|d: Text| JsonModel::Object(m[d])),
            i <= rows.len(),
            increasing(names),
            forall|j: int|
                #![trigger names[j]]
                0 <= j < names.len() && i < rows.len() ==> text_lt(names[j], rows[i as int].0@),
            forall|d: Text|
                #![trigger names.contains(d)]
                names.contains(d) <==> !tagged.map().contains_key(d) && exists|j: int|
                    #![trigger rows[j]]
                    0 <= j < i && rows[j].0@ == d,
            models(out@) == head + names.map_values(f),
        decreases rows.len() - i,
    {
        let ghost had = out@;
        let ghost names0 = names;
        let d = base.key_at(i);
        proof {
            lemma_row_at(rows, i as int);
            assert(rows[i as int].0.deep_view() == d@);
            if i + 1 < rows.len() {
                assert(text_lt(rows[i as int].0.deep_view(), rows[i + 1].0.deep_view()));
                assert forall|j: int| #![trigger names[j]] 0 <= j < names.len() implies text_lt(
                    names[j],
                    rows[i + 1].0@,
                ) by {
                    crate::text::text_lt_transitive(names[j], d@, rows[i + 1].0@);
                }
            }
        }
        if !tagged.contains(d) {
            out.push(Json::Object(base.value_at(i).copied()));
            proof {
                names = names.push(d@);
                assert(m.contains_key(d@) && m[d@] == rows[i as int].1.model());
                assert(models(out@) =~= models(had).push(f(d@)));
                assert(head + names.map_values(f) =~= (head + names0.map_values(f)).push(f(d@)));
                assert forall|a: int, b: int|
                    #![trigger names[a], names[b]]
                    0 <= a < b < names.len() implies text_lt(names[a], names[b]) by {
                    assert(names[a] == names0[a]);
                    if b < names0.len() {
                        assert(names[b] == names0[b]);
                    }
                }
                if i + 1 < rows.len() {
                    assert forall|j: int|
                        #![trigger names[j]]
                        0 <= j < names.len() implies text_lt(names[j], rows[i + 1].0@) by {
                        if j < names0.len() {
                            assert(names[j] == names0[j]);
                        }
                    }
                }
            }
        }
        proof {
            assert forall|x: Text|
                #![trigger names.contains(x)]
                names.contains(x) <==> !tagged.map().contains_key(x) && exists|j: int|
                    #![trigger rows[j]]
                    0 <= j < i + 1 && rows[j].0@ == x by {
                assert(names0.contains(x) <==> !tagged.map().contains_key(x) && exists|j: int|
                    #![trigger rows[j]]
                    0 <= j < i && rows[j].0@ == x);
                if names0.contains(x) {
                    let j = choose|j: int| #![trigger rows[j]] 0 <= j < i && rows[j].0@ == x;
                    assert(rows[j].0@ == x);
                    let n = choose|n: int| 0 <= n < names0.len() && names0[n] == x;
                    assert(names[n] == x);
                }
                if names.contains(x) && !names0.contains(x) {
                    let n = choose|n: int| 0 <= n < names.len() && names[n] == x;
                    if n < names0.len() {
                        assert(names0[n] == x);
                    }
                    assert(rows[i as int].0@ == x);
                }
                if x == d@ && !tagged.map().contains_key(x) {
                    assert(names[names0.len() as int] == x);
                }
            }
        }
        i += 1;
    }
    proof {
        let want = Set::new(|d: Text| m.contains_key(d) && !has_tag(all, d));
        assert forall|d: Text| names.to_set().contains(d) <==> want.contains(d) by {
            assert(names.to_set().contains(d) <==> names.contains(d));
            assert(tagged.map().contains_key(d) <==> m.contains_key(d) && has_tag(all, d));
            if names.contains(d) {
                let j = choose|j: int| #![trigger rows[j]] 0 <= j < rows.len() && rows[j].0@ == d;
                lemma_row_at(rows, j);
                assert(rows[j].0.deep_view() == d);
            }
            if want.contains(d) {
                let j = lemma_row_of(rows, d);
                assert(rows[j].0@ == d);
            }
        }
        assert(names.to_set() =~= want);
        lemma_sorted_is(names);
        assert(untagged(m, all) == names);
    }
    out
}

/// The index of a repository, from what the store records, over what is on disk:
/// one descriptor per tag or untagged manifest, with the fields that were on
/// disk and those of its referrer record, then the entries that another tool
/// wrote. `sizes` gives the sizes of manifests that have none on disk.
pub fn index_from_meta<M: MetadataStore>(
    meta: &M,
    repo: &str,
    existing: Option<Json>,
    sizes: &Table<String, u64>,
) -> (r: Json)
    requires
        meta.wf(),
        sizes.wf(),
    ensures
        exists|listing: Vec<(String, Vec<Referrer>)>, tags: Vec<(String, String, String)>|
            #![trigger subject_list(listing@), tag_list(tags@)]
            is_referrer_listing(listing@, meta.tables().referrers, repo@) && is_tag_listing(
                tags@,
                meta.tables().tags,
                repo@,
            ) && r.model() == index_model(
                media_of(meta.tables().media_types, repo@),
                subject_list(listing@),
                tag_list(tags@),
                opt_model(existing),
                sizes.map(),
            ),
{
    let ghost media = media_of(meta.tables().media_types, repo@);
    let ghost disk_model = opt_model(existing);
    let ghost entries = entries_in(disk_model);
    let names = meta.manifests(repo);
    let known = name_table(&names);
    assert(media.dom() =~= seconds(meta.tables().media_types.dom(), repo@));
    let none: Vec<Json> = Vec::new();
    let list: &Vec<Json> = match &existing {
        Some(v) => match index_manifests(v) {
            Some(l) => l,
            None => &none,
        },
        None => &none,
    };
    assert(models(list@) =~= entries);
    let (disk, foreign) = sort_entries(list, &known);
    let mut base = complete(meta, repo, &known, &disk, sizes, Ghost(entries));
    let listing = meta.referrers_snapshot(repo);
    add_referrers(&mut base, &listing);
    let tags = meta.tags_snapshot(repo);
    let mut manifests = emit(&base, &tags);
    let ghost first = models(manifests@);
    let ghost more = models(foreign@);
    let mut rest = foreign;
    let ghost whole = first + more;
    manifests.append(&mut rest);
    assert(models(manifests@) =~= whole);
    let mut top = match existing {
        Some(Json::Object(o)) => o,
        _ => Object::new(),
    };
    assert(top.model() == top_fields(disk_model));
    top.insert("schemaVersion", Json::Number(JsonNumber::Natural(2)));
    top.insert("mediaType", Json::Text(MEDIA_TYPE_IMAGE_INDEX.to_owned()));
    proof {
        Json::lemma_list(manifests);
    }
    top.insert("manifests", Json::List(manifests));
    let r = Json::Object(top);
    proof {
        let a = subject_list(listing@);
        let b = tag_list(tags@);
        assert(r.model() == index_model(media, a, b, disk_model, sizes.map()));
    }
    r
}

/// The known manifests of which no size is on disk.
pub fn sizes_wanted<M: MetadataStore>(meta: &M, repo: &str, existing: Option<&Json>) -> (r: Vec<
    String,
>)
    requires
        meta.wf(),
    ensures
        forall|d: Text|
            #![trigger texts(r@).contains(d)]
            texts(r@).contains(d) <==> meta.tables().media_types.contains_key((repo@, d))
                && !on_disk(
                entries_in(
                    match existing {
                        Some(v) => Some(v.model()),
                        None => None,
                    },
                ),
                d,
            ).contains_key("size"@),
{
    let ghost entries = entries_in(
        match existing {
            Some(v) => Some(v.model()),
            None => None,
        },
    );
    let names = meta.manifests(repo);
    let known = name_table(&names);
    let none: Vec<Json> = Vec::new();
    let list: &Vec<Json> = match existing {
        Some(v) => match index_manifests(v) {
            Some(l) => l,
            None => &none,
        },
        None => &none,
    };
    assert(models(list@) =~= entries);
    let (disk, _) = sort_entries(list, &known);
    let ghost all = texts(names@);
    let mut out: Vec<String> = Vec::new();
    let mut i: usize = 0;
    proof {
        reveal_strlit("size");
        reveal_strlit("digest");
        assert("size"@.len() != "digest"@.len());
    }
    while i < names.len()
        invariant
            disk.wf(),
            known.wf(),
            known.map().dom() == all.to_set(),
            all == texts(names@),
            "size"@ != "digest"@,
            forall|d: Text|
                #![trigger disk.map().contains_key(d)]
                disk.map().contains_key(d) <==> known.map().contains_key(d) && first_entry(
                    entries,
                    d,
                ) is Some,
            forall|d: Text|
                #![trigger disk.map()[d]]
                disk.map().contains_key(d) ==> first_entry(entries, d) == Some(
                    disk.map()[d].model(),
                ),
            i <= all.len(),
            forall|d: Text|
                #![trigger texts(out@).contains(d)]
                texts(out@).contains(d) <==> all.take(i as int).contains(d) && !on_disk(
                    entries,
                    d,
                ).contains_key("size"@),
        decreases all.len() - i,
    {
        let ghost had = texts(out@);
        let d = &names[i];
        assert(all.to_set().contains(all[i as int]));
        assert(known.map().contains_key(d@));
        let sized = match disk.get(d) {
            Some(o) => o.contains("size"),
            None => false,
        };
        assert(sized == on_disk(entries, d@).contains_key("size"@));
        if !sized {
            out.push(d.clone());
            assert(texts(out@) =~= had.push(d@));
        }
        proof {
            let next = all.take(i + 1);
            assert(next =~= all.take(i as int).push(d@));
            assert forall|x: Text|
                #![trigger texts(out@).contains(x)]
                texts(out@).contains(x) <==> next.contains(x) && !on_disk(entries, x).contains_key(
                    "size"@,
                ) by {
                assert(had.contains(x) <==> all.take(i as int).contains(x) && !on_disk(
                    entries,
                    x,
                ).contains_key("size"@));
                lemma_pushed(all.take(i as int), d@, x);
                lemma_pushed(had, d@, x);
            }
        }
        i += 1;
    }
    proof {
        assert(all.take(all.len() as int) =~= all);
        assert forall|d: Text|
            #![trigger texts(out@).contains(d)]
            texts(out@).contains(d) <==> meta.tables().media_types.contains_key((repo@, d))
                && !on_disk(entries, d).contains_key("size"@) by {
            assert(all.contains(d) <==> all.to_set().contains(d));
            assert(seconds(meta.tables().media_types.dom(), repo@).contains(d)
                <==> meta.tables().media_types.contains_key((repo@, d)));
        }
    }
    out
}

} // verus!
