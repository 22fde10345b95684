//! What holds of a rebuilt image index.

use crate::json::JsonModel;
use crate::layout::index::{
    first_entry, foreign_entries, is_foreign, known_bases, naming, rebuilt, tagged_entries,
    untagged, with_all_referrers, with_one_referrer, with_referrers_of, Fields,
};
use crate::layout::{digest_of, manifests_in, tag_of};
use crate::text::Text;
use vstd::prelude::*;

verus! {

/// The field names that the index works with are different names.
pub proof fn lemma_field_names()
    ensures
        "digest"@ != "mediaType"@,
        "digest"@ != "size"@,
        "digest"@ != "annotations"@,
        "digest"@ != "subject"@,
        "manifests"@ != "mediaType"@,
        "manifests"@ != "schemaVersion"@,
{
    reveal_strlit("digest");
    reveal_strlit("mediaType");
    reveal_strlit("size");
    reveal_strlit("annotations");
    reveal_strlit("subject");
    reveal_strlit("manifests");
    reveal_strlit("schemaVersion");
    assert("digest"@.len() == 6);
    assert("mediaType"@.len() == 9);
    assert("size"@.len() == 4);
    assert("annotations"@.len() == 11);
    assert("subject"@.len() == 7);
    assert("manifests"@.len() == 9);
    assert("schemaVersion"@.len() == 13);
    assert("manifests"@[1] == 'a');
    assert("mediaType"@[1] == 'e');
}

/// A descriptor says whose it is.
pub open spec fn identified(o: Fields, d: Text) -> bool {
    o.contains_key("digest"@) && o["digest"@] == JsonModel::Text(d)
}

/// Every descriptor says whose it is.
pub open spec fn all_identified(base: Map<Text, Fields>) -> bool {
    forall|d: Text| #![trigger base[d]] base.contains_key(d) ==> identified(base[d], d)
}

/// What is on disk of a manifest says so.
proof fn lemma_first_entry(entries: Seq<JsonModel>, d: Text)
    ensures
        first_entry(entries, d) matches Some(o) ==> identified(o, d),
    decreases entries.len(),
{
    lemma_field_names();
    if entries.len() > 0 {
        lemma_first_entry(entries.drop_last(), d);
    }
}

/// One referrer keeps every descriptor's identity.
proof fn lemma_one_referrer(
    base: Map<Text, Fields>,
    subject: Text,
    referrer: Text,
    descriptor: Seq<u8>,
)
    requires
        all_identified(base),
    ensures
        all_identified(with_one_referrer(base, subject, referrer, descriptor)),
{
    lemma_field_names();
    let out = with_one_referrer(base, subject, referrer, descriptor);
    assert forall|d: Text| #![trigger out[d]] out.contains_key(d) implies identified(out[d], d) by {
        if d != referrer {
            assert(out[d] == base[d]);
        } else if base.contains_key(d) {
            assert(identified(base[d], d));
        }
    }
}

/// The referrers of one subject keep every descriptor's identity.
proof fn lemma_referrers_of(base: Map<Text, Fields>, subject: Text, refs: Seq<(Text, Seq<u8>)>)
    requires
        all_identified(base),
    ensures
        all_identified(with_referrers_of(base, subject, refs)),
    decreases refs.len(),
{
    if refs.len() > 0 {
        lemma_referrers_of(base, subject, refs.drop_last());
        lemma_one_referrer(
            with_referrers_of(base, subject, refs.drop_last()),
            subject,
            refs.last().0,
            refs.last().1,
        );
    }
}

/// Every descriptor of a rebuilt index is listed under its own digest, whatever
/// was on disk and whatever referrers say.
pub proof fn descriptors_keep_their_digest(
    entries: Seq<JsonModel>,
    media_types: Map<Text, Text>,
    sizes: Map<Text, u64>,
    listing: Seq<(Text, Seq<(Text, Seq<u8>)>)>,
)
    ensures
        all_identified(with_all_referrers(known_bases(entries, media_types, sizes), listing)),
    decreases listing.len(),
{
    lemma_field_names();
    if listing.len() == 0 {
        let base = known_bases(entries, media_types, sizes);
        assert forall|d: Text| #![trigger base[d]] base.contains_key(d) implies identified(
            base[d],
            d,
        ) by {
            lemma_first_entry(entries, d);
        }
    } else {
        descriptors_keep_their_digest(entries, media_types, sizes, listing.drop_last());
        lemma_referrers_of(
            with_all_referrers(known_bases(entries, media_types, sizes), listing.drop_last()),
            listing.last().0,
            listing.last().1,
        );
    }
}

/// Every manifest that the store knows has a descriptor.
pub proof fn known_manifests_are_described(
    entries: Seq<JsonModel>,
    media_types: Map<Text, Text>,
    sizes: Map<Text, u64>,
    listing: Seq<(Text, Seq<(Text, Seq<u8>)>)>,
    d: Text,
)
    requires
        media_types.contains_key(d),
    ensures
        with_all_referrers(known_bases(entries, media_types, sizes), listing).contains_key(d),
    decreases listing.len(),
{
    if listing.len() > 0 {
        known_manifests_are_described(entries, media_types, sizes, listing.drop_last(), d);
        lemma_more_referrers(
            with_all_referrers(known_bases(entries, media_types, sizes), listing.drop_last()),
            listing.last().0,
            listing.last().1,
            d,
        );
    }
}

/// Referrers take no descriptor away.
proof fn lemma_more_referrers(
    base: Map<Text, Fields>,
    subject: Text,
    refs: Seq<(Text, Seq<u8>)>,
    d: Text,
)
    requires
        base.contains_key(d),
    ensures
        with_referrers_of(base, subject, refs).contains_key(d),
    decreases refs.len(),
{
    if refs.len() > 0 {
        lemma_more_referrers(base, subject, refs.drop_last(), d);
    }
}

/// An object's annotations can hold a tag's name.
pub open spec fn can_name(o: Fields) -> bool {
    o.contains_key("annotations"@) ==> o["annotations"@] is Object
}

/// Where the descriptor of a tag stands among those of the tags.
proof fn lemma_tag_at(base: Map<Text, Fields>, tags: Seq<(Text, Text)>, i: int) -> (j: int)
    requires
        0 <= i < tags.len(),
        base.contains_key(tags[i].1),
    ensures
        0 <= j < tagged_entries(base, tags).len(),
        tagged_entries(base, tags)[j] == JsonModel::Object(naming(base[tags[i].1], tags[i].0)),
    decreases tags.len(),
{
    let init = tagged_entries(base, tags.drop_last());
    if i == tags.len() - 1 {
        init.len() as int
    } else {
        let j = lemma_tag_at(base, tags.drop_last(), i);
        assert(tags.drop_last()[i] == tags[i]);
        j
    }
}

/// Every tag of a described manifest is found in the rebuilt index, with its
/// digest. (An `annotations` field on disk that is no object cannot hold the
/// tag's name; such descriptors are left out.)
pub proof fn every_tag_is_listed(
    top: Fields,
    base: Map<Text, Fields>,
    tags: Seq<(Text, Text)>,
    foreign: Seq<JsonModel>,
    i: int,
)
    requires
        0 <= i < tags.len(),
        base.contains_key(tags[i].1),
        all_identified(base),
        can_name(base[tags[i].1]),
    ensures
        exists|j: int|
            #![trigger manifests_in(rebuilt(top, base, tags, foreign))[j]]
            0 <= j < manifests_in(rebuilt(top, base, tags, foreign)).len() && tag_of(
                manifests_in(rebuilt(top, base, tags, foreign))[j],
            ) == Some(tags[i].0) && digest_of(
                manifests_in(rebuilt(top, base, tags, foreign))[j],
            ) == Some(tags[i].1),
{
    lemma_field_names();
    let (tag, d) = tags[i];
    let j = lemma_tag_at(base, tags, i);
    let list = manifests_in(rebuilt(top, base, tags, foreign));
    let rest = untagged(base, tags).map_values(|d: Text| JsonModel::Object(base[d]));
    assert(list =~= tagged_entries(base, tags) + rest + foreign);
    let o = naming(base[d], tag);
    assert(list[j] == JsonModel::Object(o));
    assert(identified(base[d], d));
    assert(tag_of(list[j]) == Some(tag));
    assert(digest_of(list[j]) == Some(d));
}

/// The entries that another tool wrote stay, as they are; every other entry on
/// disk that is not about a known manifest is a deleted manifest's, and goes.
pub proof fn foreign_entries_stay_and_deleted_ones_go(
    entries: Seq<JsonModel>,
    known: Set<Text>,
    e: JsonModel,
)
    ensures
        foreign_entries(entries, known).contains(e) <==> entries.contains(e) && is_foreign(e, known),
    decreases entries.len(),
{
    if entries.len() > 0 {
        let init = entries.drop_last();
        let f = foreign_entries(init, known);
        foreign_entries_stay_and_deleted_ones_go(init, known, e);
        assert(entries =~= init.push(entries.last()));
        lemma_list_push(init, entries.last(), e);
        lemma_list_push(f, entries.last(), e);
    }
}

/// What a longer list contains.
proof fn lemma_list_push(s: Seq<JsonModel>, b: JsonModel, y: JsonModel)
    ensures
        s.push(b).contains(y) <==> s.contains(y) || y == b,
{
    let l = s.push(b);
    assert(l[s.len() as int] == b);
    if l.contains(y) {
        let i = choose|i: int| 0 <= i < l.len() && l[i] == y;
        if i < s.len() {
            assert(s[i] == y);
        }
    }
    if s.contains(y) {
        let i = choose|i: int| 0 <= i < s.len() && s[i] == y;
        assert(l[i] == y);
    }
}

} // verus!
