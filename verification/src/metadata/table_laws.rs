//! What every mutation does to the tables, key by key, and what the listings show
//! of them.

use crate::json::{parsed, JsonModel};
use crate::metadata::model::{
    apply_op, apply_ops, backrefs_at, no_tables, same_index, with_backrefs, without, Op, Tables,
};
use crate::metadata::query::{
    is_full_listing, is_referrer_listing, is_tag_listing, listed_subjects, listed_tags,
    referrers_of, repos_of, subjects_of,
};
use crate::metadata::referrers::{
    artifact_type_of, is_referrer_page, listed, opt_string, referrer_digests, types_of,
};
use crate::metadata::{BlobChecksum, MetaOp, Referrer};
use crate::page::{left_over, opt_text, seconds, texts};
use crate::text::{text_lt, Text};
use vstd::prelude::*;

verus! {

/// The bytes read as an object whose `artifactType` is the string.
pub open spec fn typed(descriptor: Seq<u8>, t: Text) -> bool {
    parsed(descriptor) matches Some(JsonModel::Object(o)) && o.contains_key("artifactType"@)
        && o["artifactType"@] == JsonModel::Text(t)
}

/// The artifact type of a descriptor is the string in its `artifactType` field,
/// whatever other fields there are, and there is none without such a string.
pub proof fn artifact_type_is_that_field(descriptor: Seq<u8>, t: Text)
    ensures
        artifact_type_of(descriptor) == Some(t) <==> typed(descriptor, t),
        (forall|x: Text| !#[trigger] typed(descriptor, x)) ==> artifact_type_of(descriptor) is None,
{
    if artifact_type_of(descriptor) is Some {
        assert(typed(descriptor, artifact_type_of(descriptor)->0));
    }
}

/// The type index lists each recorded referrer under the `artifactType` of its
/// descriptor, and nothing else.
pub proof fn type_index_goes_by_artifact_type(m: Map<Text, Seq<u8>>, t: Text, d: Text)
    ensures
        types_of(m).contains((t, d)) <==> m.contains_key(d) && typed(m[d], t),
{
    if m.contains_key(d) {
        artifact_type_is_that_field(m[d], t);
    }
}

/// A page of the referrers of a subject lists recorded referrers, each with its
/// descriptor, in the order of their digests, after the cursor and no more than
/// asked for; with a type it lists those of that artifact type alone. Whichever
/// referrer belongs there is on the page, or the page is full and says that more
/// follow.
pub proof fn referrers_are_listed_by_artifact_type(
    items: Seq<Referrer>,
    more: bool,
    t: Tables,
    repo: Text,
    subject: Text,
    wanted: Option<Text>,
    last: Option<Text>,
    limit: nat,
    d: Text,
)
    requires
        is_referrer_page(items, more, referrers_of(t.referrers, repo, subject), wanted, last, limit),
    ensures
        items.len() <= limit,
        forall|i: int|
            #![trigger items[i]]
            0 <= i < items.len() ==> {
                let k = (repo, subject, items[i].0@);
                &&& t.referrers.contains_key(k)
                &&& items[i].1@ == t.referrers[k]
                &&& wanted matches Some(w) ==> typed(items[i].1@, w)
                &&& last matches Some(l) ==> text_lt(l, items[i].0@)
            },
        forall|i: int, j: int|
            #![trigger items[i], items[j]]
            0 <= i < j < items.len() ==> text_lt(items[i].0@, items[j].0@),
        t.referrers.contains_key((repo, subject, d)) && (wanted matches Some(w) ==> typed(
            t.referrers[(repo, subject, d)],
            w,
        )) && (last matches Some(l) ==> text_lt(l, d)) ==> (exists|i: int|
            #![trigger items[i]]
            0 <= i < items.len() && items[i].0@ == d) || (more && items.len() == limit && forall|
            i: int,
        |
            #![trigger items[i]]
            0 <= i < items.len() ==> text_lt(items[i].0@, d)),
        more ==> items.len() == limit,
{
    let m = referrers_of(t.referrers, repo, subject);
    let ds = referrer_digests(items);
    let keys = listed(m, wanted);
    assert forall|i: int| #![trigger items[i]] 0 <= i < items.len() implies {
        let k = (repo, subject, items[i].0@);
        &&& t.referrers.contains_key(k)
        &&& items[i].1@ == t.referrers[k]
        &&& wanted matches Some(w) ==> typed(items[i].1@, w)
        &&& last matches Some(l) ==> text_lt(l, items[i].0@)
    } by {
        assert(ds[i] == items[i].0@);
        assert(keys.contains(ds[i]));
        assert(m.contains_key(items[i].0@));
        if let Some(w) = wanted {
            artifact_type_is_that_field(items[i].1@, w);
        }
    }
    assert forall|i: int, j: int|
        #![trigger items[i], items[j]]
        0 <= i < j < items.len() implies text_lt(items[i].0@, items[j].0@) by {
        assert(text_lt(ds[i], ds[j]));
    }
    if t.referrers.contains_key((repo, subject, d)) && (wanted matches Some(w) ==> typed(
        t.referrers[(repo, subject, d)],
        w,
    )) && (last matches Some(l) ==> text_lt(l, d)) {
        assert(m.contains_key(d));
        if let Some(w) = wanted {
            artifact_type_is_that_field(m[d], w);
        }
        assert(keys.contains(d));
        if ds.contains(d) {
            let i = choose|i: int| 0 <= i < ds.len() && ds[i] == d;
            assert(items[i].0@ == d);
        } else {
            assert(left_over(d, ds, keys, last));
            assert forall|i: int| #![trigger items[i]] 0 <= i < items.len() implies text_lt(
                items[i].0@,
                d,
            ) by {
                assert(text_lt(ds[i], d));
            }
        }
    }
    if more {
        let x = choose|x: Text| left_over(x, ds, keys, last);
        assert(left_over(x, ds, keys, last));
    }
}

/// The referrers of a subject are those recorded against it.
pub proof fn referrers_are_those_of_the_subject(t: Tables, repo: Text, subject: Text, d: Text)
    ensures
        referrers_of(t.referrers, repo, subject).contains_key(d) <==> t.referrers.contains_key(
            (repo, subject, d),
        ),
        t.referrers.contains_key((repo, subject, d)) ==> referrers_of(
            t.referrers,
            repo,
            subject,
        )[d] == t.referrers[(repo, subject, d)],
        subjects_of(t.referrers, repo).contains(subject) <==> exists|x: Text|
            #[trigger] t.referrers.contains_key((repo, subject, x)),
{
}

/// A repository is listed when it has a manifest or a referrer.
pub proof fn repositories_with_content_are_listed(t: Tables, repo: Text)
    ensures
        repos_of(t).contains(repo) <==> (exists|d: Text|
            #[trigger] t.media_types.contains_key((repo, d))) || (exists|s: Text, d: Text|
            #[trigger] t.referrers.contains_key((repo, s, d))),
{
}

/// A tag listing names every tag of the repository once, in order, with what it
/// points at.
pub proof fn tag_listing_is_complete(
    s: Seq<(String, String, String)>,
    t: Tables,
    repo: Text,
    tag: Text,
)
    requires
        is_tag_listing(s, t.tags, repo),
    ensures
        t.tags.contains_key((repo, tag)) <==> exists|i: int|
            #![trigger s[i]]
            0 <= i < s.len() && s[i].0@ == tag,
        forall|i: int|
            #![trigger s[i]]
            0 <= i < s.len() ==> t.tags.contains_key((repo, s[i].0@)) && t.tags[(repo, s[i].0@)]
                == (s[i].1@, s[i].2@),
        forall|i: int, j: int|
            #![trigger s[i], s[j]]
            0 <= i < j < s.len() ==> text_lt(s[i].0@, s[j].0@),
{
    let names = listed_tags(s);
    if t.tags.contains_key((repo, tag)) {
        assert(seconds(t.tags.dom(), repo).contains(tag));
        assert(names.to_set().contains(tag));
        let i = choose|i: int| 0 <= i < names.len() && names[i] == tag;
        assert(s[i].0@ == tag);
    }
    assert forall|i: int, j: int| #![trigger s[i], s[j]] 0 <= i < j < s.len() implies text_lt(
        s[i].0@,
        s[j].0@,
    ) by {
        assert(text_lt(names[i], names[j]));
    }
}

/// A referrer listing names every subject of the repository once, in order, and
/// under it every referrer once, in order, with its descriptor.
pub proof fn referrer_listing_is_complete(
    s: Seq<(String, Vec<Referrer>)>,
    t: Tables,
    repo: Text,
    subject: Text,
    d: Text,
)
    requires
        is_referrer_listing(s, t.referrers, repo),
    ensures
        t.referrers.contains_key((repo, subject, d)) <==> exists|i: int, n: int|
            #![trigger s[i].1@[n]]
            0 <= i < s.len() && s[i].0@ == subject && 0 <= n < s[i].1@.len() && s[i].1@[n].0@ == d
                && s[i].1@[n].1@ == t.referrers[(repo, subject, d)],
        forall|i: int, j: int|
            #![trigger s[i], s[j]]
            0 <= i < j < s.len() ==> text_lt(s[i].0@, s[j].0@),
        forall|i: int, a: int, b: int|
            #![trigger s[i].1@[a], s[i].1@[b]]
            0 <= i < s.len() && 0 <= a < b < s[i].1@.len() ==> text_lt(
                s[i].1@[a].0@,
                s[i].1@[b].0@,
            ),
{
    let names = listed_subjects(s);
    if t.referrers.contains_key((repo, subject, d)) {
        assert(subjects_of(t.referrers, repo).contains(subject));
        assert(names.to_set().contains(subject));
        let i = choose|i: int| 0 <= i < names.len() && names[i] == subject;
        let m = referrers_of(t.referrers, repo, subject);
        assert(is_full_listing(s[i].1@, m));
        let ds = referrer_digests(s[i].1@);
        assert(m.contains_key(d));
        assert(ds.to_set().contains(d));
        let n = choose|n: int| 0 <= n < ds.len() && ds[n] == d;
        assert(s[i].1@[n].0@ == d);
    }
    if exists|i: int, n: int|
        #![trigger s[i].1@[n]]
        0 <= i < s.len() && s[i].0@ == subject && 0 <= n < s[i].1@.len() && s[i].1@[n].0@ == d
            && s[i].1@[n].1@ == t.referrers[(repo, subject, d)] {
        let (i, n) = choose|i: int, n: int|
            #![trigger s[i].1@[n]]
            0 <= i < s.len() && s[i].0@ == subject && 0 <= n < s[i].1@.len() && s[i].1@[n].0@ == d
                && s[i].1@[n].1@ == t.referrers[(repo, subject, d)];
        assert(is_full_listing(s[i].1@, referrers_of(t.referrers, repo, subject)));
    }
    assert forall|i: int, j: int| #![trigger s[i], s[j]] 0 <= i < j < s.len() implies text_lt(
        s[i].0@,
        s[j].0@,
    ) by {
        assert(text_lt(names[i], names[j]));
    }
    assert forall|i: int, a: int, b: int|
        #![trigger s[i].1@[a], s[i].1@[b]]
        0 <= i < s.len() && 0 <= a < b < s[i].1@.len() implies text_lt(
        s[i].1@[a].0@,
        s[i].1@[b].0@,
    ) by {
        assert(is_full_listing(s[i].1@, referrers_of(t.referrers, repo, s[i].0@)));
        let ds = referrer_digests(s[i].1@);
        assert(text_lt(ds[a], ds[b]));
    }
}

/// Edges that are recorded: each named blob has the manifest at the end of its
/// list, unless it was there; no other list changes.
pub proof fn edges_join_once_at_the_end(
    m: Map<(Text, Text), Seq<Text>>,
    repo: Text,
    manifest: Text,
    blobs: Seq<Text>,
    k: (Text, Text),
)
    ensures
        ({
            let was = backrefs_at(m, k);
            let now = backrefs_at(with_backrefs(m, repo, manifest, blobs), k);
            &&& k.0 == repo && blobs.contains(k.1) && !was.contains(manifest) ==> now == was.push(
                manifest,
            )
            &&& k.0 == repo && blobs.contains(k.1) && was.contains(manifest) ==> now == was
            &&& !(k.0 == repo && blobs.contains(k.1)) ==> now == was
        }),
    decreases blobs.len(),
{
    if blobs.len() > 0 {
        let init = blobs.drop_last();
        edges_join_once_at_the_end(m, repo, manifest, init, k);
        assert(blobs[blobs.len() - 1] == blobs.last());
        if init.contains(k.1) {
            let i = choose|i: int| 0 <= i < init.len() && init[i] == k.1;
            assert(blobs[i] == k.1);
        }
        if blobs.contains(k.1) && !init.contains(k.1) {
            let i = choose|i: int| 0 <= i < blobs.len() && blobs[i] == k.1;
            if i < init.len() {
                assert(init[i] == k.1);
            }
        }
        let was = backrefs_at(m, k);
        assert(was.push(manifest)[was.len() as int] == manifest);
        assert(was.push(manifest).contains(manifest));
    }
}

/// Recording a manifest sets its media type, its tag if it has one, the referrer
/// entry if it has a subject, and an edge from each thing it references; every
/// other entry of every table stays.
pub proof fn recorded_manifest_changes_nothing_else(
    t: Tables,
    repo: Text,
    digest: Text,
    media_type: Text,
    tag: Option<Text>,
    references: Seq<Text>,
    referrer: Option<(Text, Seq<u8>)>,
    k: (Text, Text),
    r: (Text, Text, Text),
)
    ensures
        ({
            let n = apply_op(
                t,
                Op::PutManifest { repo, digest, media_type, tag, references, referrer },
            );
            let was = backrefs_at(t.backrefs, k);
            let now = backrefs_at(n.backrefs, k);
            &&& n.media_types.contains_key((repo, digest))
            &&& n.media_types[(repo, digest)] == media_type
            &&& k != (repo, digest) ==> (n.media_types.contains_key(k)
                <==> t.media_types.contains_key(k)) && (t.media_types.contains_key(k)
                ==> n.media_types[k] == t.media_types[k])
            &&& tag matches Some(x) ==> n.tags.contains_key((repo, x)) && n.tags[(repo, x)] == (
                digest,
                media_type,
            )
            &&& !(tag matches Some(x) && k == (repo, x)) ==> (n.tags.contains_key(k)
                <==> t.tags.contains_key(k)) && (t.tags.contains_key(k) ==> n.tags[k] == t.tags[k])
            &&& referrer matches Some(s) ==> n.referrers.contains_key((repo, s.0, digest))
                && n.referrers[(repo, s.0, digest)] == s.1
            &&& !(referrer matches Some(s) && r == (repo, s.0, digest)) ==> (
            n.referrers.contains_key(r) <==> t.referrers.contains_key(r)) && (
            t.referrers.contains_key(r) ==> n.referrers[r] == t.referrers[r])
            &&& k.0 == repo && references.contains(k.1) && !was.contains(digest) ==> now
                == was.push(digest)
            &&& !(k.0 == repo && references.contains(k.1) && !was.contains(digest)) ==> now == was
            &&& n.checksums == t.checksums
        }),
{
    edges_join_once_at_the_end(t.backrefs, repo, digest, references, k);
}

/// Recording edges, a referrer or a checksum on their own, and dropping a blob,
/// changes what they name and nothing else.
pub proof fn other_mutations_change_what_they_name(
    t: Tables,
    repo: Text,
    a: Text,
    b: Text,
    blobs: Seq<Text>,
    descriptor: Seq<u8>,
    checksum: BlobChecksum,
    k: (Text, Text),
    r: (Text, Text, Text),
)
    ensures
        ({
            let n = apply_op(t, Op::PutBackrefs { repo, manifest: a, blobs });
            let was = backrefs_at(t.backrefs, k);
            let now = backrefs_at(n.backrefs, k);
            &&& n.tags == t.tags && n.media_types == t.media_types && n.referrers == t.referrers
                && n.checksums == t.checksums
            &&& k.0 == repo && blobs.contains(k.1) && !was.contains(a) ==> now == was.push(a)
            &&& !(k.0 == repo && blobs.contains(k.1) && !was.contains(a)) ==> now == was
        }),
        ({
            let n = apply_op(t, Op::PutReferrer { repo, subject: a, referrer: b, descriptor });
            &&& n.tags == t.tags && n.media_types == t.media_types && n.backrefs == t.backrefs
                && n.checksums == t.checksums
            &&& n.referrers.contains_key((repo, a, b)) && n.referrers[(repo, a, b)] == descriptor
            &&& r != (repo, a, b) ==> (n.referrers.contains_key(r) <==> t.referrers.contains_key(r))
                && (t.referrers.contains_key(r) ==> n.referrers[r] == t.referrers[r])
        }),
        ({
            let n = apply_op(t, Op::PutChecksum { repo, digest: a, checksum });
            &&& n.tags == t.tags && n.media_types == t.media_types && n.backrefs == t.backrefs
                && n.referrers == t.referrers
            &&& n.checksums.contains_key((repo, a)) && n.checksums[(repo, a)] == checksum
            &&& k != (repo, a) ==> (n.checksums.contains_key(k) <==> t.checksums.contains_key(k))
                && (t.checksums.contains_key(k) ==> n.checksums[k] == t.checksums[k])
        }),
        ({
            let n = apply_op(t, Op::DeleteBlob { repo, digest: a });
            &&& n.tags == t.tags && n.media_types == t.media_types && n.backrefs == t.backrefs
                && n.referrers == t.referrers
            &&& !n.checksums.contains_key((repo, a))
            &&& k != (repo, a) ==> (n.checksums.contains_key(k) <==> t.checksums.contains_key(k))
                && (t.checksums.contains_key(k) ==> n.checksums[k] == t.checksums[k])
        }),
{
    edges_join_once_at_the_end(t.backrefs, repo, a, blobs, k);
}

/// Deleting a manifest takes it out of the lists of the blobs of its repository,
/// and leaves the others of each list in their order; a list that is left empty
/// goes, and the lists of other repositories stay.
pub proof fn deleted_manifest_leaves_the_other_edges(
    t: Tables,
    repo: Text,
    digest: Text,
    k: (Text, Text),
)
    ensures
        ({
            let n = apply_op(t, Op::DeleteManifest { repo, digest });
            let now = backrefs_at(n.backrefs, k);
            &&& k.0 != repo ==> (n.backrefs.contains_key(k) <==> t.backrefs.contains_key(k)) && now
                == backrefs_at(t.backrefs, k)
            &&& k.0 == repo ==> now == backrefs_at(t.backrefs, k).filter(|m: Text| m != digest)
            &&& k.0 == repo && n.backrefs.contains_key(k) ==> now.len() > 0
            &&& !n.media_types.contains_key((repo, digest))
            &&& !n.checksums.contains_key((repo, digest))
            &&& k != (repo, digest) ==> (n.media_types.contains_key(k)
                <==> t.media_types.contains_key(k)) && (t.media_types.contains_key(k)
                ==> n.media_types[k] == t.media_types[k])
            &&& k != (repo, digest) ==> (n.checksums.contains_key(k) <==> t.checksums.contains_key(
                k,
            )) && (t.checksums.contains_key(k) ==> n.checksums[k] == t.checksums[k])
        }),
{
    let was = backrefs_at(t.backrefs, k);
    lemma_without_is_filter(was, digest);
    reveal(Seq::filter);
    if !t.backrefs.contains_key(k) {
        assert(was.filter(|m: Text| m != digest) =~= Seq::<Text>::empty());
    }
    let n = apply_op(t, Op::DeleteManifest { repo, digest });
    if k.0 == repo && !n.backrefs.contains_key(k) {
        assert(without(was, digest) =~= Seq::<Text>::empty());
    }
}

/// What is left without a text.
proof fn lemma_without_is_filter(s: Seq<Text>, x: Text)
    ensures
        without(s, x) == s.filter(|m: Text| m != x),
    decreases s.len(),
{
    reveal(Seq::filter);
    if s.len() > 0 {
        lemma_without_is_filter(s.drop_last(), x);
    }
}

/// A run of mutations takes effect in its order, one after the other.
pub proof fn mutations_take_effect_in_order(t: Tables, ops: Seq<Op>, op: Op)
    ensures
        apply_ops(t, Seq::empty()) == t,
        apply_ops(t, ops.push(op)) == apply_op(apply_ops(t, ops), op),
{
    assert(ops.push(op).drop_last() =~= ops);
}

/// An index that holds nothing answers nothing.
pub proof fn empty_index_holds_nothing(k: (Text, Text), r: (Text, Text, Text))
    ensures
        !no_tables().tags.contains_key(k),
        !no_tables().media_types.contains_key(k),
        !no_tables().referrers.contains_key(r),
        !no_tables().checksums.contains_key(k),
        !no_tables().backrefs.contains_key(k),
        backrefs_at(no_tables().backrefs, k).len() == 0,
{
}

/// A blob's manifests are those on its list, and none without a list.
pub proof fn blob_manifests_are_those_on_its_list(m: Map<(Text, Text), Seq<Text>>, k: (Text, Text))
    ensures
        m.contains_key(k) ==> backrefs_at(m, k) == m[k],
        !m.contains_key(k) ==> backrefs_at(m, k).len() == 0,
{
}

/// A mutation says what its fields say.
pub proof fn mutations_say_what_their_fields_say(op: MetaOp, i: int)
    ensures
        op matches MetaOp::PutManifest {
            repo,
            digest,
            media_type,
            tag,
            references,
            referrer,
        } ==> (op.model() matches Op::PutManifest {
            repo: r,
            digest: d,
            media_type: m,
            tag: t,
            references: f,
            referrer: s,
        } && r == repo@ && d == digest@ && m == media_type@ && (tag is Some <==> t is Some) && (tag
            is Some ==> t->0 == tag->0@) && f.len() == references@.len() && (0 <= i < f.len() ==> f[i]
            == references@[i]@) && (referrer is Some <==> s is Some) && (referrer is Some ==> (s->0).0
            == (referrer->0).0@ && (s->0).1 == (referrer->0).1@)),
        op matches MetaOp::PutBackrefs { repo, manifest, blobs } ==> (op.model()
            matches Op::PutBackrefs { repo: r, manifest: m, blobs: b } && r == repo@ && m
            == manifest@ && b.len() == blobs@.len() && (0 <= i < b.len() ==> b[i] == blobs@[i]@)),
        op matches MetaOp::DeleteManifest { repo, digest } ==> op.model() == (Op::DeleteManifest {
            repo: repo@,
            digest: digest@,
        }),
        op matches MetaOp::PutReferrer { repo, subject, referrer, descriptor } ==> op.model() == (
        Op::PutReferrer {
            repo: repo@,
            subject: subject@,
            referrer: referrer@,
            descriptor: descriptor@,
        }),
        op matches MetaOp::PutChecksum { repo, digest, crc32c, size } ==> op.model() == (
        Op::PutChecksum {
            repo: repo@,
            digest: digest@,
            checksum: BlobChecksum { crc32c, size },
        }),
        op matches MetaOp::DeleteBlob { repo, digest } ==> op.model() == (Op::DeleteBlob {
            repo: repo@,
            digest: digest@,
        }),
{
}

/// Arguments stand for the texts they hold.
pub proof fn arguments_stand_for_their_texts(s: &str, o: Option<String>, v: Seq<String>, i: int)
    ensures
        opt_text(Some(s)) == Some(s@),
        opt_text(None) is None,
        o matches Some(x) ==> opt_string(o) == Some(x@),
        o is None ==> opt_string(o) is None,
        texts(v).len() == v.len(),
        0 <= i < v.len() ==> texts(v)[i] == v[i]@,
{
}

/// Two indexes are the same when they agree on every tag, media type, referrer and
/// checksum, and on which manifests list a blob.
pub proof fn same_index_means_the_same_answers(
    a: Tables,
    b: Tables,
    k: (Text, Text),
    r: (Text, Text, Text),
    m: Text,
)
    requires
        same_index(a, b),
    ensures
        a.tags.contains_key(k) <==> b.tags.contains_key(k),
        a.tags.contains_key(k) ==> a.tags[k] == b.tags[k],
        a.media_types.contains_key(k) <==> b.media_types.contains_key(k),
        a.media_types.contains_key(k) ==> a.media_types[k] == b.media_types[k],
        a.referrers.contains_key(r) <==> b.referrers.contains_key(r),
        a.referrers.contains_key(r) ==> a.referrers[r] == b.referrers[r],
        a.checksums.contains_key(k) <==> b.checksums.contains_key(k),
        a.checksums.contains_key(k) ==> a.checksums[k] == b.checksums[k],
        a.backrefs.contains_key(k) <==> b.backrefs.contains_key(k),
        backrefs_at(a.backrefs, k).contains(m) <==> backrefs_at(b.backrefs, k).contains(m),
{
    assert(a.backrefs.dom().contains(k) <==> b.backrefs.dom().contains(k));
}

} // verus!
