//! The image layout: descriptor accessors, what a manifest references, paging
//! of what a layout lists, and the import of tags that another tool wrote.

pub mod index;
pub mod index_laws;
pub mod laws;
pub mod reference_laws;

use crate::digest::{digest_parts, Digest};
use crate::json::{encoded, models, to_bytes, Json, JsonModel};
use crate::metadata::model::{same_backrefs, Op};
use crate::metadata::referrers::referrer_digests;
use crate::metadata::store::MetadataStore;
use crate::metadata::{MetaOp, Referrer};
use crate::page::{is_page, opt_text, page_of, texts, Page};
use crate::table::Table;
use crate::text::{same, Text};
use vstd::prelude::*;

verus! {

broadcast use vstd::string::group_string_axioms;

/// The contents of the `oci-layout` marker file.
pub const OCI_LAYOUT_MARKER: &'static str = "{\"imageLayoutVersion\":\"1.0.0\"}";

/// The annotation that names a descriptor's tag.
pub const REF_NAME_ANNOTATION: &'static str = "org.opencontainers.image.ref.name";

/// The image manifest media type; the default where a descriptor has none.
pub const MEDIA_TYPE_IMAGE_MANIFEST: &'static str = "application/vnd.oci.image.manifest.v1+json";

/// The image index media type.
pub const MEDIA_TYPE_IMAGE_INDEX: &'static str = "application/vnd.oci.image.index.v1+json";

/// How many path parts a repository name has at most.
pub const MAX_REPO_DEPTH: usize = 16;

/// The tag that a descriptor names.
pub open spec fn tag_of(d: JsonModel) -> Option<Text> {
    match d.field("annotations"@) {
        Some(a) => a.text_field(REF_NAME_ANNOTATION@),
        None => None,
    }
}

/// The digest of a descriptor.
pub open spec fn digest_of(d: JsonModel) -> Option<Text> {
    d.text_field("digest"@)
}

/// The descriptors of an image index.
pub open spec fn manifests_in(index: JsonModel) -> Seq<JsonModel> {
    match index.field("manifests"@) {
        Some(v) => match v.list() {
            Some(s) => s,
            None => Seq::empty(),
        },
        None => Seq::empty(),
    }
}

/// The digest of a descriptor's subject.
pub open spec fn subject_of(d: JsonModel) -> Option<Text> {
    match d.field("subject"@) {
        Some(s) => s.text_field("digest"@),
        None => None,
    }
}

/// The tag that a descriptor names.
pub fn descriptor_tag(descriptor: &Json) -> (r: Option<&str>)
    ensures
        r matches Some(t) ==> tag_of(descriptor.model()) == Some(t@),
        r is None ==> tag_of(descriptor.model()) is None,
{
    match descriptor.get("annotations") {
        Some(a) => a.text_field(REF_NAME_ANNOTATION),
        None => None,
    }
}

/// The digest of a descriptor.
pub fn descriptor_digest(descriptor: &Json) -> (r: Option<&str>)
    ensures
        r matches Some(t) ==> digest_of(descriptor.model()) == Some(t@),
        r is None ==> digest_of(descriptor.model()) is None,
{
    descriptor.text_field("digest")
}

/// The descriptors of an image index; none when there is no such list.
pub fn index_manifests(index: &Json) -> (r: Option<&Vec<Json>>)
    ensures
        r matches Some(v) ==> manifests_in(index.model()) == models(v@),
        r is None ==> manifests_in(index.model()) == Seq::<JsonModel>::empty(),
{
    match index.get("manifests") {
        Some(v) => v.as_list(),
        None => None,
    }
}

/// The digest of a descriptor's subject.
pub fn subject_digest(descriptor: &Json) -> (r: Option<&str>)
    ensures
        r matches Some(t) ==> subject_of(descriptor.model()) == Some(t@),
        r is None ==> subject_of(descriptor.model()) is None,
{
    match descriptor.get("subject") {
        Some(s) => s.text_field("digest"),
        None => None,
    }
}

/// The items of a list field; none when there is no such list.
pub open spec fn items_of(v: JsonModel, name: Text) -> Seq<JsonModel> {
    match v.field(name) {
        Some(f) => match f.list() {
            Some(s) => s,
            None => Seq::empty(),
        },
        None => Seq::empty(),
    }
}

/// A field on its own; none when there is no such field.
pub open spec fn alone(v: JsonModel, name: Text) -> Seq<JsonModel> {
    match v.field(name) {
        Some(f) => seq![f],
        None => Seq::empty(),
    }
}

/// The descriptors in a manifest: its config, its layers, its children and its
/// subject, in this order.
pub open spec fn descriptors_in(manifest: JsonModel) -> Seq<JsonModel> {
    alone(manifest, "config"@) + items_of(manifest, "layers"@) + items_of(manifest, "manifests"@)
        + alone(manifest, "subject"@)
}

/// The digest that a descriptor names, if it is well formed.
pub open spec fn named_digest(d: JsonModel) -> Option<(Text, Text)> {
    match digest_of(d) {
        Some(t) => digest_parts(t),
        None => None,
    }
}

/// The well-formed digests that descriptors name, in order.
pub open spec fn named_digests(s: Seq<JsonModel>) -> Seq<(Text, Text)>
    decreases s.len(),
{
    if s.len() == 0 {
        Seq::empty()
    } else {
        match named_digest(s.last()) {
            Some(d) => named_digests(s.drop_last()).push(d),
            None => named_digests(s.drop_last()),
        }
    }
}

/// Everything that a manifest references.
pub open spec fn references_of(manifest: JsonModel) -> Seq<(Text, Text)> {
    named_digests(descriptors_in(manifest))
}

/// The models of some digests.
pub open spec fn digest_views(s: Seq<Digest>) -> Seq<(Text, Text)> {
    Seq::new(s.len(), |i: int| s[i]@)
}

/// Adds the digest that a descriptor names.
fn add_named(d: &Json, out: &mut Vec<Digest>, Ghost(done): Ghost<Seq<JsonModel>>)
    requires
        digest_views(old(out)@) == named_digests(done),
    ensures
        digest_views(final(out)@) == named_digests(done.push(d.model())),
{
    let ghost had = out@;
    proof {
        assert(done.push(d.model()).drop_last() =~= done);
        assert(done.push(d.model()).last() == d.model());
    }
    if let Some(text) = descriptor_digest(d) {
        if let Ok(digest) = Digest::parse(text) {
            out.push(digest);
            assert(digest_views(out@) =~= digest_views(had).push(digest@));
        }
    }
}

/// Adds the digests that the items of a list field name.
fn add_items(
    manifest: &Json,
    name: &str,
    out: &mut Vec<Digest>,
    Ghost(done): Ghost<Seq<JsonModel>>,
)
    requires
        digest_views(old(out)@) == named_digests(done),
    ensures
        digest_views(final(out)@) == named_digests(done + items_of(manifest.model(), name@)),
{
    let list = match manifest.get(name) {
        Some(v) => v.as_list(),
        None => None,
    };
    if let Some(v) = list {
        let ghost all = models(v@);
        let mut i: usize = 0;
        assert(done + all.take(0) =~= done);
        while i < v.len()
            invariant
                all == models(v@),
                i <= all.len(),
                digest_views(out@) == named_digests(done + all.take(i as int)),
            decreases all.len() - i,
        {
            add_named(&v[i], out, Ghost(done + all.take(i as int)));
            i += 1;
            assert((done + all.take(i - 1)).push(all[i - 1]) =~= done + all.take(i as int));
        }
        assert(all.take(all.len() as int) =~= all);
    } else {
        assert(done + Seq::<JsonModel>::empty() =~= done);
    }
}

/// Every object that a manifest references, as digests: its config, each layer,
/// each child and its subject. A malformed descriptor contributes nothing.
pub fn manifest_references(manifest: &Json) -> (r: Vec<Digest>)
    ensures
        digest_views(r@) == references_of(manifest.model()),
{
    let ghost m = manifest.model();
    let mut out: Vec<Digest> = Vec::new();
    let ghost s0 = Seq::<JsonModel>::empty();
    assert(digest_views(out@) =~= named_digests(s0));
    if let Some(c) = manifest.get("config") {
        add_named(c, &mut out, Ghost(s0));
        assert(s0.push(c.model()) =~= alone(m, "config"@));
    }
    let ghost s1 = alone(m, "config"@);
    add_items(manifest, "layers", &mut out, Ghost(s1));
    let ghost s2 = s1 + items_of(m, "layers"@);
    add_items(manifest, "manifests", &mut out, Ghost(s2));
    let ghost s3 = s2 + items_of(m, "manifests"@);
    if let Some(s) = manifest.get("subject") {
        add_named(s, &mut out, Ghost(s3));
        assert(s3.push(s.model()) =~= descriptors_in(m));
    } else {
        assert(s3 =~= descriptors_in(m));
    }
    out
}

/// Whether a descriptor is of the wanted artifact type.
pub open spec fn of_type(d: JsonModel, wanted: Option<Text>) -> bool {
    wanted is None || d.text_field("artifactType"@) == wanted
}

/// The models of some candidates.
pub open spec fn candidates(refs: Seq<(String, &Json)>) -> Seq<(Text, JsonModel)> {
    Seq::new(refs.len(), |i: int| (refs[i].0@, refs[i].1.model()))
}

/// The first candidate of the wanted type under `d`.
pub open spec fn first_match(refs: Seq<(Text, JsonModel)>, d: Text, wanted: Option<Text>) -> Option<
    JsonModel,
>
    decreases refs.len(),
{
    if refs.len() == 0 {
        None
    } else {
        match first_match(refs.drop_last(), d, wanted) {
            Some(v) => Some(v),
            None => if refs.last().0 == d && of_type(refs.last().1, wanted) {
                Some(refs.last().1)
            } else {
                None
            },
        }
    }
}

/// The digests with a candidate of the wanted type.
pub open spec fn matching(refs: Seq<(Text, JsonModel)>, wanted: Option<Text>) -> Set<Text> {
    Set::new(|d: Text| first_match(refs, d, wanted) is Some)
}

/// `items` is the page of the candidates: the right digests, each with the text
/// of its first candidate of the wanted type.
pub open spec fn is_layout_page(
    items: Seq<Referrer>,
    more: bool,
    refs: Seq<(Text, JsonModel)>,
    wanted: Option<Text>,
    last: Option<Text>,
    limit: nat,
) -> bool {
    &&& is_page(referrer_digests(items), more, matching(refs, wanted), last, limit)
    &&& forall|i: int|
        #![trigger items[i]]
        0 <= i < items.len() ==> (first_match(refs, items[i].0@, wanted) matches Some(v)
            && items[i].1@ == encoded(v))
}

/// Pages referrer candidates read from a layout: those of the wanted artifact
/// type, ordered by digest, the first occurrence of each, and only the served
/// ones written out.
pub fn page_layout_referrers(
    refs: &Vec<(String, &Json)>,
    artifact_type: Option<&str>,
    last: Option<&str>,
    limit: usize,
) -> (r: Page<Referrer>)
    ensures
        is_layout_page(
            r.items@,
            r.more,
            candidates(refs@),
            opt_text(artifact_type),
            opt_text(last),
            limit as nat,
        ),
{
    let ghost all = candidates(refs@);
    let ghost wanted = opt_text(artifact_type);
    let mut first: Table<String, usize> = Table::new();
    let mut i: usize = 0;
    while i < refs.len()
        invariant
            all == candidates(refs@),
            wanted == opt_text(artifact_type),
            i <= all.len(),
            first.wf(),
            forall|d: Text|
                #![trigger first.map().contains_key(d)]
                first.map().contains_key(d) <==> first_match(all.take(i as int), d, wanted) is Some,
            forall|d: Text|
                #![trigger first.map()[d]]
                first.map().contains_key(d) ==> first.map()[d] < all.len() && first_match(
                    all.take(i as int),
                    d,
                    wanted,
                ) == Some(all[first.map()[d] as int].1),
        decreases all.len() - i,
    {
        let ghost m0 = first.map();
        let ghost prev = all.take(i as int);
        let ghost next = all.take(i + 1);
        let (name, descriptor) = &refs[i];
        proof {
            assert(next.drop_last() =~= prev);
            assert(next.last() == (name@, descriptor.model()));
            assert(all[i as int] == (name@, descriptor.model()));
        }
        let wants = match artifact_type {
            None => true,
            Some(t) => match descriptor.text_field("artifactType") {
                Some(have) => same(have, t),
                None => false,
            },
        };
        assert(wants == of_type(descriptor.model(), wanted));
        if wants && !first.contains(name) {
            first.insert(name.clone(), i);
        }
        proof {
            assert forall|d: Text|
                #![trigger first.map().contains_key(d)]
                first.map().contains_key(d) <==> first_match(next, d, wanted) is Some by {
                assert(m0.contains_key(d) <==> first_match(prev, d, wanted) is Some);
            }
            assert forall|d: Text|
                #![trigger first.map()[d]]
                first.map().contains_key(d) implies first.map()[d] < all.len() && first_match(
                next,
                d,
                wanted,
            ) == Some(all[first.map()[d] as int].1) by {
                if m0.contains_key(d) {
                    assert(first.map()[d] == m0[d]);
                } else {
                    assert(first_match(prev, d, wanted) is None);
                }
            }
        }
        i += 1;
    }
    assert(all.take(all.len() as int) =~= all);
    assert(first.map().dom() =~= matching(all, wanted));
    let page = page_of(&first, last, limit);
    let ghost names = texts(page.items@);
    let mut items: Vec<Referrer> = Vec::new();
    let mut i: usize = 0;
    while i < page.items.len()
        invariant
            all == candidates(refs@),
            names == texts(page.items@),
            first.wf(),
            i <= names.len(),
            referrer_digests(items@) == names.take(i as int),
            forall|j: int| #![trigger names[j]] 0 <= j < names.len() ==> first.map().contains_key(
                names[j],
            ),
            forall|d: Text|
                #![trigger first.map()[d]]
                first.map().contains_key(d) ==> first.map()[d] < all.len() && first_match(
                    all,
                    d,
                    wanted,
                ) == Some(all[first.map()[d] as int].1),
            forall|j: int|
                #![trigger items@[j]]
                0 <= j < items@.len() ==> (first_match(all, items@[j].0@, wanted) matches Some(v)
                    && items@[j].1@ == encoded(v)),
        decreases names.len() - i,
    {
        let ghost had = items@;
        let name = &page.items[i];
        assert(first.map().contains_key(names[i as int]));
        if let Some(at) = first.get(name) {
            let at: usize = *at;
            assert(first.map()[name@] == at);
            let bytes = to_bytes(refs[at].1);
            assert(all[at as int].1 == refs@[at as int].1.model());
            items.push((name.clone(), bytes));
        }
        proof {
            assert(referrer_digests(items@) =~= referrer_digests(had).push(names[i as int]));
            assert(names.take(i + 1) =~= names.take(i as int).push(names[i as int]));
        }
        i += 1;
    }
    assert(names.take(names.len() as int) =~= names);
    Page { items, more: page.more }
}

/// The texts of an index's descriptors.
pub open spec fn entry_texts(index: JsonModel) -> Seq<Seq<u8>> {
    manifests_in(index).map_values(|d: JsonModel| encoded(d))
}

/// The texts of an index's descriptors.
fn written_entries(index: &Json) -> (r: Vec<Vec<u8>>)
    ensures
        r@.map_values(|v: Vec<u8>| v@) == entry_texts(index.model()),
{
    let mut out: Vec<Vec<u8>> = Vec::new();
    if let Some(v) = index_manifests(index) {
        let ghost all = models(v@);
        let mut i: usize = 0;
        while i < v.len()
            invariant
                all == models(v@),
                i <= all.len(),
                out@.len() == i,
                forall|j: int| #![trigger out@[j]] 0 <= j < i ==> out@[j]@ == encoded(all[j]),
            decreases all.len() - i,
        {
            out.push(to_bytes(&v[i]));
            i += 1;
        }
    }
    assert(out@.map_values(|v: Vec<u8>| v@) =~= entry_texts(index.model()));
    out
}

/// Whether two indexes list the same descriptors, in whatever order.
pub fn same_manifest_set(a: &Json, b: &Json) -> (r: bool)
    ensures
        r == (entry_texts(a.model()).to_multiset() == entry_texts(b.model()).to_multiset()),
{
    broadcast use vstd::seq_lib::group_to_multiset_ensures;
    let mut left = written_entries(a);
    let right = written_entries(b);
    let ghost f = |v: Vec<u8>| v@;
    let ghost all = right@.map_values(f);
    let ghost whole = left@.map_values(f).to_multiset();
    if left.len() != right.len() {
        proof {
            assert(whole.len() == left@.len());
            assert(all.to_multiset().len() == right@.len());
        }
        return false;
    }
    let mut i: usize = 0;
    assert(all.take(0) =~= Seq::<Seq<u8>>::empty());
    while i < right.len()
        invariant
            f == (|v: Vec<u8>| v@),
            all == right@.map_values(f),
            all == entry_texts(b.model()),
            whole == entry_texts(a.model()).to_multiset(),
            i <= right@.len(),
            left@.len() == right@.len() - i,
            whole == left@.map_values(f).to_multiset().add(all.take(i as int).to_multiset()),
        decreases right@.len() - i,
    {
        let ghost rest = left@.map_values(f);
        let ghost x = right@[i as int]@;
        let mut at: usize = 0;
        while at < left.len() && !crate::metadata::log::same_bytes(
            left[at].as_slice(),
            right[i].as_slice(),
        )
            invariant
                f == (|v: Vec<u8>| v@),
                rest == left@.map_values(f),
                i < right@.len(),
                x == right@[i as int]@,
                at <= left@.len(),
                forall|j: int| #![trigger rest[j]] 0 <= j < at ==> rest[j] != x,
            decreases left@.len() - at,
        {
            assert(rest[at as int] == left@[at as int]@);
            at += 1;
        }
        proof {
            assert(all[i as int] == x);
            assert(all.take(i + 1) =~= all.take(i as int).push(x));
        }
        if at == left.len() {
            proof {
                broadcast use vstd::seq_lib::group_to_multiset_ensures;
                assert(!rest.contains(x));
                lemma_count_take(all, i as int);
                assert(rest.to_multiset().count(x) == 0);
                assert(whole.count(x) == all.take(i as int).to_multiset().count(x));
            }
            return false;
        }
        let _ = left.swap_remove(at);
        proof {
            broadcast use vstd::seq_lib::group_to_multiset_ensures;
            assert(rest[at as int] == x);
            assert(left@.map_values(f) =~= rest.update(at as int, rest.last()).drop_last());
            lemma_swap_out(rest, at as int, left@.map_values(f));
            assert(left@.map_values(f).to_multiset().add(all.take(i + 1).to_multiset())
                =~= rest.to_multiset().add(all.take(i as int).to_multiset()));
        }
        i += 1;
    }
    proof {
        assert(all.take(all.len() as int) =~= all);
        assert(left@.map_values(f) =~= Seq::<Seq<u8>>::empty());
        assert(whole =~= all.to_multiset());
    }
    true
}

/// One of the items from `i` on is not among the first `i`.
proof fn lemma_count_take(s: Seq<Seq<u8>>, i: int)
    requires
        0 <= i < s.len(),
    ensures
        s.to_multiset().count(s[i]) > s.take(i).to_multiset().count(s[i]),
{
    broadcast use vstd::seq_lib::group_to_multiset_ensures;
    let a = s.take(i + 1);
    let b = s.skip(i + 1);
    assert(s =~= a + b);
    vstd::seq_lib::lemma_multiset_commutative(a, b);
    assert(a =~= s.take(i).push(s[i]));
}

/// Taking one item out, with the last in its place.
proof fn lemma_swap_out(s: Seq<Seq<u8>>, at: int, r: Seq<Seq<u8>>)
    requires
        0 <= at < s.len(),
        r == s.update(at, s.last()).drop_last(),
    ensures
        r.to_multiset().insert(s[at]) == s.to_multiset(),
{
    broadcast use vstd::seq_lib::group_to_multiset_ensures;
    if at == s.len() - 1 {
        assert(r =~= s.drop_last());
        assert(s =~= r.push(s[at]));
    } else {
        let l = s.last();
        let shorter = s.remove(at);
        assert(shorter =~= s.take(at) + s.subrange(at + 1, s.len() as int));
        let mid = s.subrange(at + 1, s.len() - 1);
        assert(r =~= s.take(at).push(l) + mid);
        assert(shorter =~= s.take(at) + mid.push(l));
        vstd::seq_lib::lemma_multiset_commutative(s.take(at).push(l), mid);
        vstd::seq_lib::lemma_multiset_commutative(s.take(at), mid.push(l));
        assert(r.to_multiset() =~= shorter.to_multiset());
        assert(s.to_multiset().remove(s[at]) =~= shorter.to_multiset());
        assert(s.to_multiset().count(s[at]) > 0);
        assert(r.to_multiset().insert(s[at]) =~= s.to_multiset());
    }
}

/// Whether a directory of this name may belong to a repository's name: the
/// content and staging directories do not, nor anything hidden.
pub open spec fn repo_part(name: Text) -> bool {
    name != "blobs"@ && name != "uploads"@ && !(name.len() > 0 && name[0] == '.')
}

/// Whether a directory of this name may belong to a repository's name.
pub fn is_repo_part(name: &str) -> (r: bool)
    ensures
        r == repo_part(name@),
{
    if same(name, "blobs") || same(name, "uploads") {
        return false;
    }
    let v = crate::chars::chars_of(name);
    !(v.len() > 0 && v[0] == '.')
}

/// The digest of a content file, by its directory and its name; nothing for a
/// name that is no digest.
pub fn cas_digest(algorithm: &str, name: &str) -> (r: Option<Digest>)
    ensures
        r is Some <==> digest_parts(algorithm@ + ":"@ + name@) is Some,
        r matches Some(d) ==> digest_parts(algorithm@ + ":"@ + name@) == Some(d@),
{
    let text = crate::text::concat3(algorithm, ":", name);
    match Digest::parse(text.as_str()) {
        Ok(d) => Some(d),
        Err(_) => None,
    }
}

/// The mutation that records a descriptor that the index does not know: it names
/// a tag and a well-formed digest, and the tag is not taken.
pub open spec fn foreign_op(tags: Map<(Text, Text), (Text, Text)>, repo: Text, d: JsonModel) -> Option<
    Op,
> {
    if tag_of(d) is Some && named_digest(d) is Some && !tags.contains_key((repo, tag_of(d)->0)) {
        Some(
            Op::PutManifest {
                repo,
                digest: digest_of(d)->0,
                media_type: match d.text_field("mediaType"@) {
                    Some(t) => t,
                    None => MEDIA_TYPE_IMAGE_MANIFEST@,
                },
                tag: tag_of(d),
                references: Seq::empty(),
                referrer: None,
            },
        )
    } else {
        None
    }
}

/// The tags once the descriptors that the index does not know are recorded, one
/// after the other.
pub open spec fn imported(
    tags: Map<(Text, Text), (Text, Text)>,
    media_types: Map<(Text, Text), Text>,
    repo: Text,
    entries: Seq<JsonModel>,
) -> (Map<(Text, Text), (Text, Text)>, Map<(Text, Text), Text>)
    decreases entries.len(),
{
    if entries.len() == 0 {
        (tags, media_types)
    } else {
        let (t, m) = imported(tags, media_types, repo, entries.drop_last());
        match foreign_op(t, repo, entries.last()) {
            Some(Op::PutManifest { digest, media_type, tag, .. }) => (
                t.insert((repo, tag->0), (digest, media_type)),
                m.insert((repo, digest), media_type),
            ),
            _ => (t, m),
        }
    }
}

/// An import only adds tags, and leaves no descriptor that it would record.
proof fn lemma_imported(
    tags: Map<(Text, Text), (Text, Text)>,
    media_types: Map<(Text, Text), Text>,
    repo: Text,
    entries: Seq<JsonModel>,
)
    ensures
        forall|k: (Text, Text)|
            tags.contains_key(k) ==> #[trigger] imported(
                tags,
                media_types,
                repo,
                entries,
            ).0.contains_key(k),
        forall|i: int|
            0 <= i < entries.len() ==> foreign_op(
                imported(tags, media_types, repo, entries).0,
                repo,
                #[trigger] entries[i],
            ) is None,
    decreases entries.len(),
{
    if entries.len() > 0 {
        let init = entries.drop_last();
        lemma_imported(tags, media_types, repo, init);
        let before = imported(tags, media_types, repo, init).0;
        let after = imported(tags, media_types, repo, entries).0;
        assert(forall|k: (Text, Text)|
            #[trigger] before.contains_key(k) ==> after.contains_key(k));
        assert forall|i: int| 0 <= i < entries.len() implies foreign_op(
            after,
            repo,
            #[trigger] entries[i],
        ) is None by {
            if i < init.len() {
                assert(init[i] == entries[i]);
                assert(foreign_op(before, repo, init[i]) is None);
            }
        }
    }
}

/// Where no descriptor is to be recorded, an import changes nothing.
proof fn lemma_nothing_to_import(
    tags: Map<(Text, Text), (Text, Text)>,
    media_types: Map<(Text, Text), Text>,
    repo: Text,
    entries: Seq<JsonModel>,
)
    requires
        forall|i: int|
            0 <= i < entries.len() ==> foreign_op(tags, repo, #[trigger] entries[i]) is None,
    ensures
        imported(tags, media_types, repo, entries) == (tags, media_types),
    decreases entries.len(),
{
    if entries.len() > 0 {
        let init = entries.drop_last();
        assert forall|i: int| 0 <= i < init.len() implies foreign_op(
            tags,
            repo,
            #[trigger] init[i],
        ) is None by {
            assert(init[i] == entries[i]);
        }
        lemma_nothing_to_import(tags, media_types, repo, init);
        assert(entries[entries.len() - 1] == entries.last());
    }
}

/// Importing an index a second time changes nothing, and a tag that was known
/// keeps what it points at.
pub proof fn second_import_changes_nothing(
    tags: Map<(Text, Text), (Text, Text)>,
    media_types: Map<(Text, Text), Text>,
    repo: Text,
    entries: Seq<JsonModel>,
)
    ensures
        ({
            let (t, m) = imported(tags, media_types, repo, entries);
            &&& imported(t, m, repo, entries) == (t, m)
            &&& forall|k: (Text, Text)| #[trigger]
                tags.contains_key(k) ==> t.contains_key(k) && t[k] == tags[k]
        }),
    decreases entries.len(),
{
    let (t, m) = imported(tags, media_types, repo, entries);
    lemma_imported(tags, media_types, repo, entries);
    lemma_nothing_to_import(t, m, repo, entries);
    if entries.len() > 0 {
        let init = entries.drop_last();
        second_import_changes_nothing(tags, media_types, repo, init);
        lemma_imported(tags, media_types, repo, init);
    }
}

/// The mutation that records a descriptor that `meta` does not know.
pub fn foreign_tag<M: MetadataStore>(meta: &M, repo: &str, descriptor: &Json) -> (r: Option<MetaOp>)
    requires
        meta.wf(),
    ensures
        r is Some <==> foreign_op(meta.tables().tags, repo@, descriptor.model()) is Some,
        r matches Some(op) ==> foreign_op(meta.tables().tags, repo@, descriptor.model()) == Some(
            op.model(),
        ),
{
    let tag = match descriptor_tag(descriptor) {
        Some(t) => t,
        None => {
            return None;
        },
    };
    let digest = match descriptor_digest(descriptor) {
        Some(d) => d,
        None => {
            return None;
        },
    };
    if Digest::parse(digest).is_err() || meta.resolve_tag(repo, tag).is_some() {
        return None;
    }
    let media_type = match descriptor.text_field("mediaType") {
        Some(t) => t,
        None => MEDIA_TYPE_IMAGE_MANIFEST,
    };
    let op = MetaOp::PutManifest {
        repo: repo.to_owned(),
        digest: digest.to_owned(),
        media_type: media_type.to_owned(),
        tag: Some(tag.to_owned()),
        references: Vec::new(),
        referrer: None,
    };
    assert(op.model()->references =~= Seq::<Text>::empty());
    Some(op)
}

/// Records the tagged descriptors of an index that `meta` does not know yet, so
/// that they count as live. The first descriptor of a tag wins.
pub fn import_foreign_tags<M: MetadataStore>(meta: &mut M, repo: &str, existing: &Json)
    requires
        old(meta).wf(),
    ensures
        final(meta).wf(),
        (final(meta).tables().tags, final(meta).tables().media_types) == imported(
            old(meta).tables().tags,
            old(meta).tables().media_types,
            repo@,
            manifests_in(existing.model()),
        ),
        final(meta).tables().referrers == old(meta).tables().referrers,
        final(meta).tables().checksums == old(meta).tables().checksums,
        same_backrefs(old(meta).tables().backrefs, final(meta).tables().backrefs),
{
    let ghost start = meta.tables();
    if let Some(v) = index_manifests(existing) {
        let ghost all = models(v@);
        let mut i: usize = 0;
        assert(all.take(0) =~= Seq::<JsonModel>::empty());
        while i < v.len()
            invariant
                all == models(v@),
                start == old(meta).tables(),
                i <= all.len(),
                meta.wf(),
                (meta.tables().tags, meta.tables().media_types) == imported(
                    start.tags,
                    start.media_types,
                    repo@,
                    all.take(i as int),
                ),
                meta.tables().referrers == start.referrers,
                meta.tables().checksums == start.checksums,
                same_backrefs(start.backrefs, meta.tables().backrefs),
            decreases all.len() - i,
        {
            proof {
                let next = all.take(i + 1);
                assert(next.drop_last() =~= all.take(i as int));
                assert(next.last() == v@[i as int].model());
            }
            let op = foreign_tag(&*meta, repo, &v[i]);
            if let Some(op) = op {
                proof {
                    meta.mutation_shows(op.model());
                }
                meta.apply(op);
            }
            i += 1;
        }
        assert(all.take(all.len() as int) =~= all);
    }
}

} // verus!
