//! Listing tags and referrers: by what is on record, and without a record by the
//! layout.

use crate::chars::{chars_of, text_between};
use crate::digest::{digest_parts, digest_text, Digest};
use crate::fs_storage::index::{index_resolve_tag, index_tag};
use crate::fs_storage::lifecycle::FsStorage;
use crate::json::{models, parse, parsed, Json, JsonModel};
use crate::layout::{
    candidates, descriptor_digest, descriptor_tag, digest_of, index_manifests, is_layout_page,
    manifests_in, named_digest, page_layout_referrers, subject_digest, subject_of, tag_of,
};
use crate::metadata::model::Tables;
use crate::metadata::query::referrers_of;
use crate::metadata::referrers::is_referrer_page;
use crate::metadata::store::MetadataStore;
use crate::metadata::Referrer;
use crate::page::{is_page, opt_text, page_of, seconds, texts, Page};
use crate::table::Table;
use crate::text::{concat3, same, Text};
use vstd::prelude::*;

verus! {

broadcast use vstd::string::group_string_axioms;

/// The tags that the descriptors of an index name.
pub open spec fn named_tags(entries: Seq<JsonModel>) -> Set<Text> {
    Set::new(
        |t: Text|
            exists|i: int|
                #![trigger entries[i]]
                0 <= i < entries.len() && tag_of(entries[i]) == Some(t),
    )
}

/// One page of the tags that an index names.
pub fn tags_in_index(index: &Json, last: Option<&str>, limit: usize) -> (r: Page<String>)
    ensures
        is_page(
            texts(r.items@),
            r.more,
            named_tags(manifests_in(index.model())),
            opt_text(last),
            limit as nat,
        ),
{
    let none: Vec<Json> = Vec::new();
    let list: &Vec<Json> = match index_manifests(index) {
        Some(l) => l,
        None => &none,
    };
    let ghost all = manifests_in(index.model());
    assert(models(list@) =~= all);
    let mut tags: Table<String, ()> = Table::new();
    let mut i: usize = 0;
    assert(tags.map().dom() =~= named_tags(all.take(0)));
    while i < list.len()
        invariant
            i <= list@.len(),
            all == models(list@),
            tags.wf(),
            tags.map().dom() == named_tags(all.take(i as int)),
        decreases list@.len() - i,
    {
        let ghost before = tags.map().dom();
        let ghost now = all.take(i + 1);
        proof {
            assert(now[i as int] == list@[i as int].model());
            assert forall|t: Text| #[trigger] named_tags(now).contains(t) <==> named_tags(
                all.take(i as int),
            ).contains(t) || tag_of(now[i as int]) == Some(t) by {
                if named_tags(now).contains(t) {
                    let j = choose|j: int|
                        #![trigger now[j]]
                        0 <= j < now.len() && tag_of(now[j]) == Some(t);
                    if j < i {
                        assert(all.take(i as int)[j] == now[j]);
                    }
                }
                if named_tags(all.take(i as int)).contains(t) {
                    let s = all.take(i as int);
                    let j = choose|j: int|
                        #![trigger s[j]]
                        0 <= j < s.len() && tag_of(s[j]) == Some(t);
                    assert(now[j] == s[j]);
                }
            }
        }
        if let Some(t) = descriptor_tag(&list[i]) {
            tags.insert(t.to_owned(), ());
        }
        i += 1;
        assert(tags.map().dom() =~= named_tags(now));
    }
    assert(all.take(list@.len() as int) =~= all);
    page_of(&tags, last, limit)
}

/// The descriptors that link `target` as their subject, under their digests.
pub open spec fn linking(entries: Seq<JsonModel>, target: Text) -> Seq<(Text, JsonModel)>
    decreases entries.len(),
{
    if entries.len() == 0 {
        Seq::empty()
    } else {
        let init = linking(entries.drop_last(), target);
        let e = entries.last();
        if subject_of(e) == Some(target) && digest_of(e) is Some {
            init.push((digest_of(e)->0, e))
        } else {
            init
        }
    }
}

/// The descriptors with a well-formed digest, under that digest.
pub open spec fn described(entries: Seq<JsonModel>) -> Seq<(Text, JsonModel)>
    decreases entries.len(),
{
    if entries.len() == 0 {
        Seq::empty()
    } else {
        let init = described(entries.drop_last());
        match named_digest(entries.last()) {
            Some(d) => init.push((digest_text(d), entries.last())),
            None => init,
        }
    }
}

/// One page of the referrers that an index links to `target`; nothing where it
/// links none.
pub fn referrers_in_index(
    index: &Json,
    target: &str,
    artifact_type: Option<&str>,
    last: Option<&str>,
    limit: usize,
) -> (r: Option<Page<Referrer>>)
    ensures
        r is None <==> linking(manifests_in(index.model()), target@).len() == 0,
        r matches Some(p) ==> is_layout_page(
            p.items@,
            p.more,
            linking(manifests_in(index.model()), target@),
            opt_text(artifact_type),
            opt_text(last),
            limit as nat,
        ),
{
    let list = match index_manifests(index) {
        Some(l) => l,
        None => {
            return None;
        },
    };
    let ghost all = models(list@);
    let mut found: Vec<(String, &Json)> = Vec::new();
    let mut i: usize = 0;
    assert(candidates(found@) =~= linking(all.take(0), target@));
    while i < list.len()
        invariant
            i <= list@.len(),
            all == models(list@),
            candidates(found@) == linking(all.take(i as int), target@),
        decreases list@.len() - i,
    {
        let ghost before = found@;
        proof {
            assert(all.take(i + 1).drop_last() =~= all.take(i as int));
            assert(all.take(i + 1).last() == list@[i as int].model());
        }
        let links = match subject_digest(&list[i]) {
            Some(s) => same(s, target),
            None => false,
        };
        if links {
            if let Some(d) = descriptor_digest(&list[i]) {
                found.push((d.to_owned(), &list[i]));
                assert(candidates(found@) =~= candidates(before).push(
                    (d@, list@[i as int].model()),
                ));
            }
        }
        i += 1;
    }
    assert(all.take(list@.len() as int) =~= all);
    assert(candidates(found@).len() == found@.len());
    if found.len() == 0 {
        return None;
    }
    Some(page_layout_referrers(&found, artifact_type, last, limit))
}

/// The candidates that the bytes of a referrers index list.
pub open spec fn listed_referrers(bytes: Seq<u8>) -> Seq<(Text, JsonModel)> {
    match parsed(bytes) {
        Some(m) => described(manifests_in(m)),
        None => Seq::empty(),
    }
}

/// One page of the referrers that a referrers index lists. A descriptor without a
/// well-formed digest is skipped, and bytes that are no index list nothing.
pub fn referrers_in_manifest(
    bytes: &[u8],
    artifact_type: Option<&str>,
    last: Option<&str>,
    limit: usize,
) -> (r: Page<Referrer>)
    ensures
        is_layout_page(
            r.items@,
            r.more,
            listed_referrers(bytes@),
            opt_text(artifact_type),
            opt_text(last),
            limit as nat,
        ),
{
    let none: Vec<Json> = Vec::new();
    let document = match parse(bytes) {
        Some(d) => d,
        None => Json::Null,
    };
    let list: &Vec<Json> = match index_manifests(&document) {
        Some(l) => l,
        None => &none,
    };
    let ghost all = models(list@);
    assert(described(all) == listed_referrers(bytes@)) by {
        if parsed(bytes@) is None {
            assert(document.model() == JsonModel::Null);
            assert(all =~= Seq::<JsonModel>::empty());
        } else {
            assert(all =~= manifests_in(document.model()));
        }
    }
    let mut found: Vec<(String, &Json)> = Vec::new();
    let mut i: usize = 0;
    assert(candidates(found@) =~= described(all.take(0)));
    while i < list.len()
        invariant
            i <= list@.len(),
            all == models(list@),
            candidates(found@) == described(all.take(i as int)),
        decreases list@.len() - i,
    {
        let ghost before = found@;
        proof {
            assert(all.take(i + 1).drop_last() =~= all.take(i as int));
            assert(all.take(i + 1).last() == list@[i as int].model());
        }
        if let Some(text) = descriptor_digest(&list[i]) {
            if let Ok(d) = Digest::parse(text) {
                let name = d.as_string();
                let ghost key = name@;
                found.push((name, &list[i]));
                assert(candidates(found@) =~= candidates(before).push(
                    (key, list@[i as int].model()),
                ));
            }
        }
        i += 1;
    }
    assert(all.take(list@.len() as int) =~= all);
    page_layout_referrers(&found, artifact_type, last, limit)
}

/// The tag under which a client lists a subject's referrers by itself: the
/// algorithm, a dash, and the first 64 digits.
pub open spec fn referrers_tag_text(subject: (Text, Text)) -> Text {
    subject.0 + "-"@ + subject.1.take(64)
}

/// The tag under which a client lists a subject's referrers by itself.
pub fn referrers_tag(subject: &Digest) -> (r: String)
    ensures
        r@ == referrers_tag_text(subject@),
{
    let digits = chars_of(subject.hex());
    let algorithm = subject.algorithm();
    let short = text_between(&digits, 0, 64);
    assert(short@ =~= subject@.1.take(64));
    concat3(algorithm, "-", short.as_str())
}

/// What a subject's referrers are listed by when none is on record.
pub enum ReferrerSource {
    /// The descriptors of the index that link the subject.
    Linked(Seq<(Text, JsonModel)>),
    /// The manifest under the referrers tag, by its digest.
    Tagged((Text, Text)),
    Nothing,
}

/// The digest that a tag points at: by the record, and otherwise by the index.
pub open spec fn tag_points_at(t: Tables, repo: Text, tag: Text, index: JsonModel) -> Option<Text> {
    if t.tags.contains_key((repo, tag)) {
        Some(t.tags[(repo, tag)].0)
    } else {
        match index_tag(index, tag) {
            Some(v) => Some(v.0),
            None => None,
        }
    }
}

/// What the layout lists a subject's referrers by.
pub open spec fn referrer_source(
    t: Tables,
    repo: Text,
    subject: (Text, Text),
    index: JsonModel,
) -> ReferrerSource {
    let linked = linking(manifests_in(index), digest_text(subject));
    if linked.len() > 0 {
        ReferrerSource::Linked(linked)
    } else {
        match tag_points_at(t, repo, referrers_tag_text(subject), index) {
            Some(d) => match digest_parts(d) {
                Some(parts) => ReferrerSource::Tagged(parts),
                None => ReferrerSource::Nothing,
            },
            None => ReferrerSource::Nothing,
        }
    }
}

/// What listing a subject's referrers comes to.
#[derive(Debug)]
pub enum ReferrersStep {
    /// None is on record, and the index was not given.
    AskIndex,
    /// The page.
    Listed(Page<Referrer>),
    /// This manifest lists them.
    Read(Digest),
}

/// One page of the referrers that the manifest under the referrers tag lists;
/// none if it could not be read.
pub fn referrers_read(
    bytes: Option<&[u8]>,
    artifact_type: Option<&str>,
    last: Option<&str>,
    limit: usize,
) -> (r: Page<Referrer>)
    ensures
        (match bytes {
            Some(b) => is_layout_page(
                r.items@,
                r.more,
                listed_referrers(b@),
                opt_text(artifact_type),
                opt_text(last),
                limit as nat,
            ),
            None => r.items@.len() == 0 && !r.more,
        }),
{
    match bytes {
        Some(b) => referrers_in_manifest(b, artifact_type, last, limit),
        None => Page { items: Vec::new(), more: false },
    }
}

impl<M: MetadataStore> FsStorage<M> {
    /// One page of a repository's tags: those on record, and without any those
    /// that the index names. Nothing tells that the index is needed.
    pub fn list_tags(
        &self,
        repo: &str,
        index: Option<&Json>,
        last: Option<&str>,
        limit: usize,
    ) -> (r: Option<Page<String>>)
        requires
            self.wf(),
        ensures
            ({
                let recorded = seconds(self.meta.tables().tags.dom(), repo@);
                if recorded =~= Set::<Text>::empty() {
                    match index {
                        Some(i) => r matches Some(p) && is_page(
                            texts(p.items@),
                            p.more,
                            named_tags(manifests_in(i.model())),
                            opt_text(last),
                            limit as nat,
                        ),
                        None => r is None,
                    }
                } else {
                    r matches Some(p) && is_page(
                        texts(p.items@),
                        p.more,
                        recorded,
                        opt_text(last),
                        limit as nat,
                    )
                }
            }),
    {
        match self.meta.tags_page(repo, last, limit) {
            Some(page) => Some(page),
            None => match index {
                Some(i) => Some(tags_in_index(i, last, limit)),
                None => None,
            },
        }
    }

    /// One page of a subject's referrers: those on record; without any those that
    /// the index links; without any those that the manifest under the referrers
    /// tag lists, which is then to be read.
    pub fn list_referrers(
        &self,
        repo: &str,
        subject: &Digest,
        index: Option<&Json>,
        artifact_type: Option<&str>,
        last: Option<&str>,
        limit: usize,
    ) -> (r: ReferrersStep)
        requires
            self.wf(),
        ensures
            ({
                let t = self.meta.tables();
                let recorded = referrers_of(t.referrers, repo@, digest_text(subject@));
                if !(recorded =~= Map::<Text, Seq<u8>>::empty()) {
                    r matches ReferrersStep::Listed(p) && is_referrer_page(
                        p.items@,
                        p.more,
                        recorded,
                        opt_text(artifact_type),
                        opt_text(last),
                        limit as nat,
                    )
                } else {
                    match index {
                        None => r is AskIndex,
                        Some(i) => match referrer_source(t, repo@, subject@, i.model()) {
                            ReferrerSource::Linked(linked) => r matches ReferrersStep::Listed(p)
                                && is_layout_page(
                                p.items@,
                                p.more,
                                linked,
                                opt_text(artifact_type),
                                opt_text(last),
                                limit as nat,
                            ),
                            ReferrerSource::Tagged(d) => r matches ReferrersStep::Read(found)
                                && found@ == d,
                            ReferrerSource::Nothing => r matches ReferrersStep::Listed(p)
                                && p.items@.len() == 0 && !p.more,
                        },
                    }
                }
            }),
    {
        let target = subject.as_string();
        if let Some(page) = self.meta.referrers_page(
            repo,
            target.as_str(),
            artifact_type,
            last,
            limit,
        ) {
            return ReferrersStep::Listed(page);
        }
        let index = match index {
            Some(i) => i,
            None => {
                return ReferrersStep::AskIndex;
            },
        };
        if let Some(page) = referrers_in_index(index, target.as_str(), artifact_type, last, limit) {
            return ReferrersStep::Listed(page);
        }
        let tag = referrers_tag(subject);
        let listed = match self.recorded_tag(repo, tag.as_str()) {
            Some(d) => d,
            None => match index_resolve_tag(index, tag.as_str()) {
                Ok((d, _)) => Some(d),
                Err(_) => None,
            },
        };
        match listed {
            Some(d) => ReferrersStep::Read(d),
            None => ReferrersStep::Listed(Page { items: Vec::new(), more: false }),
        }
    }

    /// The digest that a recorded tag points at, if that is well formed; nothing
    /// on record is told apart.
    pub fn recorded_tag(&self, repo: &str, tag: &str) -> (r: Option<Option<Digest>>)
        requires
            self.wf(),
        ensures
            r is Some <==> self.meta.tables().tags.contains_key((repo@, tag@)),
            r matches Some(d) ==> (match d {
                Some(d) => digest_parts(self.meta.tables().tags[(repo@, tag@)].0) == Some(d@),
                None => digest_parts(self.meta.tables().tags[(repo@, tag@)].0) is None,
            }),
    {
        match self.meta.resolve_tag(repo, tag) {
            Some((text, _)) => match Digest::parse(text.as_str()) {
                Ok(d) => Some(Some(d)),
                Err(_) => Some(None),
            },
            None => None,
        }
    }
}

} // verus!
