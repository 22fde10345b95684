//! `index.json` as the backend reads and rewrites it: derived in memory while it
//! lags the metadata store, taken from disk otherwise.

use crate::digest::{digest_parts, Digest};
use crate::error::{IoFailure, StorageError};
use crate::fs_storage::dirty::marked;
use crate::fs_storage::lifecycle::{op_model, FsStorage};
use crate::json::{
    encoded, models, parse, parse_error, parse_failure, parsed, to_bytes, Json, JsonModel,
};
use crate::layout::index::{
    empty_index, entries_in, index_from_meta, index_model, media_of, no_manifests, on_disk,
    opt_model, sizes_wanted, subject_list, tag_list,
};
use crate::layout::{
    descriptor_digest, descriptor_tag, digest_of, entry_texts, index_manifests, manifests_in,
    same_manifest_set, subject_digest, subject_of, tag_of, MEDIA_TYPE_IMAGE_MANIFEST,
};
use crate::metadata::model::{Op, Tables};
use crate::metadata::query::{is_referrer_listing, is_tag_listing};
use crate::metadata::referrers::opt_string;
use crate::metadata::store::MetadataStore;
use crate::metadata::{MetaOp, Referrer};
use crate::page::texts;
use crate::table::Table;
use crate::text::{same, Text};
use vstd::prelude::*;

verus! {

broadcast use vstd::string::group_string_axioms;

/// What reading a file gave.
#[derive(Debug)]
pub enum FileRead {
    /// There is no such file.
    Missing,
    /// Reading failed otherwise.
    Failed(IoFailure),
    /// What the file holds.
    Bytes(Vec<u8>),
}

/// What stands on disk, as a document; nothing where there is no file, and
/// nothing where it is not readable as a document.
pub open spec fn readable(read: FileRead) -> Option<JsonModel> {
    match read {
        FileRead::Bytes(b) => parsed(b@),
        _ => None,
    }
}

/// The failure of an index that is no JSON text: what the parser says of it.
fn bad_index(bytes: &[u8]) -> (r: IoFailure)
    requires
        parsed(bytes@) is None,
    ensures
        !r.not_found,
        r.message@ == parse_error(bytes@),
{
    IoFailure { not_found: false, message: parse_failure(bytes).unwrap() }
}

/// The index on disk, where a file that cannot be read or parsed is an error:
/// what it lists is unknown, which is not the same as listing nothing.
pub fn read_existing(read: FileRead) -> (r: Result<Option<Json>, IoFailure>)
    ensures
        (match read {
            FileRead::Missing => r matches Ok(None),
            FileRead::Failed(e) => r == Err::<Option<Json>, IoFailure>(e),
            FileRead::Bytes(b) => match parsed(b@) {
                Some(m) => r matches Ok(Some(j)) && j.model() == m,
                None => r matches Err(e) && !e.not_found && e.message@ == parse_error(b@),
            },
        }),
{
    match read {
        FileRead::Missing => Ok(None),
        FileRead::Failed(e) => Err(e),
        FileRead::Bytes(b) => match parse(b.as_slice()) {
            Some(j) => Ok(Some(j)),
            None => Err(bad_index(b.as_slice())),
        },
    }
}

/// What a read of the index gave.
pub enum IndexView {
    /// The index as it stands on disk.
    OnDisk(Json),
    /// The file lags: the index is to be derived over what is on disk, once the
    /// sizes of some manifests are found.
    Derived { existing: Option<Json>, wanted: Vec<String> },
}

/// The first descriptor with digest `d`.
pub open spec fn first_with_digest(entries: Seq<JsonModel>, d: Text) -> Option<JsonModel>
    decreases entries.len(),
{
    if entries.len() == 0 {
        None
    } else {
        match first_with_digest(entries.drop_last(), d) {
            Some(e) => Some(e),
            None => if digest_of(entries.last()) == Some(d) {
                Some(entries.last())
            } else {
                None
            },
        }
    }
}

/// The first descriptor that names `tag`.
pub open spec fn first_with_tag(entries: Seq<JsonModel>, tag: Text) -> Option<JsonModel>
    decreases entries.len(),
{
    if entries.len() == 0 {
        None
    } else {
        match first_with_tag(entries.drop_last(), tag) {
            Some(e) => Some(e),
            None => if tag_of(entries.last()) == Some(tag) {
                Some(entries.last())
            } else {
                None
            },
        }
    }
}

/// What is first among some descriptors is first among more of them.
pub proof fn lemma_first_stays(entries: Seq<JsonModel>, n: int, x: Text)
    requires
        0 <= n <= entries.len(),
    ensures
        first_with_digest(entries.take(n), x) is Some ==> first_with_digest(entries, x)
            == first_with_digest(entries.take(n), x),
        first_with_tag(entries.take(n), x) is Some ==> first_with_tag(entries, x)
            == first_with_tag(entries.take(n), x),
    decreases entries.len() - n,
{
    if n < entries.len() {
        assert(entries.take(n + 1).drop_last() =~= entries.take(n));
        lemma_first_stays(entries, n + 1, x);
    } else {
        assert(entries.take(n) =~= entries);
    }
}

/// The media type that an index gives a manifest.
pub open spec fn index_media_type(index: JsonModel, digest: Text) -> Option<Text> {
    match first_with_digest(manifests_in(index), digest) {
        Some(e) => e.text_field("mediaType"@),
        None => None,
    }
}

/// The media type that an index gives a manifest; nothing if the manifest is not
/// listed.
pub fn index_media_type_for_digest(index: &Json, digest: &str) -> (r: Option<String>)
    ensures
        opt_string(r) == index_media_type(index.model(), digest@),
{
    let list = match index_manifests(index) {
        Some(l) => l,
        None => {
            return None;
        },
    };
    let ghost all = models(list@);
    let mut i: usize = 0;
    assert(all.take(0).len() == 0);
    while i < list.len()
        invariant
            i <= list@.len(),
            all == models(list@),
            all == manifests_in(index.model()),
            first_with_digest(all.take(i as int), digest@) is None,
        decreases list@.len() - i,
    {
        proof {
            assert(all.take(i + 1).drop_last() =~= all.take(i as int));
            assert(all.take(i + 1).last() == list@[i as int].model());
            lemma_first_stays(all, i + 1, digest@);
        }
        let hit = match descriptor_digest(&list[i]) {
            Some(d) => same(d, digest),
            None => false,
        };
        if hit {
            return match list[i].text_field("mediaType") {
                Some(m) => Some(m.to_owned()),
                None => None,
            };
        }
        i += 1;
    }
    assert(all.take(list@.len() as int) =~= all);
    None
}

/// What an index gives a tag: the digest, which has to be well formed, and the
/// media type, which has a default.
pub open spec fn index_tag(index: JsonModel, tag: Text) -> Option<(Text, Text)> {
    match first_with_tag(manifests_in(index), tag) {
        Some(e) => match digest_of(e) {
            Some(d) => Some(
                (
                    d,
                    match e.text_field("mediaType"@) {
                        Some(m) => m,
                        None => MEDIA_TYPE_IMAGE_MANIFEST@,
                    },
                ),
            ),
            None => None,
        },
        None => None,
    }
}

/// Resolves a tag by the first descriptor of an index that names it.
pub fn index_resolve_tag(index: &Json, tag: &str) -> (r: Result<(Digest, String), StorageError>)
    ensures
        (match index_tag(index.model(), tag@) {
            Some(t) => match digest_parts(t.0) {
                Some(d) => r matches Ok(v) && v.0@ == d && v.1@ == t.1,
                None => r matches Err(StorageError::BadDigest(s)) && s@ == t.0,
            },
            None => r matches Err(StorageError::NotFound),
        }),
{
    let list = match index_manifests(index) {
        Some(l) => l,
        None => {
            return Err(StorageError::NotFound);
        },
    };
    let ghost all = models(list@);
    let mut i: usize = 0;
    assert(all.take(0).len() == 0);
    while i < list.len()
        invariant
            i <= list@.len(),
            all == models(list@),
            all == manifests_in(index.model()),
            first_with_tag(all.take(i as int), tag@) is None,
        decreases list@.len() - i,
    {
        proof {
            assert(all.take(i + 1).drop_last() =~= all.take(i as int));
            assert(all.take(i + 1).last() == list@[i as int].model());
            lemma_first_stays(all, i + 1, tag@);
        }
        let hit = match descriptor_tag(&list[i]) {
            Some(t) => same(t, tag),
            None => false,
        };
        if hit {
            let text = match descriptor_digest(&list[i]) {
                Some(d) => d,
                None => {
                    return Err(StorageError::NotFound);
                },
            };
            let digest = match Digest::parse(text) {
                Ok(d) => d,
                Err(e) => {
                    return Err(e);
                },
            };
            let media_type = match list[i].text_field("mediaType") {
                Some(m) => m.to_owned(),
                None => MEDIA_TYPE_IMAGE_MANIFEST.to_owned(),
            };
            return Ok((digest, media_type));
        }
        i += 1;
    }
    assert(all.take(list@.len() as int) =~= all);
    Err(StorageError::NotFound)
}

/// The referrer that a descriptor links, unless it is on record.
pub open spec fn upgrade_op(t: Tables, repo: Text, e: JsonModel) -> Option<Op> {
    match (subject_of(e), digest_of(e)) {
        (Some(subject), Some(referrer)) => if t.referrers.contains_key(
            (repo, subject, referrer),
        ) {
            None
        } else {
            Some(Op::PutReferrer { repo, subject, referrer, descriptor: encoded(e) })
        },
        _ => None,
    }
}

/// `index` is what the metadata store gives for a repository, over what is on
/// disk.
pub open spec fn is_current_index(
    index: JsonModel,
    t: Tables,
    repo: Text,
    existing: Option<JsonModel>,
    sizes: Map<Text, u64>,
) -> bool {
    exists|listing: Vec<(String, Vec<Referrer>)>, tags: Vec<(String, String, String)>|
        #![trigger subject_list(listing@), tag_list(tags@)]
        is_referrer_listing(listing@, t.referrers, repo) && is_tag_listing(tags@, t.tags, repo)
            && index == index_model(
            media_of(t.media_types, repo),
            subject_list(listing@),
            tag_list(tags@),
            existing,
            sizes,
        )
}

/// The manifests whose size is not on disk.
pub open spec fn lacks_size(t: Tables, repo: Text, existing: Option<JsonModel>, d: Text) -> bool {
    t.media_types.contains_key((repo, d)) && !on_disk(entries_in(existing), d).contains_key(
        "size"@,
    )
}

impl<M: MetadataStore> FsStorage<M> {
    /// Reads a repository's index: while the file lags it is to be derived, and
    /// otherwise it is what is on disk; without a file it is the empty index.
    pub fn read_index(&self, repo: &str, read: FileRead) -> (r: Result<IndexView, StorageError>)
        requires
            self.wf(),
        ensures
            (match read {
                FileRead::Failed(e) => r == Err::<IndexView, StorageError>(StorageError::Io(e)),
                _ => if self.index_dirty@.contains_key(repo@) {
                    r matches Ok(IndexView::Derived { existing, wanted }) && opt_model(existing)
                        == readable(read) && (forall|d: Text| #[trigger]
                        texts(wanted@).contains(d) <==> lacks_size(
                            self.meta.tables(),
                            repo@,
                            readable(read),
                            d,
                        ))
                } else {
                    match read {
                        FileRead::Bytes(b) => match parsed(b@) {
                            Some(m) => r matches Ok(IndexView::OnDisk(j)) && j.model() == m,
                            None => r matches Err(StorageError::Io(e)) && !e.not_found
                                && e.message@ == parse_error(b@),
                        },
                        _ => r matches Ok(IndexView::OnDisk(j)) && j.model() == no_manifests(),
                    }
                },
            }),
    {
        if self.index_dirty.contains(repo) {
            let existing = match read {
                FileRead::Bytes(b) => parse(b.as_slice()),
                FileRead::Missing => None,
                FileRead::Failed(e) => {
                    return Err(StorageError::Io(e));
                },
            };
            let wanted = sizes_wanted(&self.meta, repo, existing.as_ref());
            return Ok(IndexView::Derived { existing, wanted });
        }
        match read {
            FileRead::Bytes(b) => match parse(b.as_slice()) {
                Some(j) => Ok(IndexView::OnDisk(j)),
                None => Err(StorageError::Io(bad_index(b.as_slice()))),
            },
            FileRead::Missing => Ok(IndexView::OnDisk(empty_index())),
            FileRead::Failed(e) => Err(StorageError::Io(e)),
        }
    }

    /// Derives a repository's index over what is on disk, with the sizes that
    /// were found.
    pub fn derive_index(&self, repo: &str, existing: Option<Json>, sizes: &Table<String, u64>) -> (r:
        Json)
        requires
            self.wf(),
            sizes.wf(),
        ensures
            is_current_index(
                r.model(),
                self.meta.tables(),
                repo@,
                opt_model(existing),
                sizes.map(),
            ),
    {
        index_from_meta(&self.meta, repo, existing, sizes)
    }

    /// Startup reconciliation of one repository: its index on disk is rewritten
    /// if it does not list what the metadata store gives.
    pub fn reconcile_index(&mut self, repo: &str, existing: &Json, rebuilt: &Json)
        requires
            old(self).wf(),
        ensures
            final(self).wf(),
            final(self).index_dirty@ == (if entry_texts(existing.model()).to_multiset()
                == entry_texts(rebuilt.model()).to_multiset() {
                old(self).index_dirty@
            } else {
                marked(old(self).index_dirty@, repo@)
            }),
            final(self).meta == old(self).meta,
            final(self).presence == old(self).presence,
            final(self).cache == old(self).cache,
            final(self).gc == old(self).gc,
            final(self).dedupe == old(self).dedupe,
    {
        if !same_manifest_set(existing, rebuilt) {
            self.index_dirty.mark(repo);
        }
    }

    /// What registers the referrer that a descriptor of an index links, unless
    /// it is on record.
    pub fn referrer_upgrade(&self, repo: &str, entry: &Json) -> (r: Option<MetaOp>)
        requires
            self.wf(),
        ensures
            op_model(r) == upgrade_op(self.meta.tables(), repo@, entry.model()),
    {
        let subject = match subject_digest(entry) {
            Some(s) => s,
            None => {
                return None;
            },
        };
        let referrer = match descriptor_digest(entry) {
            Some(d) => d,
            None => {
                return None;
            },
        };
        if self.meta.has_referrer(repo, subject, referrer) {
            return None;
        }
        Some(
            MetaOp::PutReferrer {
                repo: repo.to_owned(),
                subject: subject.to_owned(),
                referrer: referrer.to_owned(),
                descriptor: to_bytes(entry),
            },
        )
    }
}

} // verus!
