//! Manifests: storing, resolving and deleting them.

use crate::cache::{blob_key, content_at, kept_with, used};
use crate::chars::chars_of;
use crate::digest::{digest_parts, digest_text, digest_under, Digest};
use crate::error::{IoFailure, StorageError};
use crate::fs_storage::blobs::{check_content, checksum_of, BlobSource};
use crate::fs_storage::index::{
    index_media_type, index_media_type_for_digest, index_resolve_tag, index_tag,
};
use crate::fs_storage::lifecycle::{checksum_op, gc_entered, located, op_model, FsStorage};
use crate::fs_storage::paths::{
    all_safe, blob_dir, blob_dir_rel, blob_path, blob_rel, first_unsafe, is_safe, repo_path,
    SafeComponent,
};
use crate::gc::{cleared, stamped, with_candidates, without_candidates};
use crate::json::{
    encoded, object_error, object_failure, parse, parsed, to_bytes, Json, JsonModel, Object,
};
use crate::layout::index::subject_field;
use crate::layout::{digest_views, manifest_references, references_of, MEDIA_TYPE_IMAGE_MANIFEST};
use crate::lists::lemma_pushed;
use crate::metadata::model::{backrefs_at, Op, Tables};
use crate::metadata::store::MetadataStore;
use crate::metadata::MetaOp;
use crate::page::{opt_text, texts};
use crate::text::Text;
use vstd::prelude::*;

verus! {

broadcast use vstd::string::group_string_axioms;

/// The descriptor that is recorded for a referrer: the one it was given, with the
/// link to its subject.
pub open spec fn linked_descriptor(subject: (Text, Text), descriptor: Seq<u8>) -> Option<Seq<u8>> {
    match parsed(descriptor) {
        Some(JsonModel::Object(o)) => Some(
            encoded(
                JsonModel::Object(o.insert("subject"@, subject_field(digest_text(subject)))),
            ),
        ),
        _ => None,
    }
}

/// Links a referrer's descriptor to its subject. A descriptor that is no object
/// is refused.
pub fn referrer_descriptor(subject: &Digest, descriptor: &[u8]) -> (r: Result<
    Vec<u8>,
    StorageError,
>)
    ensures
        (match linked_descriptor(subject@, descriptor@) {
            Some(b) => r matches Ok(v) && v@ == b,
            None => r matches Err(StorageError::Io(e)) && !e.not_found && e.message@
                == object_error(descriptor@),
        }),
{
    match parse(descriptor) {
        Some(Json::Object(merged)) => {
            let mut merged = merged;
            let mut link = Object::new();
            link.insert("digest", Json::Text(subject.as_string()));
            merged.insert("subject", Json::Object(link));
            Ok(to_bytes(&Json::Object(merged)))
        },
        _ => {
            let message = object_failure(descriptor).unwrap();
            Err(StorageError::Io(IoFailure { not_found: false, message }))
        },
    }
}

/// What a manifest links to.
#[derive(Debug)]
pub struct ManifestLinks {
    /// The subject, and the descriptor that the manifest is listed under as its
    /// referrer.
    pub subject: Option<(Digest, Vec<u8>)>,
    /// The blobs that have to be stored.
    pub required: Vec<Digest>,
    /// Everything that the manifest keeps alive.
    pub references: Vec<Digest>,
}

/// How a manifest is stored.
#[derive(Debug)]
pub struct ManifestPlan {
    /// The directory of its blob.
    pub dir: Vec<String>,
    /// The name of its blob.
    pub leaf: String,
    /// The paths that have to be regular files.
    pub required: Vec<Vec<String>>,
    /// What is recorded once it is stored.
    pub op: MetaOp,
}

/// How digests are written.
pub open spec fn digest_texts(s: Seq<Digest>) -> Seq<Text> {
    Seq::new(s.len(), |i: int| digest_text(s[i]@))
}

/// The paths of some blobs.
pub open spec fn blob_paths(repo: Text, s: Seq<Digest>) -> Seq<Seq<Text>> {
    Seq::new(s.len(), |i: int| blob_path(repo, s[i]@))
}

/// Writes digests out.
fn written_digests(s: &Vec<Digest>) -> (r: Vec<String>)
    ensures
        texts(r@) == digest_texts(s@),
{
    let mut out: Vec<String> = Vec::new();
    let mut i: usize = 0;
    while i < s.len()
        invariant
            i <= s@.len(),
            out@.len() == i,
            forall|j: int| #![trigger out@[j]] 0 <= j < i ==> out@[j]@ == digest_text(s@[j]@),
        decreases s@.len() - i,
    {
        out.push(s[i].as_string());
        i += 1;
    }
    assert(texts(out@) =~= digest_texts(s@));
    out
}

/// The model of the paths in a list.
pub open spec fn path_list(s: Seq<Vec<String>>) -> Seq<Seq<Text>> {
    Seq::new(s.len(), |i: int| texts(s[i]@))
}

/// The paths of some blobs of one repository, every component validated.
fn required_paths(repo: &str, s: &Vec<Digest>) -> (r: Result<Vec<Vec<String>>, StorageError>)
    requires
        first_unsafe(repo_path(repo@)) is None,
    ensures
        r matches Ok(v) && path_list(v@) == blob_paths(repo@, s@),
{
    let mut out: Vec<Vec<String>> = Vec::new();
    let mut i: usize = 0;
    while i < s.len()
        invariant
            first_unsafe(repo_path(repo@)) is None,
            i <= s@.len(),
            out@.len() == i,
            forall|j: int|
                #![trigger out@[j]]
                0 <= j < i ==> texts(out@[j]@) == blob_path(repo@, s@[j]@),
        decreases s@.len() - i,
    {
        match blob_rel(repo, &s[i]) {
            Ok(p) => {
                out.push(p);
            },
            Err(e) => {
                return Err(e);
            },
        }
        i += 1;
    }
    assert(path_list(out@) =~= blob_paths(repo@, s@));
    Ok(out)
}

/// The mutation that records a manifest.
pub open spec fn manifest_op(
    repo: Text,
    tag: Option<Text>,
    digest: (Text, Text),
    media_type: Text,
    links: ManifestLinks,
) -> Op {
    Op::PutManifest {
        repo,
        digest: digest_text(digest),
        media_type,
        tag,
        references: digest_texts(links.references@),
        referrer: match links.subject {
            Some(s) => Some((digest_text(s.0@), linked_descriptor(s.0@, s.1@)->0)),
            None => None,
        },
    }
}

/// Plans how a manifest is stored. Everything that can be refused is refused
/// before anything is written: the tag, the referrer's descriptor, the content,
/// and the paths, in this order.
pub fn plan_manifest(
    repo: &str,
    tag: Option<&str>,
    digest: &Digest,
    media_type: &str,
    data: &[u8],
    links: &ManifestLinks,
) -> (r: Result<ManifestPlan, StorageError>)
    ensures
        if tag is Some && !is_safe((tag->0)@) {
            r matches Err(StorageError::BadPath(p)) && p@ == (tag->0)@
        } else if links.subject is Some && linked_descriptor(
            (links.subject->0).0@,
            (links.subject->0).1@,
        ) is None {
            r matches Err(StorageError::Io(e)) && !e.not_found && e.message@ == object_error(
                (links.subject->0).1@,
            )
        } else if digest_under(data@, digest@.0) != digest@ {
            r matches Err(StorageError::DigestMismatch { expected, actual }) && expected@
                == digest_text(digest@) && actual@ == digest_text(
                digest_under(data@, digest@.0),
            )
        } else if first_unsafe(repo_path(repo@)) is Some {
            r matches Err(StorageError::BadPath(p)) && first_unsafe(repo_path(repo@)) == Some(p@)
        } else {
            r matches Ok(plan) && texts(plan.dir@) == blob_dir(repo@, digest@.0) && plan.leaf@
                == digest@.1 && path_list(plan.required@) == blob_paths(repo@, links.required@)
                && plan.op.model() == manifest_op(
                repo@,
                opt_text(tag),
                digest@,
                media_type@,
                *links,
            )
        },
{
    if let Some(t) = tag {
        match SafeComponent::new(t) {
            Ok(_) => {},
            Err(e) => {
                return Err(e);
            },
        }
    }
    let referrer = match &links.subject {
        Some(s) => match referrer_descriptor(&s.0, s.1.as_slice()) {
            Ok(d) => Some((s.0.as_string(), d)),
            Err(e) => {
                return Err(e);
            },
        },
        None => None,
    };
    match check_content(data, digest) {
        Ok(()) => {},
        Err(e) => {
            return Err(e);
        },
    }
    let (dir, leaf) = match blob_dir_rel(repo, digest) {
        Ok(p) => p,
        Err(e) => {
            return Err(e);
        },
    };
    let required = match required_paths(repo, &links.required) {
        Ok(p) => p,
        Err(e) => {
            return Err(e);
        },
    };
    let op = MetaOp::PutManifest {
        repo: repo.to_owned(),
        digest: digest.as_string(),
        media_type: media_type.to_owned(),
        tag: match tag {
            Some(t) => Some(t.to_owned()),
            None => None,
        },
        references: written_digests(&links.references),
        referrer,
    };
    Ok(ManifestPlan { dir, leaf, required, op })
}

/// What came of writing a manifest's blob.
#[derive(Debug)]
pub enum ManifestLanded {
    /// It was refused before anything was written or charged.
    Rejected(StorageError),
    /// Writing it failed after `charged` bytes were admitted.
    Failed { charged: u64, error: StorageError },
    /// It is stored. `missing` is the first required blob that is no regular
    /// file, and `error` is why that could not be found out.
    Stored { missing: Option<usize>, error: Option<IoFailure> },
}

/// What looking for a required blob gave.
pub type Stat = Result<Option<(bool, u64)>, IoFailure>;

/// A regular file was found.
pub open spec fn is_regular(s: Stat) -> bool {
    s matches Ok(Some(f)) && f.0
}

/// The first of the required blobs that is not a regular file.
pub open spec fn first_irregular(stats: Seq<Stat>, i: int) -> bool {
    &&& 0 <= i < stats.len()
    &&& !is_regular(stats[i])
    &&& forall|j: int| #![trigger stats[j]] 0 <= j < i ==> is_regular(stats[j])
}

/// What the required blobs, looked for one after the other, say of a manifest
/// that was written.
pub fn recheck_required(stats: &Vec<Stat>) -> (r: ManifestLanded)
    ensures
        (forall|i: int| #![trigger stats@[i]] 0 <= i < stats@.len() ==> is_regular(stats@[i])) ==> (
        r matches ManifestLanded::Stored { missing, error } && missing is None && error is None),
        forall|i: int| #[trigger]
            first_irregular(stats@, i) ==> match stats@[i] {
                Ok(_) => r matches ManifestLanded::Stored { missing, error } && missing
                    == Some(i as usize) && error is None,
                Err(e) => r matches ManifestLanded::Stored { missing, error } && missing is None
                    && (error matches Some(f) && f.not_found == e.not_found && f.message@
                    == e.message@),
            },
{
    let mut i: usize = 0;
    while i < stats.len()
        invariant
            i <= stats@.len(),
            forall|j: int| #![trigger stats@[j]] 0 <= j < i ==> is_regular(stats@[j]),
        decreases stats@.len() - i,
    {
        let found = match &stats[i] {
            Ok(s) => match s {
                Some((regular, _)) => *regular,
                None => false,
            },
            Err(e) => {
                let failure = IoFailure { not_found: e.not_found, message: e.message.clone() };
                assert(first_irregular(stats@, i as int));
                assert forall|k: int| #[trigger] first_irregular(stats@, k) implies k == i by {
                    if k < i {
                        assert(is_regular(stats@[k]));
                    } else if k > i {
                        assert(is_regular(stats@[i as int]));
                    }
                }
                return ManifestLanded::Stored { missing: None, error: Some(failure) };
            },
        };
        if !found {
            assert(first_irregular(stats@, i as int));
            assert forall|k: int| #[trigger] first_irregular(stats@, k) implies k == i by {
                if k < i {
                    assert(is_regular(stats@[k]));
                } else if k > i {
                    assert(is_regular(stats@[i as int]));
                }
            }
            return ManifestLanded::Stored { missing: Some(i), error: None };
        }
        i += 1;
    }
    ManifestLanded::Stored { missing: None, error: None }
}

/// What follows the writing of a manifest's blob.
#[derive(Debug)]
pub enum ManifestStep {
    /// The push fails; `release` bytes go back to the quota.
    Fail { release: u64, error: StorageError },
    /// The manifest is to be recorded.
    Commit,
}

/// Where a reference leads.
#[derive(Debug)]
pub enum ManifestLookup {
    /// To a manifest on record.
    Known(Digest, String),
    /// Only the index on disk tells.
    AskIndex,
}

/// What a reference leads to.
pub enum Target {
    Manifest { digest: (Text, Text), media_type: Text },
    BadDigest(Text),
    Missing,
}

/// A digest text with a media type, as a target.
pub open spec fn target_of(digest: Text, media_type: Text) -> Target {
    match digest_parts(digest) {
        Some(d) => Target::Manifest { digest: d, media_type },
        None => Target::BadDigest(digest),
    }
}

/// What a reference leads to: by digest to that manifest, whose media type is the
/// recorded one, else the one the index on disk gives, else the default; by tag
/// to what is recorded, else to what the index on disk gives.
pub open spec fn target(t: Tables, repo: Text, reference: Text, index: JsonModel) -> Target {
    if reference.contains(':') {
        target_of(
            reference,
            if t.media_types.contains_key((repo, reference)) {
                t.media_types[(repo, reference)]
            } else {
                match index_media_type(index, reference) {
                    Some(m) => m,
                    None => MEDIA_TYPE_IMAGE_MANIFEST@,
                }
            },
        )
    } else if t.tags.contains_key((repo, reference)) {
        target_of(t.tags[(repo, reference)].0, t.tags[(repo, reference)].1)
    } else {
        match index_tag(index, reference) {
            Some(v) => target_of(v.0, v.1),
            None => Target::Missing,
        }
    }
}

/// `r` is what a target is answered with.
pub open spec fn answers(r: Result<(Digest, String), StorageError>, t: Target) -> bool {
    match t {
        Target::Manifest { digest, media_type } => r matches Ok(v) && v.0@ == digest && v.1@
            == media_type,
        Target::BadDigest(s) => r matches Err(StorageError::BadDigest(b)) && b@ == s,
        Target::Missing => r matches Err(StorageError::NotFound),
    }
}

/// Whether a text has the character.
fn has_char(s: &str, c: char) -> (r: bool)
    ensures
        r == s@.contains(c),
{
    let v = chars_of(s);
    let mut i: usize = 0;
    while i < v.len()
        invariant
            v@ == s@,
            i <= v@.len(),
            forall|j: int| #![trigger v@[j]] 0 <= j < i ==> v@[j] != c,
        decreases v@.len() - i,
    {
        if v[i] == c {
            assert(s@[i as int] == c);
            return true;
        }
        i += 1;
    }
    false
}

/// Resolves a reference that is not on record, by the index on disk.
pub fn find_in_index(reference: &str, index: &Json) -> (r: Result<(Digest, String), StorageError>)
    ensures
        forall|t: Tables, repo: Text|
            (if reference@.contains(':') {
                !t.media_types.contains_key((repo, reference@))
            } else {
                !t.tags.contains_key((repo, reference@))
            }) ==> answers(r, #[trigger] target(t, repo, reference@, index.model())),
{
    if has_char(reference, ':') {
        let digest = match Digest::parse(reference) {
            Ok(d) => d,
            Err(e) => {
                return Err(e);
            },
        };
        let media_type = match index_media_type_for_digest(index, reference) {
            Some(m) => m,
            None => MEDIA_TYPE_IMAGE_MANIFEST.to_owned(),
        };
        return Ok((digest, media_type));
    }
    index_resolve_tag(index, reference)
}

/// What a manifest's bytes reference, written out; nothing where they are no JSON
/// text.
pub open spec fn references_in(bytes: Seq<u8>) -> Seq<Text> {
    match parsed(bytes) {
        Some(m) => references_of(m).map_values(|d: (Text, Text)| digest_text(d)),
        None => Seq::empty(),
    }
}

/// What a manifest's bytes reference.
pub fn read_references(bytes: &[u8]) -> (r: Vec<String>)
    ensures
        texts(r@) == references_in(bytes@),
{
    match parse(bytes) {
        Some(m) => {
            let found = manifest_references(&m);
            let out = written_digests(&found);
            proof {
                assert(digest_texts(found@) =~= digest_views(found@).map_values(
                    |d: (Text, Text)| digest_text(d),
                ));
            }
            out
        },
        None => {
            let out: Vec<String> = Vec::new();
            assert(texts(out@) =~= Seq::<Text>::empty());
            out
        },
    }
}

/// The blobs of `refs` that nothing references any more and that may be stored.
pub open spec fn orphaned(
    t: Tables,
    held: spec_fn(Text) -> bool,
    repo: Text,
    refs: Seq<Text>,
) -> Set<(Text, Text)> {
    Set::new(
        |k: (Text, Text)|
            k.0 == repo && refs.contains(k.1) && backrefs_at(t.backrefs, k).len() == 0 && held(
                blob_key(k.0, k.1),
            ),
    )
}

/// The keys of some blobs of one repository.
pub open spec fn keys_in(repo: Text, s: Seq<Text>) -> Set<(Text, Text)> {
    Set::new(|k: (Text, Text)| k.0 == repo && s.contains(k.1))
}

impl<M: MetadataStore> FsStorage<M> {
    /// A manifest's blob was written, or not. A stored one enters the repository
    /// whatever the required blobs say; it is recorded only if all are there.
    /// The first mutation returned is to be recorded in any case.
    pub fn manifest_landed(
        &mut self,
        repo: &str,
        digest: &Digest,
        data: &[u8],
        required: &Vec<Digest>,
        landed: ManifestLanded,
        now: u64,
    ) -> (r: (Option<MetaOp>, ManifestStep))
        requires
            old(self).wf(),
            landed matches ManifestLanded::Stored { missing, error } ==> (missing matches Some(i)
                ==> i < required@.len()),
        ensures
            final(self).wf(),
            (match landed {
                ManifestLanded::Rejected(e) => r.0 is None && r.1 == (ManifestStep::Fail {
                    release: 0,
                    error: e,
                }) && *final(self) == *old(self),
                ManifestLanded::Failed { charged, error } => r.0 is None && r.1 == (
                ManifestStep::Fail { release: charged, error }) && *final(self) == *old(self),
                ManifestLanded::Stored { missing, error } => {
                    &&& op_model(r.0) == checksum_op(
                        old(self).meta.tables(),
                        repo@,
                        digest_text(digest@),
                        Some(checksum_of(data@)),
                    )
                    &&& match error {
                        Some(e) => r.1 == (ManifestStep::Fail {
                            release: 0,
                            error: StorageError::Io(e),
                        }),
                        None => match missing {
                            Some(i) => r.1 matches ManifestStep::Fail {
                                release,
                                error: StorageError::MissingReference(b),
                            } && release == 0 && b@ == digest_text(required@[i as int]@),
                            None => r.1 == ManifestStep::Commit,
                        },
                    }
                    &&& final(self).presence.has_recorded(
                        &old(self).presence,
                        Self::key_of(repo@, digest@),
                    )
                    &&& final(self).presence.may_hold(Self::key_of(repo@, digest@))
                    &&& forall|k: Text|
                        old(self).presence.may_hold(k) ==> #[trigger] final(self).presence.may_hold(k)
                    &&& final(self).dedupe.is_enabled() == old(self).dedupe.is_enabled()
                    &&& final(self).cache.limit() == old(self).cache.limit()
                    &&& final(self).cache.budget() == old(self).cache.budget()
                    &&& final(self).dedupe.locations() == located(
                        old(self).dedupe.locations(),
                        old(self).dedupe.is_enabled(),
                        repo@,
                        digest_text(digest@),
                    )
                    &&& final(self).gc@ == gc_entered(
                        old(self).gc@,
                        old(self).meta.tables(),
                        repo@,
                        digest_text(digest@),
                        now,
                    )
                    &&& final(self).cache.entries() == kept_with(
                        old(self).cache.entries(),
                        old(self).cache.limit(),
                        old(self).cache.budget(),
                        Self::key_of(repo@, digest@),
                        data@,
                    )
                    &&& final(self).meta == old(self).meta
                    &&& final(self).index_dirty == old(self).index_dirty
                },
            }),
    {
        match landed {
            ManifestLanded::Rejected(error) => (None, ManifestStep::Fail { release: 0, error }),
            ManifestLanded::Failed { charged, error } => (
                None,
                ManifestStep::Fail { release: charged, error },
            ),
            ManifestLanded::Stored { missing, error } => {
                let op = self.blob_stored(repo, digest, data, now);
                if let Some(e) = error {
                    return (op, ManifestStep::Fail { release: 0, error: StorageError::Io(e) });
                }
                if let Some(i) = missing {
                    let name = required[i].as_string();
                    return (
                        op,
                        ManifestStep::Fail {
                            release: 0,
                            error: StorageError::MissingReference(name),
                        },
                    );
                }
                (op, ManifestStep::Commit)
            },
        }
    }

    /// A manifest was recorded: it and everything it references are live, and no
    /// candidates.
    pub fn manifest_committed(&mut self, repo: &str, digest: &Digest, references: &Vec<Digest>)
        requires
            old(self).wf(),
        ensures
            final(self).wf(),
            final(self).gc@ == without_candidates(
                old(self).gc@,
                keys_in(repo@, seq![digest_text(digest@)] + digest_texts(references@)),
            ),
            final(self).meta == old(self).meta,
            final(self).presence == old(self).presence,
            final(self).cache == old(self).cache,
            final(self).dedupe == old(self).dedupe,
            final(self).index_dirty == old(self).index_dirty,
    {
        let ghost g0 = self.gc@;
        let ghost all = seq![digest_text(digest@)] + digest_texts(references@);
        self.gc.clear(repo, digest.as_string().as_str());
        let mut i: usize = 0;
        proof {
            let k = (repo@, digest_text(digest@));
            let first = all.take(1);
            assert(first[0] == digest_text(digest@));
            assert(keys_in(repo@, first) =~= set![k]);
            assert(cleared(g0, k) =~= without_candidates(g0, keys_in(repo@, first)));
        }
        while i < references.len()
            invariant
                i <= references@.len(),
                all == seq![digest_text(digest@)] + digest_texts(references@),
                self.wf(),
                self.gc@ == without_candidates(g0, keys_in(repo@, all.take(i + 1))),
                self.meta == old(self).meta,
                self.presence == old(self).presence,
                self.cache == old(self).cache,
                self.dedupe == old(self).dedupe,
                self.index_dirty == old(self).index_dirty,
            decreases references@.len() - i,
        {
            let ghost before = keys_in(repo@, all.take(i + 1));
            self.gc.clear(repo, references[i].as_string().as_str());
            proof {
                let x = all[i + 1];
                assert(x == digest_text(references@[i as int]@));
                let k = (repo@, x);
                let next = all.take(i + 2);
                assert(next =~= all.take(i + 1).push(x));
                assert forall|y: Text| #[trigger] next.contains(y) <==> all.take(i + 1).contains(y)
                    || y == x by {
                    lemma_pushed(all.take(i + 1), x, y);
                }
                assert(keys_in(repo@, next) =~= before.insert(k));
                assert(cleared(without_candidates(g0, before), k) =~= without_candidates(
                    g0,
                    before.insert(k),
                ));
            }
            i += 1;
        }
        assert(all.take(references@.len() as int + 1) =~= all);
    }

    /// Resolves a reference by what is on record.
    pub fn find_manifest(&self, repo: &str, reference: &str) -> (r: Result<
        ManifestLookup,
        StorageError,
    >)
        requires
            self.wf(),
        ensures
            forall|index: JsonModel|
                (match r {
                    Ok(ManifestLookup::Known(d, m)) => answers(
                        Ok((d, m)),
                        #[trigger] target(self.meta.tables(), repo@, reference@, index),
                    ),
                    Ok(ManifestLookup::AskIndex) => {
                        if reference@.contains(':') {
                            digest_parts(reference@) is Some
                                && !self.meta.tables().media_types.contains_key(
                                (repo@, reference@),
                            )
                        } else {
                            !self.meta.tables().tags.contains_key((repo@, reference@))
                        }
                    },
                    Err(e) => answers(
                        Err(e),
                        #[trigger] target(self.meta.tables(), repo@, reference@, index),
                    ),
                }),
    {
        if has_char(reference, ':') {
            let digest = match Digest::parse(reference) {
                Ok(d) => d,
                Err(e) => {
                    return Err(e);
                },
            };
            return match self.meta.manifest_media_type(repo, reference) {
                Some(m) => Ok(ManifestLookup::Known(digest, m)),
                None => Ok(ManifestLookup::AskIndex),
            };
        }
        match self.meta.resolve_tag(repo, reference) {
            Some((text, media_type)) => match Digest::parse(text.as_str()) {
                Ok(d) => Ok(ManifestLookup::Known(d, media_type)),
                Err(e) => Err(e),
            },
            None => Ok(ManifestLookup::AskIndex),
        }
    }

    /// Where a manifest's bytes are read from: the cache, or the file at a
    /// validated path.
    pub fn manifest_source(&mut self, repo: &str, digest: &Digest) -> (r: Result<
        BlobSource,
        StorageError,
    >)
        requires
            old(self).wf(),
        ensures
            final(self).wf(),
            (match content_at(old(self).cache.entries(), Self::key_of(repo@, digest@)) {
                Some(b) => r matches Ok(BlobSource::Cached(v)) && v@ == b,
                None => match first_unsafe(repo_path(repo@)) {
                    Some(p) => r matches Err(StorageError::BadPath(s)) && s@ == p,
                    None => r matches Ok(BlobSource::File(path)) && texts(path@) == blob_path(
                        repo@,
                        digest@,
                    ) && all_safe(texts(path@)),
                },
            }),
            final(self).cache.entries() == used(
                old(self).cache.entries(),
                Self::key_of(repo@, digest@),
            ),
            final(self).cache.limit() == old(self).cache.limit(),
            final(self).cache.budget() == old(self).cache.budget(),
            final(self).meta == old(self).meta,
            final(self).presence == old(self).presence,
            final(self).gc == old(self).gc,
            final(self).dedupe == old(self).dedupe,
            final(self).index_dirty == old(self).index_dirty,
    {
        if let Some(bytes) = self.cache.get(repo, digest.as_string().as_str()) {
            return Ok(BlobSource::Cached(bytes));
        }
        match blob_rel(repo, digest) {
            Ok(path) => Ok(BlobSource::File(path)),
            Err(e) => Err(e),
        }
    }

    /// A manifest was deleted: what it was the last to reference is a candidate
    /// from now on.
    pub fn manifest_deleted(&mut self, repo: &str, references: &Vec<String>, now: u64)
        requires
            old(self).wf(),
        ensures
            final(self).wf(),
            final(self).gc@ == with_candidates(
                old(self).gc@,
                orphaned(
                    old(self).meta.tables(),
                    |k: Text| old(self).presence.may_hold(k),
                    repo@,
                    texts(references@),
                ),
                now,
            ),
            final(self).meta == old(self).meta,
            final(self).presence == old(self).presence,
            final(self).cache == old(self).cache,
            final(self).dedupe == old(self).dedupe,
            final(self).index_dirty == old(self).index_dirty,
    {
        let ghost g0 = self.gc@;
        let ghost all = texts(references@);
        let ghost t = self.meta.tables();
        let ghost held = |k: Text| old(self).presence.may_hold(k);
        let mut i: usize = 0;
        assert(with_candidates(g0, orphaned(t, held, repo@, all.take(0)), now) =~= g0);
        while i < references.len()
            invariant
                i <= references@.len(),
                all == texts(references@),
                self.wf(),
                t == self.meta.tables(),
                held == (|k: Text| old(self).presence.may_hold(k)),
                self.gc@ == with_candidates(
                    g0,
                    orphaned(t, held, repo@, all.take(i as int)),
                    now,
                ),
                self.meta == old(self).meta,
                self.presence == old(self).presence,
                self.cache == old(self).cache,
                self.dedupe == old(self).dedupe,
                self.index_dirty == old(self).index_dirty,
            decreases references@.len() - i,
        {
            let name = references[i].as_str();
            let ghost before = orphaned(t, held, repo@, all.take(i as int));
            let ghost k = (repo@, name@);
            proof {
                let x = all[i as int];
                let next = all.take(i + 1);
                assert(next =~= all.take(i as int).push(x));
                assert forall|y: Text| #[trigger] next.contains(y) <==> all.take(
                    i as int,
                ).contains(y) || y == x by {
                    lemma_pushed(all.take(i as int), x, y);
                }
                if backrefs_at(t.backrefs, k).len() == 0 && held(blob_key(k.0, k.1)) {
                    assert(orphaned(t, held, repo@, next) =~= before.insert(k));
                    assert(stamped(with_candidates(g0, before, now), k, now) =~= with_candidates(
                        g0,
                        before.insert(k),
                        now,
                    ));
                } else {
                    assert(orphaned(t, held, repo@, next) =~= before);
                }
            }
            let backrefs = self.meta.backrefs(repo, name);
            assert(texts(backrefs@).len() == backrefs@.len());
            if backrefs.len() == 0 && self.presence.maybe_present(repo, name) {
                self.gc.mark(repo, name, now);
            }
            i += 1;
        }
        assert(all.take(references@.len() as int) =~= all);
    }
}

} // verus!
