//! The surface that every metadata engine offers.

use crate::metadata::model::{apply_op, backrefs_at, same_index, Op, Tables};
use crate::metadata::query::{is_referrer_listing, is_tag_listing, referrers_of, repos_of};
use crate::metadata::referrers::is_referrer_page;
use crate::metadata::{BlobChecksum, MetaOp, Referrer};
use crate::page::{increasing, is_page, opt_text, seconds, texts, Page};
use crate::text::Text;
use vstd::prelude::*;

verus! {

/// What the storage backend resolves tags, media types, referrers, backrefs and
/// checksums against, and records mutations in.
pub trait MetadataStore {
    /// The engine's tables are in order.
    spec fn wf(&self) -> bool;

    /// What the index holds.
    spec fn tables(&self) -> Tables;

    /// What the index holds once `op` is applied.
    spec fn after(&self, op: Op) -> Tables;

    /// A mutation shows the way it does on the index itself, but for the order
    /// of a blob's manifests.
    proof fn mutation_shows(&self, op: Op)
        ensures
            same_index(apply_op(self.tables(), op), self.after(op)),
    ;

    /// The `(digest, media type)` that a tag points at.
    fn resolve_tag(&self, repo: &str, tag: &str) -> (r: Option<(String, String)>)
        requires
            self.wf(),
        ensures
            r is Some <==> self.tables().tags.contains_key((repo@, tag@)),
            r matches Some(v) ==> (v.0@, v.1@) == self.tables().tags[(repo@, tag@)],
    ;

    /// The media type recorded for a manifest.
    fn manifest_media_type(&self, repo: &str, digest: &str) -> (r: Option<String>)
        requires
            self.wf(),
        ensures
            r is Some <==> self.tables().media_types.contains_key((repo@, digest@)),
            r matches Some(v) ==> v@ == self.tables().media_types[(repo@, digest@)],
    ;

    /// One page of a repository's tags, or nothing when it has none at all.
    fn tags_page(&self, repo: &str, last: Option<&str>, limit: usize) -> (r: Option<Page<String>>)
        requires
            self.wf(),
        ensures
            r is None <==> seconds(self.tables().tags.dom(), repo@) =~= Set::<Text>::empty(),
            r matches Some(p) ==> is_page(
                texts(p.items@),
                p.more,
                seconds(self.tables().tags.dom(), repo@),
                opt_text(last),
                limit as nat,
            ),
    ;

    /// One page of a subject's referrers, of one artifact type when given, or
    /// nothing when it has none at all.
    fn referrers_page(
        &self,
        repo: &str,
        subject: &str,
        artifact_type: Option<&str>,
        last: Option<&str>,
        limit: usize,
    ) -> (r: Option<Page<Referrer>>)
        requires
            self.wf(),
        ensures
            r is None <==> referrers_of(self.tables().referrers, repo@, subject@) =~= Map::<
                Text,
                Seq<u8>,
            >::empty(),
            r matches Some(p) ==> is_referrer_page(
                p.items@,
                p.more,
                referrers_of(self.tables().referrers, repo@, subject@),
                opt_text(artifact_type),
                opt_text(last),
                limit as nat,
            ),
    ;

    /// Whether `referrer` is recorded against `subject`.
    fn has_referrer(&self, repo: &str, subject: &str, referrer: &str) -> (r: bool)
        requires
            self.wf(),
        ensures
            r == self.tables().referrers.contains_key((repo@, subject@, referrer@)),
    ;

    /// The manifests that reference a blob.
    fn backrefs(&self, repo: &str, blob: &str) -> (r: Vec<String>)
        requires
            self.wf(),
        ensures
            texts(r@) == backrefs_at(self.tables().backrefs, (repo@, blob@)),
    ;

    /// The checksum recorded for a blob.
    fn checksum(&self, repo: &str, digest: &str) -> (r: Option<BlobChecksum>)
        requires
            self.wf(),
        ensures
            r is Some <==> self.tables().checksums.contains_key((repo@, digest@)),
            r matches Some(c) ==> c == self.tables().checksums[(repo@, digest@)],
    ;

    /// Applies a mutation that is recorded.
    fn apply(&mut self, op: MetaOp)
        requires
            old(self).wf(),
        ensures
            final(self).wf(),
            final(self).tables() == old(self).after(op.model()),
    ;

    /// Every repository with a manifest or a referrer, in order.
    fn repos(&self) -> (r: Vec<String>)
        requires
            self.wf(),
        ensures
            increasing(texts(r@)),
            texts(r@).to_set() == repos_of(self.tables()),
    ;

    /// Every manifest of a repository, once.
    fn manifests(&self, repo: &str) -> (r: Vec<String>)
        requires
            self.wf(),
        ensures
            texts(r@).no_duplicates(),
            texts(r@).to_set() == seconds(self.tables().media_types.dom(), repo@),
    ;

    /// A repository's tags in order, each with digest and media type.
    fn tags_snapshot(&self, repo: &str) -> (r: Vec<(String, String, String)>)
        requires
            self.wf(),
        ensures
            is_tag_listing(r@, self.tables().tags, repo@),
    ;

    /// A repository's subjects in order, each with its referrers.
    fn referrers_snapshot(&self, repo: &str) -> (r: Vec<(String, Vec<Referrer>)>)
        requires
            self.wf(),
        ensures
            is_referrer_listing(r@, self.tables().referrers, repo@),
    ;
}

} // verus!
