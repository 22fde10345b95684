//! The metadata engine that is configured: one of those there are.

use crate::metadata::log_store::LogMetadataStore;
use crate::metadata::model::{Op, Tables};
use crate::metadata::redb_store::RedbMetadataStore;
use crate::metadata::store::MetadataStore;
use crate::metadata::{BlobChecksum, MetaOp, Referrer};
use crate::page::Page;
use vstd::prelude::*;

verus! {

/// The index, in the engine that keeps it.
pub enum Engine {
    Log(LogMetadataStore),
    Redb(RedbMetadataStore),
}

impl Engine {
    /// The generation of what the engine has on disk; 0 for an engine that
    /// counts none.
    pub fn generation(&self) -> (r: u64)
        ensures
            r == (match self {
                Engine::Log(s) => s.current_generation(),
                Engine::Redb(s) => 0,
            }),
    {
        match self {
            Engine::Log(s) => s.generation(),
            Engine::Redb(_) => 0,
        }
    }
}

impl MetadataStore for Engine {
    open spec fn wf(&self) -> bool {
        match self {
            Engine::Log(s) => s.wf(),
            Engine::Redb(s) => s.wf(),
        }
    }

    open spec fn tables(&self) -> Tables {
        match self {
            Engine::Log(s) => s.tables(),
            Engine::Redb(s) => s.tables(),
        }
    }

    open spec fn after(&self, op: Op) -> Tables {
        match self {
            Engine::Log(s) => s.after(op),
            Engine::Redb(s) => s.after(op),
        }
    }

    proof fn mutation_shows(&self, op: Op) {
        match self {
            Engine::Log(s) => s.mutation_shows(op),
            Engine::Redb(s) => s.mutation_shows(op),
        }
    }

    fn resolve_tag(&self, repo: &str, tag: &str) -> (r: Option<(String, String)>) {
        match self {
            Engine::Log(s) => s.resolve_tag(repo, tag),
            Engine::Redb(s) => s.resolve_tag(repo, tag),
        }
    }

    fn manifest_media_type(&self, repo: &str, digest: &str) -> (r: Option<String>) {
        match self {
            Engine::Log(s) => s.manifest_media_type(repo, digest),
            Engine::Redb(s) => s.manifest_media_type(repo, digest),
        }
    }

    fn tags_page(&self, repo: &str, last: Option<&str>, limit: usize) -> (r: Option<Page<String>>) {
        match self {
            Engine::Log(s) => s.tags_page(repo, last, limit),
            Engine::Redb(s) => s.tags_page(repo, last, limit),
        }
    }

    fn referrers_page(
        &self,
        repo: &str,
        subject: &str,
        artifact_type: Option<&str>,
        last: Option<&str>,
        limit: usize,
    ) -> (r: Option<Page<Referrer>>) {
        match self {
            Engine::Log(s) => s.referrers_page(repo, subject, artifact_type, last, limit),
            Engine::Redb(s) => s.referrers_page(repo, subject, artifact_type, last, limit),
        }
    }

    fn has_referrer(&self, repo: &str, subject: &str, referrer: &str) -> (r: bool) {
        match self {
            Engine::Log(s) => s.has_referrer(repo, subject, referrer),
            Engine::Redb(s) => s.has_referrer(repo, subject, referrer),
        }
    }

    fn backrefs(&self, repo: &str, blob: &str) -> (r: Vec<String>) {
        match self {
            Engine::Log(s) => s.backrefs(repo, blob),
            Engine::Redb(s) => s.backrefs(repo, blob),
        }
    }

    fn checksum(&self, repo: &str, digest: &str) -> (r: Option<BlobChecksum>) {
        match self {
            Engine::Log(s) => s.checksum(repo, digest),
            Engine::Redb(s) => s.checksum(repo, digest),
        }
    }

    fn apply(&mut self, op: MetaOp) {
        match self {
            Engine::Log(s) => s.apply(op),
            Engine::Redb(s) => s.apply(op),
        }
    }

    fn repos(&self) -> (r: Vec<String>) {
        match self {
            Engine::Log(s) => s.repos(),
            Engine::Redb(s) => s.repos(),
        }
    }

    fn manifests(&self, repo: &str) -> (r: Vec<String>) {
        match self {
            Engine::Log(s) => s.manifests(repo),
            Engine::Redb(s) => s.manifests(repo),
        }
    }

    fn tags_snapshot(&self, repo: &str) -> (r: Vec<(String, String, String)>) {
        match self {
            Engine::Log(s) => s.tags_snapshot(repo),
            Engine::Redb(s) => s.tags_snapshot(repo),
        }
    }

    fn referrers_snapshot(&self, repo: &str) -> (r: Vec<(String, Vec<Referrer>)>) {
        match self {
            Engine::Log(s) => s.referrers_snapshot(repo),
            Engine::Redb(s) => s.referrers_snapshot(repo),
        }
    }
}

} // verus!
