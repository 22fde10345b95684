//! Online garbage collection: the startup consistency check, which rebuilds
//! missing edges and finds the roots, and the sweep over due candidates.

use crate::cache::{blob_key, without_key};
use crate::digest::{digest_parts, Digest};
use crate::error::IoFailure;
use crate::fs_storage::fast_restart::with_roots;
use crate::fs_storage::index::{read_existing, readable, FileRead};
use crate::fs_storage::lifecycle::{op_model, removal_op, unlocated, unreferenced, FsStorage};
use crate::fs_storage::manifests::{read_references, references_in, Stat};
use crate::fs_storage::paths::{
    all_safe, blob_dir, blob_dir_rel, blob_path, blob_rel, first_unsafe, repo_path,
};
use crate::gc::{avoided, cleared, due_at, key_pairs, rooted, stamped, BlobKey, GcModel};
use crate::json::{models, parse, parsed, Json, JsonModel};
use crate::layout::{descriptor_digest, digest_of, index_manifests, manifests_in};
use crate::lists::{has_text, join_texts, lemma_pushed};
use crate::metadata::model::{apply_op, backrefs_at, joined, with_backrefs, Op, Tables};
use crate::metadata::query::repos_of;
use crate::metadata::state_laws::lemma_edges_recorded;
use crate::metadata::store::MetadataStore;
use crate::metadata::MetaOp;
use crate::page::{seconds, texts};
use crate::table::Table;
use crate::text::Text;
use vstd::prelude::*;

verus! {

broadcast use vstd::string::group_string_axioms;

/// How many candidates are processed before other work gets a turn.
pub const SWEEP_BATCH_SIZE: usize = 256;

/// The digests that the children of an image index have.
pub open spec fn child_digests(entries: Seq<JsonModel>) -> Set<Text> {
    Set::new(
        |d: Text|
            exists|i: int|
                #![trigger entries[i]]
                0 <= i < entries.len() && digest_of(entries[i]) == Some(d),
    )
}

/// The longest manifest that is read for what it references.
pub const MANIFEST_CAP: usize = 4194304;

/// The document that a manifest's bytes are; nothing where they are no JSON text,
/// or more than is read of a manifest.
pub open spec fn manifest_model(bytes: Seq<u8>) -> Option<JsonModel> {
    if bytes.len() > MANIFEST_CAP {
        None
    } else {
        parsed(bytes)
    }
}

/// Reads a manifest's document.
fn read_manifest(bytes: &[u8]) -> (r: Option<Json>)
    ensures
        r matches Some(j) ==> manifest_model(bytes@) == Some(j.model()),
        r is None ==> manifest_model(bytes@) is None,
{
    if bytes.len() > MANIFEST_CAP {
        None
    } else {
        parse(bytes)
    }
}

/// The children that a manifest's bytes name; none where they cannot be read.
pub open spec fn children_in(bytes: Seq<u8>) -> Set<Text> {
    match manifest_model(bytes) {
        Some(m) => child_digests(manifests_in(m)),
        None => Set::empty(),
    }
}

/// `s` holds the roots, and with a manifest that was read its children.
pub open spec fn is_closed(s: Set<Text>, roots: Set<Text>, seen: Map<Text, Option<Seq<u8>>>) -> bool {
    &&& roots.subset_of(s)
    &&& forall|d: Text, c: Text|
        #![trigger seen.contains_key(d), s.contains(c)]
        s.contains(d) && seen.contains_key(d) && seen[d] is Some && children_in(
            seen[d]->0,
        ).contains(c) ==> s.contains(c)
}

/// The manifests of a repository, being found from its roots on.
pub struct GcRebuild {
    repo: String,
    roots: Table<String, ()>,
    all: Table<String, ()>,
    to_visit: Vec<String>,
    seen: Ghost<Map<Text, Option<Seq<u8>>>>,
}

impl GcRebuild {
    /// The repository.
    pub closed spec fn repo(&self) -> Text {
        self.repo@
    }

    /// The manifests on record and those that the index lists.
    pub closed spec fn roots(&self) -> Set<Text> {
        self.roots.map().dom()
    }

    /// The manifests found so far.
    pub closed spec fn all(&self) -> Set<Text> {
        self.all.map().dom()
    }

    /// Those whose children are not known yet.
    pub closed spec fn waiting(&self) -> Seq<Text> {
        texts(self.to_visit@)
    }

    /// What reading each of the others gave.
    pub closed spec fn seen(&self) -> Map<Text, Option<Seq<u8>>> {
        self.seen@
    }

    /// What was found is exactly what follows from the roots: everything found
    /// was read or is waiting, a read manifest's children were found, and any
    /// other collection with these properties holds at least as much.
    pub closed spec fn wf(&self) -> bool {
        &&& self.roots.wf()
        &&& self.all.wf()
        &&& self.roots().subset_of(self.all())
        &&& self.waiting().no_duplicates()
        &&& forall|d: Text|
            #![trigger self.all().contains(d)]
            self.all().contains(d) <==> self.waiting().contains(d) || self.seen().contains_key(d)
        &&& forall|d: Text| #[trigger]
            self.seen().contains_key(d) ==> !self.waiting().contains(d)
        &&& is_closed(self.all(), self.roots(), self.seen())
        &&& forall|s: Set<Text>| #[trigger]
            is_closed(s, self.roots(), self.seen()) ==> self.all().subset_of(s)
    }

    /// Whether a digest is among the roots.
    pub fn is_root(&self, digest: &str) -> (r: bool)
        requires
            self.wf(),
        ensures
            r == self.roots().contains(digest@),
    {
        self.roots.contains(&digest.to_owned())
    }

    /// Everything that was found, each once.
    pub fn digests(&self) -> (r: Vec<String>)
        requires
            self.wf(),
        ensures
            texts(r@).no_duplicates(),
            texts(r@).to_set() == self.all(),
    {
        let r = self.all.keys();
        assert(texts(r@) =~= crate::table::key_views(r@));
        r
    }

    /// Takes the last waiting manifest off, with what reading it gave.
    fn take_off(&mut self, read: Ghost<Option<Seq<u8>>>)
        requires
            old(self).wf(),
            old(self).waiting().len() > 0,
            read@ matches Some(b) ==> children_in(b).subset_of(old(self).all()),
        ensures
            final(self).wf(),
            final(self).repo() == old(self).repo(),
            final(self).roots() == old(self).roots(),
            final(self).all() == old(self).all(),
            final(self).waiting() == old(self).waiting().drop_last(),
            final(self).seen() == old(self).seen().insert(old(self).waiting().last(), read@),
    {
        let ghost was = *self;
        let ghost d = self.waiting().last();
        let _ = self.to_visit.pop();
        self.seen = Ghost(self.seen@.insert(d, read@));
        proof {
            let before = was.waiting();
            let after = self.waiting();
            assert(after =~= before.drop_last());
            assert(before =~= after.push(d));
            assert forall|x: Text| #[trigger] before.contains(x) <==> after.contains(x) || x
                == d by {
                lemma_pushed(after, d, x);
            }
            assert(!after.contains(d)) by {
                if after.contains(d) {
                    let i = choose|i: int| 0 <= i < after.len() && after[i] == d;
                    assert(before[i] == before[before.len() - 1]);
                }
            }
            assert(was.all().contains(d)) by {
                assert(before.contains(d));
            }
            assert(is_closed(self.all(), self.roots(), self.seen())) by {
                assert forall|x: Text, c: Text|
                    #![trigger self.seen().contains_key(x), self.all().contains(c)]
                    self.all().contains(x) && self.seen().contains_key(x) && self.seen()[x] is Some
                        && children_in(self.seen()[x]->0).contains(c) implies self.all().contains(
                    c,
                ) by {
                    if x != d {
                        assert(was.seen().contains_key(x));
                        assert(was.all().contains(c));
                    }
                }
            }
            assert forall|s: Set<Text>| #[trigger]
                is_closed(s, self.roots(), self.seen()) implies self.all().subset_of(s) by {
                assert(is_closed(s, was.roots(), was.seen())) by {
                    assert(!was.seen().contains_key(d));
                    assert forall|x: Text, c: Text|
                        #![trigger was.seen().contains_key(x), s.contains(c)]
                        s.contains(x) && was.seen().contains_key(x) && was.seen()[x] is Some
                            && children_in(was.seen()[x]->0).contains(c) implies s.contains(
                        c,
                    ) by {
                        assert(self.seen().contains_key(x));
                    }
                }
            }
        }
    }

    /// The next manifest to read, by its digest and path. One whose digest is
    /// malformed, or whose path is not safe, cannot be read and has no children.
    pub fn next(&mut self) -> (r: Option<(String, Vec<String>)>)
        requires
            old(self).wf(),
        ensures
            final(self).wf(),
            final(self).repo() == old(self).repo(),
            final(self).roots() == old(self).roots(),
            final(self).all() == old(self).all(),
            r is None <==> final(self).waiting().len() == 0,
            r matches Some(v) ==> v.0@ == final(self).waiting().last() && (digest_parts(
                v.0@,
            ) matches Some(d) && texts(v.1@) == blob_path(final(self).repo(), d) && all_safe(
                texts(v.1@),
            )),
            forall|d: Text| #[trigger]
                final(self).seen().contains_key(d) ==> (if old(self).seen().contains_key(d) {
                    final(self).seen()[d] == old(self).seen()[d]
                } else {
                    final(self).seen()[d] is None && (digest_parts(d) is None || first_unsafe(
                        repo_path(old(self).repo()),
                    ) is Some)
                }),
            forall|d: Text| #[trigger]
                old(self).seen().contains_key(d) ==> final(self).seen().contains_key(d),
    {
        while self.to_visit.len() > 0
            invariant
                self.wf(),
                self.repo() == old(self).repo(),
                self.roots() == old(self).roots(),
                self.all() == old(self).all(),
                forall|d: Text| #[trigger]
                    self.seen().contains_key(d) ==> (if old(self).seen().contains_key(d) {
                        self.seen()[d] == old(self).seen()[d]
                    } else {
                        self.seen()[d] is None && (digest_parts(d) is None || first_unsafe(
                            repo_path(old(self).repo()),
                        ) is Some)
                    }),
                forall|d: Text| #[trigger]
                    old(self).seen().contains_key(d) ==> self.seen().contains_key(d),
            decreases self.to_visit@.len(),
        {
            let last: usize = self.to_visit.len() - 1;
            let name = self.to_visit[last].clone();
            let ghost d = self.waiting().last();
            assert(name@ == d);
            if let Ok(digest) = Digest::parse(name.as_str()) {
                if let Ok(path) = blob_rel(self.repo.as_str(), &digest) {
                    return Some((name, path));
                }
            }
            proof {
                assert(self.waiting().contains(d));
                assert(!self.seen().contains_key(d));
                assert(!old(self).seen().contains_key(d));
            }
            let ghost n = self.waiting().len();
            self.take_off(Ghost(None));
            assert(self.waiting().len() == n - 1);
        }
        None
    }

    /// The manifest that is next was read, or could not be. Children that are new
    /// wait to be read. Tells whether the repository is unsafe to sweep: a root
    /// that is no JSON text, or too long, hides what it references.
    pub fn visited(&mut self, bytes: Option<&[u8]>) -> (hidden: bool)
        requires
            old(self).wf(),
            old(self).waiting().len() > 0,
        ensures
            final(self).wf(),
            final(self).repo() == old(self).repo(),
            final(self).roots() == old(self).roots(),
            final(self).seen() == old(self).seen().insert(
                old(self).waiting().last(),
                match bytes {
                    Some(b) => Some(b@),
                    None => None,
                },
            ),
            final(self).all() == (match bytes {
                Some(b) => old(self).all().union(children_in(b@)),
                None => old(self).all(),
            }),
            hidden == (old(self).roots().contains(old(self).waiting().last()) && (
            bytes matches Some(b) && manifest_model(b@) is None)),
    {
        let content = match bytes {
            Some(b) => b,
            None => {
                self.take_off(Ghost(None));
                return false;
            },
        };
        let last: usize = self.to_visit.len() - 1;
        let name = self.to_visit[last].clone();
        assert(name@ == self.waiting().last());
        let document = match read_manifest(content) {
            Some(d) => d,
            None => {
                let hidden = self.is_root(name.as_str());
                assert(self.all().union(children_in(content@)) =~= self.all());
                self.take_off(Ghost(Some(content@)));
                return hidden;
            },
        };
        self.add_children(&document, Ghost(content@));
        false
    }

    /// Adds the children of the manifest that was read, and takes it off.
    fn add_children(&mut self, document: &Json, bytes: Ghost<Seq<u8>>)
        requires
            old(self).wf(),
            old(self).waiting().len() > 0,
            manifest_model(bytes@) == Some(document.model()),
        ensures
            final(self).wf(),
            final(self).repo() == old(self).repo(),
            final(self).roots() == old(self).roots(),
            final(self).seen() == old(self).seen().insert(
                old(self).waiting().last(),
                Some(bytes@),
            ),
            final(self).all() == old(self).all().union(children_in(bytes@)),
    {
        let none: Vec<Json> = Vec::new();
        let list: &Vec<Json> = match index_manifests(document) {
            Some(l) => l,
            None => &none,
        };
        let ghost entries = manifests_in(document.model());
        assert(models(list@) =~= entries);
        let ghost was = *self;
        let ghost d = self.waiting().last();
        let _ = self.to_visit.pop();
        self.seen = Ghost(self.seen@.insert(d, Some(bytes@)));
        let mut i: usize = 0;
        proof {
            let before = was.waiting();
            let after = self.waiting();
            assert(after =~= before.drop_last());
            assert(before =~= after.push(d));
            assert forall|x: Text| #[trigger] before.contains(x) <==> after.contains(x) || x
                == d by {
                lemma_pushed(after, d, x);
            }
            assert(!after.contains(d)) by {
                if after.contains(d) {
                    let k = choose|k: int| 0 <= k < after.len() && after[k] == d;
                    assert(before[k] == before[before.len() - 1]);
                }
            }
            assert(before.contains(d));
            assert(was.all().contains(d));
            assert(self.all() =~= was.all().union(child_digests(entries.take(0))));
        }
        while i < list.len()
            invariant
                i <= list@.len(),
                entries == models(list@),
                self.roots.wf(),
                self.all.wf(),
                self.roots() == was.roots(),
                self.repo() == was.repo(),
                self.seen() == was.seen().insert(d, Some(bytes@)),
                was.all().contains(d),
                self.all() == was.all().union(child_digests(entries.take(i as int))),
                self.waiting().no_duplicates(),
                !self.waiting().contains(d),
                forall|x: Text|
                    #![trigger self.all().contains(x)]
                    self.all().contains(x) <==> self.waiting().contains(x)
                        || self.seen().contains_key(x),
                forall|x: Text| #[trigger]
                    self.seen().contains_key(x) ==> !self.waiting().contains(x),
            decreases list@.len() - i,
        {
            let ghost now = entries.take(i + 1);
            let ghost had = self.all();
            let ghost waited = self.waiting();
            proof {
                assert(now[i as int] == list@[i as int].model());
                lemma_children(entries, i as int);
            }
            if let Some(c) = descriptor_digest(&list[i]) {
                let child = c.to_owned();
                let ghost x = child@;
                if !self.all.contains(&child) {
                    self.to_visit.push(c.to_owned());
                    self.all.insert(child, ());
                    proof {
                        assert(self.waiting() =~= waited.push(x));
                        assert(self.all() =~= had.insert(x));
                        assert(!had.contains(x));
                        assert(!waited.contains(x));
                        assert forall|y: Text| #[trigger]
                            self.waiting().contains(y) <==> waited.contains(y) || y == x by {
                            lemma_pushed(waited, x, y);
                        }
                        assert forall|y: Text| #[trigger] self.seen().contains_key(y) implies
                            !self.waiting().contains(y) by {
                            assert(had.contains(y));
                        }
                        assert forall|y: Text| #[trigger] self.all().contains(y)
                            <==> self.waiting().contains(y) || self.seen().contains_key(y) by {
                            assert(had.contains(y) <==> waited.contains(y)
                                || self.seen().contains_key(y));
                        }
                    }
                }
            }
            i += 1;
            assert(self.all() =~= was.all().union(child_digests(now)));
        }
        proof {
            assert(entries.take(list@.len() as int) =~= entries);
            let kids = children_in(bytes@);
            assert(kids == child_digests(entries));
            assert(is_closed(self.all(), self.roots(), self.seen())) by {
                assert forall|x: Text, c: Text|
                    #![trigger self.seen().contains_key(x), self.all().contains(c)]
                    self.all().contains(x) && self.seen().contains_key(x) && self.seen()[x] is Some
                        && children_in(self.seen()[x]->0).contains(c) implies self.all().contains(
                    c,
                ) by {
                    if x != d {
                        assert(was.seen().contains_key(x));
                        assert(was.all().contains(x));
                        assert(was.all().contains(c));
                    } else {
                        assert(kids.contains(c));
                    }
                }
            }
            assert forall|s: Set<Text>| #[trigger]
                is_closed(s, self.roots(), self.seen()) implies self.all().subset_of(s) by {
                assert(is_closed(s, was.roots(), was.seen())) by {
                    assert(!was.seen().contains_key(d)) by {
                        assert(was.waiting().contains(d));
                    }
                    assert forall|x: Text, c: Text|
                        #![trigger was.seen().contains_key(x), s.contains(c)]
                        s.contains(x) && was.seen().contains_key(x) && was.seen()[x] is Some
                            && children_in(was.seen()[x]->0).contains(c) implies s.contains(
                        c,
                    ) by {
                        assert(self.seen().contains_key(x));
                    }
                }
                assert(was.all().subset_of(s));
                assert(s.contains(d));
                assert(self.seen().contains_key(d));
                assert forall|c: Text| self.all().contains(c) implies s.contains(c) by {
                    if !was.all().contains(c) {
                        assert(kids.contains(c));
                    }
                }
            }
        }
    }
}

/// The edges from `manifest` that are not on record, in order.
pub open spec fn missing_edges(t: Tables, repo: Text, manifest: Text, refs: Seq<Text>) -> Seq<Text>
    decreases refs.len(),
{
    if refs.len() == 0 {
        Seq::empty()
    } else {
        let init = missing_edges(t, repo, manifest, refs.drop_last());
        if backrefs_at(t.backrefs, (repo, refs.last())).contains(manifest) {
            init
        } else {
            init.push(refs.last())
        }
    }
}

/// What records the missing edges of a manifest.
pub open spec fn edges_op(t: Tables, repo: Text, manifest: Text, bytes: Seq<u8>) -> Option<Op> {
    let blobs = missing_edges(t, repo, manifest, references_in(bytes));
    if manifest_model(bytes) is Some && blobs.len() > 0 {
        Some(Op::PutBackrefs { repo, manifest, blobs })
    } else {
        None
    }
}

/// The roots of a repository: the manifests on record, and what its index lists.
pub open spec fn roots_of(t: Tables, repo: Text, index: Option<JsonModel>) -> Set<Text> {
    seconds(t.media_types.dom(), repo).union(
        match index {
            Some(m) => child_digests(manifests_in(m)),
            None => Set::empty(),
        },
    )
}

/// A file is there, and what it lists cannot be known.
pub open spec fn hides(read: FileRead) -> bool {
    match read {
        FileRead::Missing => false,
        FileRead::Failed(_) => true,
        FileRead::Bytes(b) => parsed(b@) is None,
    }
}

/// What becomes of a candidate.
#[derive(Debug, PartialEq, Eq)]
pub enum SweepStep {
    /// It stays.
    Keep,
    /// Its file, in this directory under this name, is to be looked up and
    /// removed.
    Remove { dir: Vec<String>, leaf: String },
}

/// A candidate that no longer needs collecting: it is a root, or something
/// references it, or it is a manifest, or it has no path.
pub open spec fn is_settled(m: GcModel, t: Tables, k: (Text, Text)) -> bool {
    ||| m.roots.contains(k)
    ||| !m.unsafe_repos.contains(k.0) && (!unreferenced(t, k.0, k.1) || digest_parts(k.1) is None
        || first_unsafe(repo_path(k.0)) is Some)
}

/// A candidate that is collected: its grace period is over, its repository may be
/// swept, and nothing refers to it.
pub open spec fn is_garbage(m: GcModel, t: Tables, k: (Text, Text), now: u64) -> bool {
    &&& due_at(m, k, now)
    &&& !m.roots.contains(k)
    &&& !m.unsafe_repos.contains(k.0)
    &&& unreferenced(t, k.0, k.1)
    &&& digest_parts(k.1) is Some
    &&& first_unsafe(repo_path(k.0)) is None
}

/// What came of looking a candidate's file up.
#[derive(Debug, Clone, Copy, PartialEq, Eq, Structural)]
pub enum SweepStat {
    /// A regular file of this size, to be removed.
    Found(u64),
    /// There is none.
    Gone,
    /// It could not be found out.
    Failed,
}

/// What came of removing a candidate's file.
#[derive(Debug)]
pub enum SweepOutcome {
    /// It is removed; the mutation is to be recorded.
    Collected { record: Option<MetaOp> },
    /// It was gone already.
    Gone,
    /// It could not be removed.
    Failed,
}

/// Whether a staged upload is stale: it was not written to for the whole grace
/// period, and no session holds it.
pub fn is_stale_upload(age: u64, delay: u64, locked: bool) -> (r: bool)
    ensures
        r == (age >= delay && !locked),
{
    age >= delay && !locked
}

impl<M: MetadataStore> FsStorage<M> {
    /// The repositories to check: those of the layout, then those that only the
    /// metadata store knows.
    pub fn gc_repos(&self, layout: Vec<String>) -> (r: Vec<String>)
        requires
            self.wf(),
        ensures
            texts(r@).to_set() == texts(layout@).to_set().union(repos_of(self.meta.tables())),
            texts(layout@).is_prefix_of(texts(r@)),
    {
        let known = self.meta.repos();
        let mut repos = layout;
        join_texts(&mut repos, &known);
        proof {
            lemma_joined(texts(layout@), texts(known@));
            assert(texts(repos@).to_set() =~= texts(layout@).to_set().union(
                texts(known@).to_set(),
            ));
        }
        repos
    }

    /// Starts finding the manifests of a repository, from those on record and
    /// those that its index lists. An index that is there and cannot be read hides
    /// what it lists, which makes the repository unsafe to sweep.
    pub fn rebuild_start(&mut self, repo: &str, read: FileRead) -> (r: GcRebuild)
        requires
            old(self).wf(),
        ensures
            final(self).wf(),
            r.wf(),
            r.repo() == repo@,
            r.roots() == roots_of(old(self).meta.tables(), repo@, readable(read)),
            r.all() == r.roots(),
            r.seen() == Map::<Text, Option<Seq<u8>>>::empty(),
            final(self).gc@ == (if hides(read) {
                avoided(old(self).gc@, repo@)
            } else {
                old(self).gc@
            }),
            final(self).meta == old(self).meta,
            final(self).presence == old(self).presence,
            final(self).cache == old(self).cache,
            final(self).dedupe == old(self).dedupe,
            final(self).index_dirty == old(self).index_dirty,
    {
        match read_existing(read) {
            Ok(index) => self.rebuild_from(repo, index.as_ref()),
            Err(_) => {
                self.gc.mark_unsafe(repo);
                self.rebuild_from(repo, None)
            },
        }
    }

    /// Starts finding the manifests of a repository, from those on record and
    /// those that an index lists.
    fn rebuild_from(&self, repo: &str, index: Option<&Json>) -> (r: GcRebuild)
        requires
            self.wf(),
        ensures
            r.wf(),
            r.repo() == repo@,
            r.roots() == roots_of(
                self.meta.tables(),
                repo@,
                match index {
                    Some(j) => Some(j.model()),
                    None => None,
                },
            ),
            r.all() == r.roots(),
            r.seen() == Map::<Text, Option<Seq<u8>>>::empty(),
    {
        let recorded = self.meta.manifests(repo);
        let mut roots: Table<String, ()> = Table::new();
        let mut all: Table<String, ()> = Table::new();
        let ghost names = texts(recorded@);
        let mut i: usize = 0;
        assert(roots.map().dom() =~= names.take(0).to_set());
        while i < recorded.len()
            invariant
                i <= recorded@.len(),
                names == texts(recorded@),
                roots.wf(),
                all.wf(),
                roots.map().dom() == names.take(i as int).to_set(),
                all.map().dom() == roots.map().dom(),
            decreases recorded@.len() - i,
        {
            proof {
                let a = names.take(i as int);
                let b = names.take(i + 1);
                assert(b =~= a.push(names[i as int]));
                assert forall|y: Text| #[trigger] b.to_set().contains(y) <==> a.to_set().insert(
                    names[i as int],
                ).contains(y) by {
                    lemma_pushed(a, names[i as int], y);
                }
                assert(b.to_set() =~= a.to_set().insert(names[i as int]));
            }
            roots.insert(recorded[i].clone(), ());
            all.insert(recorded[i].clone(), ());
            i += 1;
            assert(roots.map().dom() =~= names.take(i as int).to_set());
            assert(all.map().dom() =~= roots.map().dom());
        }
        assert(names.take(recorded@.len() as int) =~= names);
        let ghost base = roots.map().dom();
        let none: Vec<Json> = Vec::new();
        let list: &Vec<Json> = match index {
            Some(j) => match index_manifests(j) {
                Some(l) => l,
                None => &none,
            },
            None => &none,
        };
        let ghost entries = models(list@);
        assert(entries =~= (match index {
            Some(j) => manifests_in(j.model()),
            None => Seq::empty(),
        }));
        i = 0;
        assert(base =~= base.union(child_digests(entries.take(0))));
        while i < list.len()
            invariant
                i <= list@.len(),
                entries == models(list@),
                roots.wf(),
                all.wf(),
                roots.map().dom() == base.union(child_digests(entries.take(i as int))),
                all.map().dom() == roots.map().dom(),
            decreases list@.len() - i,
        {
            proof {
                lemma_children(entries, i as int);
            }
            if let Some(d) = descriptor_digest(&list[i]) {
                roots.insert(d.to_owned(), ());
                all.insert(d.to_owned(), ());
            }
            i += 1;
            assert(roots.map().dom() =~= base.union(child_digests(entries.take(i as int))));
            assert(all.map().dom() =~= roots.map().dom());
        }
        assert(entries.take(list@.len() as int) =~= entries);
        let to_visit = roots.keys();
        assert(texts(to_visit@) =~= crate::table::key_views(to_visit@));
        let ghost nothing = Map::<Text, Option<Seq<u8>>>::empty();
        let r = GcRebuild { repo: repo.to_owned(), roots, all, to_visit, seen: Ghost(nothing) };
        proof {
            if index is None {
                assert(child_digests(entries) =~= Set::empty());
            }
            assert(r.roots() =~= roots_of(
                self.meta.tables(),
                repo@,
                match index {
                    Some(j) => Some(j.model()),
                    None => None,
                },
            ));
            assert forall|d: Text| #[trigger] r.all().contains(d) <==> r.waiting().contains(d)
                || r.seen().contains_key(d) by {
                assert(r.waiting().to_set().contains(d) <==> r.waiting().contains(d));
            }
        }
        r
    }

    /// Registers what was found and is not on record as roots, which no sweep
    /// collects.
    pub fn rebuild_roots(&mut self, found: &GcRebuild)
        requires
            old(self).wf(),
            found.wf(),
        ensures
            final(self).wf(),
            final(self).gc@ == with_roots(
                old(self).gc@,
                unrecorded(old(self).meta.tables(), found.repo(), found.all()),
            ),
            final(self).meta == old(self).meta,
            final(self).presence == old(self).presence,
            final(self).cache == old(self).cache,
            final(self).dedupe == old(self).dedupe,
            final(self).index_dirty == old(self).index_dirty,
    {
        let digests = found.digests();
        let repo = found.repo.as_str();
        let ghost t = self.meta.tables();
        let ghost g0 = self.gc@;
        let ghost all = texts(digests@);
        let mut i: usize = 0;
        assert(with_roots(g0, unrecorded(t, repo@, all.take(0).to_set())) =~= g0);
        while i < digests.len()
            invariant
                i <= digests@.len(),
                all == texts(digests@),
                self.wf(),
                t == self.meta.tables(),
                self.gc@ == with_roots(g0, unrecorded(t, repo@, all.take(i as int).to_set())),
                self.meta == old(self).meta,
                self.presence == old(self).presence,
                self.cache == old(self).cache,
                self.dedupe == old(self).dedupe,
                self.index_dirty == old(self).index_dirty,
            decreases digests@.len() - i,
        {
            let name = digests[i].as_str();
            let ghost before = unrecorded(t, repo@, all.take(i as int).to_set());
            let ghost after = unrecorded(t, repo@, all.take(i + 1).to_set());
            proof {
                let a = all.take(i as int);
                let b = all.take(i + 1);
                let k = (repo@, name@);
                assert(b =~= a.push(name@));
                assert forall|y: Text| #[trigger] b.to_set().contains(y) <==> a.to_set().contains(
                    y,
                ) || y == name@ by {
                    lemma_pushed(a, name@, y);
                }
                if t.media_types.contains_key(k) {
                    assert(after =~= before);
                } else {
                    assert(after =~= before.insert(k));
                    assert(rooted(with_roots(g0, before), k) =~= with_roots(g0, after));
                }
            }
            if self.meta.manifest_media_type(repo, name).is_none() {
                self.gc.add_root(repo, name);
            }
            i += 1;
        }
        assert(all.take(digests@.len() as int) =~= all);
    }

    /// The edges of one manifest that was found: what is missing of them is to be
    /// recorded. A root that could not be read, and any manifest that is no JSON
    /// text or too long, makes its repository unsafe to sweep.
    pub fn rebuild_edges(&mut self, found: &GcRebuild, digest: &str, bytes: Option<&[u8]>) -> (r:
        Option<MetaOp>)
        requires
            old(self).wf(),
            found.wf(),
        ensures
            final(self).wf(),
            (match bytes {
                Some(b) => op_model(r) == edges_op(
                    old(self).meta.tables(),
                    found.repo(),
                    digest@,
                    b@,
                ),
                None => r is None,
            }),
            final(self).gc@ == (if match bytes {
                Some(b) => manifest_model(b@) is None,
                None => found.roots().contains(digest@),
            } {
                avoided(old(self).gc@, found.repo())
            } else {
                old(self).gc@
            }),
            final(self).meta == old(self).meta,
            final(self).presence == old(self).presence,
            final(self).cache == old(self).cache,
            final(self).dedupe == old(self).dedupe,
            final(self).index_dirty == old(self).index_dirty,
    {
        let repo = found.repo.as_str();
        let content = match bytes {
            Some(b) => b,
            None => {
                if found.is_root(digest) {
                    self.gc.mark_unsafe(repo);
                }
                return None;
            },
        };
        if read_manifest(content).is_none() {
            self.gc.mark_unsafe(repo);
            return None;
        }
        let refs = read_references(content);
        let ghost all = texts(refs@);
        let ghost t = self.meta.tables();
        let mut missing: Vec<String> = Vec::new();
        let mut i: usize = 0;
        assert(texts(missing@) =~= missing_edges(t, repo@, digest@, all.take(0)));
        while i < refs.len()
            invariant
                i <= refs@.len(),
                all == texts(refs@),
                self.wf(),
                t == self.meta.tables(),
                texts(missing@) == missing_edges(t, repo@, digest@, all.take(i as int)),
            decreases refs@.len() - i,
        {
            let ghost had = missing@;
            proof {
                assert(all.take(i + 1).drop_last() =~= all.take(i as int));
                assert(all.take(i + 1).last() == refs@[i as int]@);
            }
            let edges = self.meta.backrefs(repo, refs[i].as_str());
            if !has_text(&edges, digest) {
                missing.push(refs[i].clone());
                assert(texts(missing@) =~= texts(had).push(refs@[i as int]@));
            }
            i += 1;
        }
        assert(all.take(refs@.len() as int) =~= all);
        assert(texts(missing@).len() == missing@.len());
        if missing.len() == 0 {
            return None;
        }
        Some(
            MetaOp::PutBackrefs {
                repo: repo.to_owned(),
                manifest: digest.to_owned(),
                blobs: missing,
            },
        )
    }

    /// A stored blob, after the rebuild: it is a candidate unless something
    /// refers to it.
    pub fn seed_candidate(&mut self, repo: &str, digest: &str, now: u64)
        requires
            old(self).wf(),
        ensures
            final(self).wf(),
            final(self).gc@ == (if unreferenced(old(self).meta.tables(), repo@, digest@) && !old(
                self,
            ).gc@.roots.contains((repo@, digest@)) {
                stamped(old(self).gc@, (repo@, digest@), now)
            } else {
                old(self).gc@
            }),
            final(self).meta == old(self).meta,
            final(self).presence == old(self).presence,
            final(self).cache == old(self).cache,
            final(self).dedupe == old(self).dedupe,
            final(self).index_dirty == old(self).index_dirty,
    {
        if self.meta.manifest_media_type(repo, digest).is_some() || self.gc.is_root(
            repo,
            digest,
        ) {
            return;
        }
        let edges = self.meta.backrefs(repo, digest);
        assert(texts(edges@).len() == edges@.len());
        if edges.len() == 0 {
            self.gc.mark_at(repo, digest, now);
        }
    }

    /// The candidates that a sweep visits: none before the consistency check is
    /// complete.
    pub fn sweep_due(&self, now: u64) -> (r: Vec<BlobKey>)
        requires
            self.wf(),
        ensures
            key_pairs(r@).no_duplicates(),
            forall|k: (Text, Text)|
                #![trigger key_pairs(r@).contains(k)]
                key_pairs(r@).contains(k) <==> self.gc@.enabled && self.gc@.ready && due_at(
                    self.gc@,
                    k,
                    now,
                ),
    {
        if !self.gc.is_ready() {
            let r: Vec<BlobKey> = Vec::new();
            assert(key_pairs(r@) =~= Seq::<(Text, Text)>::empty());
            return r;
        }
        self.gc.due(now)
    }

    /// Decides what becomes of a candidate, as things stand now. One that is
    /// settled is no candidate any more; one of an unsafe repository stays.
    pub fn sweep_candidate(&mut self, repo: &str, digest: &str, now: u64) -> (r: SweepStep)
        requires
            old(self).wf(),
        ensures
            final(self).wf(),
            ({
                let k = (repo@, digest@);
                let m = old(self).gc@;
                let t = old(self).meta.tables();
                &&& r is Remove <==> is_garbage(m, t, k, now)
                &&& r matches SweepStep::Remove { dir, leaf } ==> (digest_parts(digest@) matches Some(
                    d,
                ) && texts(dir@) == blob_dir(repo@, d.0) && leaf@ == d.1 && all_safe(texts(dir@)))
                &&& final(self).gc@ == (if due_at(m, k, now) && is_settled(m, t, k) {
                    cleared(m, k)
                } else {
                    m
                })
            }),
            final(self).meta == old(self).meta,
            final(self).presence == old(self).presence,
            final(self).cache == old(self).cache,
            final(self).dedupe == old(self).dedupe,
            final(self).index_dirty == old(self).index_dirty,
    {
        if !self.gc.is_due(repo, digest, now) {
            return SweepStep::Keep;
        }
        if self.gc.is_root(repo, digest) {
            self.gc.clear(repo, digest);
            return SweepStep::Keep;
        }
        if self.gc.is_unsafe(repo) {
            return SweepStep::Keep;
        }
        let edges = self.meta.backrefs(repo, digest);
        assert(texts(edges@).len() == edges@.len());
        if edges.len() > 0 || self.meta.manifest_media_type(repo, digest).is_some() {
            self.gc.clear(repo, digest);
            return SweepStep::Keep;
        }
        if let Ok(d) = Digest::parse(digest) {
            if let Ok((dir, leaf)) = blob_dir_rel(repo, &d) {
                return SweepStep::Remove { dir, leaf };
            }
        }
        self.gc.clear(repo, digest);
        SweepStep::Keep
    }

    /// The file of a candidate that is to be removed was looked up. Without a
    /// regular file there is nothing to collect.
    pub fn sweep_stat(&mut self, repo: &str, digest: &str, stat: Stat) -> (r: SweepStat)
        requires
            old(self).wf(),
        ensures
            final(self).wf(),
            r == (match stat {
                Ok(Some(f)) => if f.0 {
                    SweepStat::Found(f.1)
                } else {
                    SweepStat::Gone
                },
                Ok(None) => SweepStat::Gone,
                Err(e) => if e.not_found {
                    SweepStat::Gone
                } else {
                    SweepStat::Failed
                },
            }),
            final(self).gc@ == (if r is Gone {
                cleared(old(self).gc@, (repo@, digest@))
            } else {
                old(self).gc@
            }),
            final(self).meta == old(self).meta,
            final(self).presence == old(self).presence,
            final(self).cache == old(self).cache,
            final(self).dedupe == old(self).dedupe,
            final(self).index_dirty == old(self).index_dirty,
    {
        match stat {
            Ok(found) => {
                if let Some((regular, size)) = found {
                    if regular {
                        return SweepStat::Found(size);
                    }
                }
            },
            Err(e) => {
                if !e.not_found {
                    return SweepStat::Failed;
                }
            },
        }
        self.gc.clear(repo, digest);
        SweepStat::Gone
    }

    /// The file of a candidate was removed, or not. A removed blob leaves every
    /// derived structure.
    pub fn sweep_removed(&mut self, repo: &str, digest: &str, removed: Result<(), IoFailure>) -> (r:
        SweepOutcome)
        requires
            old(self).wf(),
        ensures
            final(self).wf(),
            (match removed {
                Ok(_) => {
                    &&& r matches SweepOutcome::Collected { record } && op_model(record)
                        == removal_op(old(self).meta.tables(), repo@, digest@)
                    &&& final(self).dedupe.is_enabled() == old(self).dedupe.is_enabled()
                    &&& final(self).cache.limit() == old(self).cache.limit()
                    &&& final(self).cache.budget() == old(self).cache.budget()
                    &&& final(self).dedupe.locations() == unlocated(
                        old(self).dedupe.locations(),
                        repo@,
                        digest@,
                    )
                    &&& final(self).gc@ == cleared(old(self).gc@, (repo@, digest@))
                    &&& final(self).cache.entries() == without_key(
                        old(self).cache.entries(),
                        blob_key(repo@, digest@),
                    )
                    &&& final(self).presence.is_disabled() == old(self).presence.is_disabled()
                    &&& final(self).presence.has_dropped(
                        &old(self).presence,
                        blob_key(repo@, digest@),
                    )
                    &&& forall|k: Text| #[trigger]
                        final(self).presence.may_hold(k) ==> old(self).presence.may_hold(k)
                },
                Err(e) => {
                    &&& r == (if e.not_found {
                        SweepOutcome::Gone
                    } else {
                        SweepOutcome::Failed
                    })
                    &&& final(self).gc@ == (if e.not_found {
                        cleared(old(self).gc@, (repo@, digest@))
                    } else {
                        old(self).gc@
                    })
                    &&& final(self).presence == old(self).presence
                    &&& final(self).cache == old(self).cache
                    &&& final(self).dedupe == old(self).dedupe
                },
            }),
            final(self).meta == old(self).meta,
            final(self).index_dirty == old(self).index_dirty,
    {
        match removed {
            Ok(()) => {
                let record = self.blob_left(repo, digest);
                SweepOutcome::Collected { record }
            },
            Err(e) => {
                if e.not_found {
                    self.gc.clear(repo, digest);
                    SweepOutcome::Gone
                } else {
                    SweepOutcome::Failed
                }
            },
        }
    }
}

/// The manifests that were found and are not on record.
pub open spec fn unrecorded(t: Tables, repo: Text, found: Set<Text>) -> Set<(Text, Text)> {
    Set::new(
        |k: (Text, Text)| k.0 == repo && found.contains(k.1) && !t.media_types.contains_key(k),
    )
}

/// What a join holds.
proof fn lemma_joined(a: Seq<Text>, b: Seq<Text>)
    ensures
        forall|x: Text| #[trigger] joined(a, b).contains(x) <==> a.contains(x) || b.contains(x),
        a.is_prefix_of(joined(a, b)),
    decreases b.len(),
{
    if b.len() > 0 {
        let init = b.drop_last();
        lemma_joined(a, init);
        assert(b =~= init.push(b.last()));
        let j = joined(a, init);
        assert forall|x: Text| #[trigger] joined(a, b).contains(x) <==> a.contains(x)
            || b.contains(x) by {
            lemma_pushed(init, b.last(), x);
            lemma_pushed(j, b.last(), x);
        }
        assert(a =~= joined(a, b).subrange(0, a.len() as int));
    } else {
        assert(a =~= a.subrange(0, a.len() as int));
    }
}

/// Every missing edge is among the references, and no other reference lacks one.
proof fn lemma_missing_edges(t: Tables, repo: Text, manifest: Text, refs: Seq<Text>, x: Text)
    requires
        refs.contains(x),
        !backrefs_at(t.backrefs, (repo, x)).contains(manifest),
    ensures
        missing_edges(t, repo, manifest, refs).contains(x),
    decreases refs.len(),
{
    let init = refs.drop_last();
    let i = choose|i: int| 0 <= i < refs.len() && refs[i] == x;
    let m = missing_edges(t, repo, manifest, init);
    if i == refs.len() - 1 {
        lemma_pushed(m, x, x);
    } else {
        assert(init[i] == x);
        lemma_missing_edges(t, repo, manifest, init, x);
        lemma_pushed(m, refs.last(), x);
    }
}

/// Once the missing edges of a manifest that is read are recorded, everything it
/// references is pinned by it.
pub proof fn rebuilt_edges_are_complete(t: Tables, repo: Text, manifest: Text, bytes: Seq<u8>, x: Text)
    requires
        bytes.len() <= MANIFEST_CAP,
        references_in(bytes).contains(x),
    ensures
        ({
            let after = match edges_op(t, repo, manifest, bytes) {
                Some(op) => apply_op(t, op),
                None => t,
            };
            backrefs_at(after.backrefs, (repo, x)).contains(manifest)
        }),
{
    let refs = references_in(bytes);
    let blobs = missing_edges(t, repo, manifest, refs);
    assert(parsed(bytes) is Some) by {
        if parsed(bytes) is None {
            assert(refs.len() == 0);
        }
    }
    lemma_edges_recorded(t.backrefs, repo, manifest, blobs);
    if backrefs_at(t.backrefs, (repo, x)).contains(manifest) {
        if blobs.len() > 0 {
            assert(backrefs_at(with_backrefs(t.backrefs, repo, manifest, blobs), (repo, x)).contains(
                manifest,
            ));
        }
    } else {
        lemma_missing_edges(t, repo, manifest, refs, x);
        let i = choose|i: int| 0 <= i < blobs.len() && blobs[i] == x;
        assert(blobs[i] == x);
    }
}

/// A sweep collects no blob that a recorded manifest references, no recorded
/// manifest, no root, nothing of an unsafe repository, and nothing that was
/// wanted within the grace period.
pub proof fn live_blob_is_never_collected(m: GcModel, t: Tables, k: (Text, Text), now: u64)
    requires
        backrefs_at(t.backrefs, k).len() > 0 || t.media_types.contains_key(k) || m.roots.contains(k)
            || m.unsafe_repos.contains(k.0) || (m.candidates.contains_key(k) && m.delay > 0 && now
            < m.candidates[k] + m.delay),
    ensures
        !is_garbage(m, t, k, now),
{
}

/// A complete rebuild finds exactly the manifests that follow from the roots: the
/// roots, and the children of what could be read.
pub proof fn rebuild_finds_what_follows(found: GcRebuild, s: Set<Text>)
    requires
        found.wf(),
        found.waiting().len() == 0,
    ensures
        is_closed(found.all(), found.roots(), found.seen()),
        forall|d: Text| #[trigger] found.all().contains(d) ==> found.seen().contains_key(d),
        is_closed(s, found.roots(), found.seen()) ==> found.all().subset_of(s),
{
    assert forall|d: Text| #[trigger] found.all().contains(d) implies found.seen().contains_key(
        d,
    ) by {
        assert(!found.waiting().contains(d));
    }
}

/// One child more.
proof fn lemma_children(entries: Seq<JsonModel>, i: int)
    requires
        0 <= i < entries.len(),
    ensures
        forall|d: Text| #[trigger]
            child_digests(entries.take(i + 1)).contains(d) <==> child_digests(
                entries.take(i),
            ).contains(d) || digest_of(entries[i]) == Some(d),
{
    let a = entries.take(i);
    let b = entries.take(i + 1);
    assert forall|d: Text| #[trigger] child_digests(b).contains(d) <==> child_digests(a).contains(d)
        || digest_of(entries[i]) == Some(d) by {
        if child_digests(b).contains(d) {
            let j = choose|j: int|
                #![trigger b[j]]
                0 <= j < b.len() && digest_of(b[j]) == Some(d);
            if j < i {
                assert(a[j] == b[j]);
            }
        }
        if child_digests(a).contains(d) {
            let j = choose|j: int|
                #![trigger a[j]]
                0 <= j < a.len() && digest_of(a[j]) == Some(d);
            assert(b[j] == a[j]);
        }
        assert(b[i] == entries[i]);
    }
}

} // verus!
