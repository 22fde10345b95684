//! The in-memory state: the whole index, or the delta over a snapshot.

use crate::lists::{has_text, without_text};
use crate::metadata::model::{
    apply_delta, backrefs_at, backrefs_ok, hides, no_delta, no_tables, tags_at, with_backref,
    with_backrefs, without, without_backrefs, Delta, Tables,
};
use crate::metadata::referrers::SubjectReferrers;
use crate::metadata::snapshot::{backref_rows, media_rows, tag_rows};
use crate::metadata::{BlobChecksum, MetaOp};
use crate::page::texts;
use crate::table::{kept, lemma_row_at, lemma_row_of, Table};
use crate::text::{same, Text};
use vstd::prelude::*;

verus! {

broadcast use vstd::string::group_string_axioms;

/// The referrers of all subjects as one map.
pub open spec fn flat(m: Map<(Text, Text), SubjectReferrers>) -> Map<(Text, Text, Text), Seq<u8>> {
    Map::new(
        |k: (Text, Text, Text)|
            m.contains_key((k.0, k.1)) && m[(k.0, k.1)].model().contains_key(k.2),
        |k: (Text, Text, Text)| m[(k.0, k.1)].model()[k.2],
    )
}

/// The mutable in-memory state.
#[derive(Debug)]
pub struct State {
    pub tags: Table<(String, String), (String, String)>,
    pub media_types: Table<(String, String), String>,
    pub referrers: Table<(String, String), SubjectReferrers>,
    pub backrefs: Table<(String, String), Vec<String>>,
    pub checksums: Table<(String, String), BlobChecksum>,
    /// Manifests deleted from the base.
    pub deleted_digests: Table<(String, String), ()>,
    /// Tags that went with a manifest that this state had put them at.
    pub deleted_tags: Table<(String, String), ()>,
    /// Checksums deleted from the base.
    pub deleted_checksums: Table<(String, String), ()>,
}

/// An owned pair key.
pub fn pair(a: &str, b: &str) -> (r: (String, String))
    ensures
        r.deep_view() == (a@, b@),
        r.0@ == a@,
        r.1@ == b@,
{
    (a.to_owned(), b.to_owned())
}

impl State {
    /// Every table is in order, no subject is kept without referrers, and every
    /// backref entry names manifests, each once.
    pub open spec fn wf(self) -> bool {
        &&& self.tags.wf()
        &&& self.media_types.wf()
        &&& self.referrers.wf()
        &&& self.backrefs.wf()
        &&& self.checksums.wf()
        &&& self.deleted_digests.wf()
        &&& self.deleted_tags.wf()
        &&& self.deleted_checksums.wf()
        &&& forall|k: (Text, Text)|
            #![trigger self.referrers.map()[k]]
            self.referrers.map().contains_key(k) ==> self.referrers.map()[k].model()
                != Map::<Text, Seq<u8>>::empty()
        &&& backrefs_ok(self.delta().tables.backrefs)
    }

    /// What the state holds, as a delta.
    pub open spec fn delta(self) -> Delta {
        Delta {
            tables: Tables {
                tags: tag_rows(self.tags.map()),
                media_types: media_rows(self.media_types.map()),
                referrers: flat(self.referrers.map()),
                backrefs: backref_rows(self.backrefs.map()),
                checksums: self.checksums.map(),
            },
            deleted_digests: self.deleted_digests.map().dom(),
            deleted_tags: self.deleted_tags.map().dom(),
            deleted_checksums: self.deleted_checksums.map().dom(),
        }
    }

    /// A state that holds nothing.
    pub fn new() -> (r: State)
        ensures
            r.wf(),
            r.delta() == no_delta(),
    {
        let r = State {
            tags: Table::new(),
            media_types: Table::new(),
            referrers: Table::new(),
            backrefs: Table::new(),
            checksums: Table::new(),
            deleted_digests: Table::new(),
            deleted_tags: Table::new(),
            deleted_checksums: Table::new(),
        };
        assert(r.delta() =~= no_delta()) by {
            assert(r.delta().tables =~= no_tables());
        }
        r
    }

    /// Records that `manifest` references one blob.
    fn add_backref(&mut self, repo: &str, manifest: &str, blob: &str)
        requires
            old(self).wf(),
        ensures
            final(self).wf(),
            final(self).delta() == (Delta {
                tables: Tables {
                    backrefs: with_backref(
                        old(self).delta().tables.backrefs,
                        repo@,
                        manifest@,
                        blob@,
                    ),
                    ..old(self).delta().tables
                },
                ..old(self).delta()
            }),
    {
        let ghost m = self.delta().tables.backrefs;
        let ghost rows = self.backrefs.map();
        let ghost k = (repo@, blob@);
        let key = pair(repo, blob);
        let known = match self.backrefs.get(&key) {
            Some(set) => has_text(set, manifest),
            None => false,
        };
        if !known {
            let set = self.backrefs.entry(key, Vec::new());
            let ghost set0 = set@;
            set.push(manifest.to_owned());
            proof {
                assert(texts(set0) =~= backrefs_at(m, k));
                assert(texts(set@) =~= backrefs_at(m, k).push(manifest@));
            }
        }
        proof {
            let after = self.delta().tables.backrefs;
            assert(after =~= with_backref(m, repo@, manifest@, blob@));
            assert(backrefs_ok(after)) by {
                assert forall|x: (Text, Text)| #![trigger after[x]] after.contains_key(x) implies
                    after[x].len() > 0 && after[x].no_duplicates() by {
                    if x == k && !known {
                        let s = backrefs_at(m, k);
                        assert(s.no_duplicates()) by {
                            if m.contains_key(k) {
                                assert(m[k].no_duplicates());
                            }
                        }
                        assert(after[x] == s.push(manifest@));
                        assert(!s.contains(manifest@));
                    } else {
                        assert(m.contains_key(x));
                        assert(after[x] == m[x]);
                    }
                }
            }
        }
    }

    /// Records that `manifest` references every one of `blobs`.
    pub(crate) fn add_backrefs(&mut self, repo: &str, manifest: &str, blobs: &Vec<String>)
        requires
            old(self).wf(),
        ensures
            final(self).wf(),
            final(self).delta() == (Delta {
                tables: Tables {
                    backrefs: with_backrefs(
                        old(self).delta().tables.backrefs,
                        repo@,
                        manifest@,
                        texts(blobs@),
                    ),
                    ..old(self).delta().tables
                },
                ..old(self).delta()
            }),
    {
        let ghost d = self.delta();
        let mut i: usize = 0;
        assert(texts(blobs@).take(0) =~= Seq::empty());
        assert(self.delta() =~= d);
        while i < blobs.len()
            invariant
                i <= blobs@.len(),
                self.wf(),
                self.delta() == (Delta {
                    tables: Tables {
                        backrefs: with_backrefs(
                            d.tables.backrefs,
                            repo@,
                            manifest@,
                            texts(blobs@).take(i as int),
                        ),
                        ..d.tables
                    },
                    ..d
                }),
            decreases blobs@.len() - i,
        {
            let ghost next = texts(blobs@).take(i + 1);
            proof {
                assert(next.drop_last() =~= texts(blobs@).take(i as int));
                assert(next.last() == blobs@[i as int]@);
            }
            self.add_backref(repo, manifest, blobs[i].as_str());
            i += 1;
        }
        assert(texts(blobs@).take(blobs@.len() as int) =~= texts(blobs@));
    }

    /// Records one referrer of `subject`.
    pub(crate) fn add_referrer(
        &mut self,
        repo: &str,
        subject: &str,
        referrer: &str,
        descriptor: &[u8],
    )
        requires
            old(self).wf(),
        ensures
            final(self).wf(),
            final(self).delta() == (Delta {
                tables: Tables {
                    referrers: old(self).delta().tables.referrers.insert(
                        (repo@, subject@, referrer@),
                        descriptor@,
                    ),
                    ..old(self).delta().tables
                },
                ..old(self).delta()
            }),
    {
        let ghost m = self.referrers.map();
        let ghost k = (repo@, subject@);
        let fresh = SubjectReferrers::new();
        let refs = self.referrers.entry(pair(repo, subject), fresh);
        let ghost refs0 = refs.model();
        refs.insert(referrer, descriptor);
        proof {
            let after = self.referrers.map();
            assert(after == m.insert(k, *refs));
            assert(refs.model().contains_key(referrer@));
            assert(flat(after) =~= flat(m).insert((repo@, subject@, referrer@), descriptor@));
        }
    }

    /// Whether `digest` was deleted from the base of `repo`.
    pub fn is_digest_deleted(&self, repo: &str, digest: &str) -> (r: bool)
        requires
            self.wf(),
        ensures
            r == self.delta().deleted_digests.contains((repo@, digest@)),
    {
        self.deleted_digests.contains(&pair(repo, digest))
    }

    /// Whether a tag of the base is hidden: it was deleted, or the manifest that
    /// it is at.
    pub fn is_tag_hidden(&self, repo: &str, tag: &str, digest: &str) -> (r: bool)
        requires
            self.wf(),
        ensures
            r == hides(self.delta(), (repo@, tag@), digest@),
    {
        self.is_digest_deleted(repo, digest) || self.deleted_tags.contains(&pair(repo, tag))
    }

    /// Remembers the tags of `repo` at `digest` as deleted.
    fn bury_tags(&mut self, repo: &str, digest: &str)
        requires
            old(self).wf(),
        ensures
            final(self).wf(),
            final(self).delta() == (Delta {
                deleted_tags: old(self).delta().deleted_tags.union(
                    tags_at(old(self).delta().tables.tags, repo@, digest@),
                ),
                ..old(self).delta()
            }),
    {
        let ghost before = *self;
        let ghost rows = self.tags.rows();
        let ghost at = tags_at(self.delta().tables.tags, repo@, digest@);
        let mut i: usize = 0;
        while i < self.tags.len()
            invariant
                before.wf(),
                self.deleted_tags.wf(),
                rows == before.tags.rows(),
                at == tags_at(before.delta().tables.tags, repo@, digest@),
                i <= rows.len(),
                *self == (State { deleted_tags: self.deleted_tags, ..before }),
                forall|k: (Text, Text)| #[trigger]
                    self.deleted_tags.map().contains_key(k)
                        ==> before.deleted_tags.map().contains_key(k) || at.contains(k),
                forall|k: (Text, Text)| #[trigger]
                    before.deleted_tags.map().contains_key(k)
                        ==> self.deleted_tags.map().contains_key(k),
                forall|j: int|
                    #![trigger rows[j]]
                    0 <= j < i && at.contains(rows[j].0.deep_view())
                        ==> self.deleted_tags.map().contains_key(rows[j].0.deep_view()),
            decreases rows.len() - i,
        {
            let k = self.tags.key_at(i);
            let v = self.tags.value_at(i);
            proof {
                lemma_row_at(rows, i as int);
            }
            if same(k.0.as_str(), repo) && same(v.0.as_str(), digest) {
                let key = pair(k.0.as_str(), k.1.as_str());
                self.deleted_tags.insert(key, ());
            }
            i += 1;
        }
        proof {
            assert forall|k: (Text, Text)| at.contains(k) implies
                self.deleted_tags.map().contains_key(k) by {
                let j = lemma_row_of(rows, k);
            }
            assert(self.delta().deleted_tags =~= before.delta().deleted_tags.union(at));
            assert(self.delta() =~= (Delta {
                deleted_tags: before.delta().deleted_tags.union(at),
                ..before.delta()
            }));
        }
    }

    /// Drops `digest` as a referrer of any subject of `repo`.
    fn drop_referrer(&mut self, repo: &str, digest: &str)
        requires
            old(self).wf(),
        ensures
            final(self).wf(),
            final(self).delta() == (Delta {
                tables: Tables {
                    referrers: kept(
                        old(self).delta().tables.referrers,
                        |k: (Text, Text, Text), v: Seq<u8>| !(k.0 == repo@ && k.2 == digest@),
                    ),
                    ..old(self).delta().tables
                },
                ..old(self).delta()
            }),
    {
        let ghost orig = self.referrers.rows();
        let ghost m = self.referrers.map();
        let ghost before = *self;
        let mut i: usize = 0;
        while i < self.referrers.len()
            invariant
                self.referrers.wf(),
                i <= orig.len(),
                self.referrers.rows().len() == orig.len(),
                self.tags == before.tags,
                self.media_types == before.media_types,
                self.backrefs == before.backrefs,
                self.checksums == before.checksums,
                self.deleted_digests == before.deleted_digests,
                self.deleted_tags == before.deleted_tags,
                self.deleted_checksums == before.deleted_checksums,
                forall|j: int|
                    #![trigger self.referrers.rows()[j]]
                    #![trigger orig[j]]
                    0 <= j < orig.len() ==> self.referrers.rows()[j].0 == orig[j].0,
                forall|j: int|
                    #![trigger self.referrers.rows()[j]]
                    #![trigger orig[j]]
                    0 <= j < i ==> self.referrers.rows()[j].1.model() == (if orig[j].0.0@
                        == repo@ {
                        orig[j].1.model().remove(digest@)
                    } else {
                        orig[j].1.model()
                    }),
                forall|j: int|
                    #![trigger self.referrers.rows()[j]]
                    #![trigger orig[j]]
                    i <= j < orig.len() ==> self.referrers.rows()[j] == orig[j],
            decreases orig.len() - i,
        {
            if same(self.referrers.key_at(i).0.as_str(), repo) {
                let refs = self.referrers.value_mut(i);
                refs.remove(digest);
            }
            i += 1;
        }
        let ghost mid = self.referrers.rows();
        let ghost nonempty = |k: (Text, Text), v: SubjectReferrers|
            v.model() != Map::<Text, Seq<u8>>::empty();
        self.referrers.retain(
            |k: &(String, String), v: &SubjectReferrers| -> (b: bool)
                ensures
                    b == (v.model() != Map::<Text, Seq<u8>>::empty())
                { !v.is_empty() },
            Ghost(nonempty),
        );
        proof {
            let after = self.referrers.map();
            let p = |k: (Text, Text, Text), v: Seq<u8>| !(k.0 == repo@ && k.2 == digest@);
            assert forall|k: (Text, Text, Text)|
                #![trigger flat(after).contains_key(k)]
                #![trigger kept(flat(m), p).contains_key(k)]
                flat(after).contains_key(k) == kept(flat(m), p).contains_key(k) && (flat(
                    after,
                ).contains_key(k) ==> flat(after)[k] == kept(flat(m), p)[k]) by {
                let s = (k.0, k.1);
                if after.contains_key(s) {
                    let j = lemma_row_of(mid, s);
                    lemma_row_at(orig, j);
                }
                if m.contains_key(s) {
                    let j = lemma_row_of(orig, s);
                    lemma_row_at(mid, j);
                    if mid[j].1.model().contains_key(k.2) {
                        assert(mid[j].1.model() != Map::<Text, Seq<u8>>::empty());
                    }
                }
            }
            assert(flat(after) =~= kept(flat(m), p));
        }
    }

    /// Drops `digest` from the backrefs of every blob of `repo`.
    fn drop_backrefs(&mut self, repo: &str, digest: &str)
        requires
            old(self).wf(),
        ensures
            final(self).wf(),
            final(self).delta() == (Delta {
                tables: Tables {
                    backrefs: without_backrefs(old(self).delta().tables.backrefs, repo@, digest@),
                    ..old(self).delta().tables
                },
                ..old(self).delta()
            }),
    {
        let ghost orig = self.backrefs.rows();
        let ghost m = self.delta().tables.backrefs;
        let ghost before = *self;
        let mut i: usize = 0;
        while i < self.backrefs.len()
            invariant
                self.backrefs.wf(),
                i <= orig.len(),
                self.backrefs.rows().len() == orig.len(),
                self.tags == before.tags,
                self.media_types == before.media_types,
                self.referrers == before.referrers,
                self.checksums == before.checksums,
                self.deleted_digests == before.deleted_digests,
                self.deleted_tags == before.deleted_tags,
                self.deleted_checksums == before.deleted_checksums,
                forall|j: int|
                    #![trigger self.backrefs.rows()[j]]
                    #![trigger orig[j]]
                    0 <= j < orig.len() ==> self.backrefs.rows()[j].0 == orig[j].0,
                forall|j: int|
                    #![trigger self.backrefs.rows()[j]]
                    #![trigger orig[j]]
                    0 <= j < i ==> texts(self.backrefs.rows()[j].1@) == (if orig[j].0.0@ == repo@ {
                        without(texts(orig[j].1@), digest@)
                    } else {
                        texts(orig[j].1@)
                    }),
                forall|j: int|
                    #![trigger self.backrefs.rows()[j]]
                    #![trigger orig[j]]
                    i <= j < orig.len() ==> self.backrefs.rows()[j] == orig[j],
            decreases orig.len() - i,
        {
            if same(self.backrefs.key_at(i).0.as_str(), repo) {
                let left = without_text(self.backrefs.value_at(i), digest);
                let set = self.backrefs.value_mut(i);
                *set = left;
            }
            i += 1;
        }
        let ghost mid = self.backrefs.rows();
        self.backrefs.retain(
            |k: &(String, String), v: &Vec<String>| -> (b: bool)
                ensures
                    b == (v@.len() > 0)
                { v.len() > 0 },
            Ghost(|k: (Text, Text), v: Vec<String>| v@.len() > 0),
        );
        proof {
            let after = self.delta().tables.backrefs;
            let want = without_backrefs(m, repo@, digest@);
            assert forall|k: (Text, Text)|
                #![trigger after.contains_key(k)]
                #![trigger want.contains_key(k)]
                after.contains_key(k) == want.contains_key(k) && (after.contains_key(k)
                    ==> after[k] == want[k]) by {
                if after.contains_key(k) {
                    let j = lemma_row_of(mid, k);
                    lemma_row_at(orig, j);
                    assert(texts(mid[j].1@).len() == mid[j].1@.len());
                }
                if m.contains_key(k) {
                    let j = lemma_row_of(orig, k);
                    lemma_row_at(mid, j);
                    assert(texts(mid[j].1@).len() == mid[j].1@.len());
                    assert(m[k].len() > 0);
                }
            }
            assert(after =~= want);
            assert(backrefs_ok(after)) by {
                assert forall|k: (Text, Text)| #![trigger after[k]] after.contains_key(k) implies
                    after[k].len() > 0 && after[k].no_duplicates() by {
                    assert(m.contains_key(k) && m[k].no_duplicates());
                    lemma_filter_distinct(m[k], |x: Text| x != digest@);
                }
            }
        }
    }

    /// Applies a mutation.
    pub fn apply_in_ram(&mut self, op: &MetaOp)
        requires
            old(self).wf(),
        ensures
            final(self).wf(),
            final(self).delta() == apply_delta(old(self).delta(), op.model()),
    {
        let ghost d = self.delta();
        match op {
            MetaOp::PutManifest { repo, digest, media_type, tag, references, referrer } => {
                self.media_types.insert(pair(repo, digest), media_type.clone());
                if let Some(tag) = tag {
                    self.tags.insert(pair(repo, tag), (digest.clone(), media_type.clone()));
                    assert(self.delta().tables.tags =~= d.tables.tags.insert(
                        (repo@, tag@),
                        (digest@, media_type@),
                    ));
                }
                assert(self.delta().tables.media_types =~= d.tables.media_types.insert(
                    (repo@, digest@),
                    media_type@,
                ));
                self.add_backrefs(repo, digest, references);
                if let Some((subject, descriptor)) = referrer {
                    self.add_referrer(repo, subject, digest, descriptor.as_slice());
                }
            },
            MetaOp::DeleteManifest { repo, digest } => {
                let _ = self.checksums.remove(&pair(repo, digest));
                self.deleted_checksums.insert(pair(repo, digest), ());
                let _ = self.media_types.remove(&pair(repo, digest));
                self.deleted_digests.insert(pair(repo, digest), ());
                self.bury_tags(repo, digest);
                self.tags.retain(
                    |k: &(String, String), v: &(String, String)| -> (b: bool)
                        ensures
                            b == !(k.0@ == repo@ && v.0@ == digest@)
                        { !(same(k.0.as_str(), repo) && same(v.0.as_str(), digest)) },
                    Ghost(
                        |k: (Text, Text), v: (String, String)| !(k.0 == repo@ && v.0@ == digest@),
                    ),
                );
                proof {
                    assert(self.delta().tables.tags =~= kept(
                        d.tables.tags,
                        |k: (Text, Text), v: (Text, Text)| !(k.0 == repo@ && v.0 == digest@),
                    ));
                    assert(self.delta().tables.media_types =~= d.tables.media_types.remove(
                        (repo@, digest@),
                    ));
                    assert(self.delta().deleted_digests =~= d.deleted_digests.insert(
                        (repo@, digest@),
                    ));
                    assert(self.delta().deleted_checksums =~= d.deleted_checksums.insert(
                        (repo@, digest@),
                    ));
                }
                self.drop_referrer(repo, digest);
                self.drop_backrefs(repo, digest);
            },
            MetaOp::PutBackrefs { repo, manifest, blobs } => {
                self.add_backrefs(repo, manifest, blobs);
            },
            MetaOp::PutReferrer { repo, subject, referrer, descriptor } => {
                self.add_referrer(repo, subject, referrer, descriptor.as_slice());
            },
            MetaOp::PutChecksum { repo, digest, crc32c, size } => {
                let _ = self.deleted_checksums.remove(&pair(repo, digest));
                self.checksums.insert(
                    pair(repo, digest),
                    BlobChecksum { crc32c: *crc32c, size: *size },
                );
                assert(self.delta().deleted_checksums =~= d.deleted_checksums.remove(
                    (repo@, digest@),
                ));
            },
            MetaOp::DeleteBlob { repo, digest } => {
                let _ = self.checksums.remove(&pair(repo, digest));
                self.deleted_checksums.insert(pair(repo, digest), ());
                assert(self.delta().deleted_checksums =~= d.deleted_checksums.insert(
                    (repo@, digest@),
                ));
            },
        }
        assert(self.delta() =~= apply_delta(d, op.model()));
    }
}

/// Filtering keeps a sequence free of duplicates.
pub proof fn lemma_filter_distinct(s: Seq<Text>, f: spec_fn(Text) -> bool)
    requires
        s.no_duplicates(),
    ensures
        s.filter(f).no_duplicates(),
    decreases s.len(),
{
    reveal(Seq::filter);
    if s.len() > 0 {
        let init = s.drop_last();
        assert(init.no_duplicates());
        lemma_filter_distinct(init, f);
        if f(s.last()) {
            assert(!init.filter(f).contains(s.last())) by {
                if init.filter(f).contains(s.last()) {
                    lemma_filter_member(init, f, s.last());
                    let i = choose|i: int| 0 <= i < init.len() && init[i] == s.last();
                    assert(s[i] == s[s.len() - 1]);
                }
            }
        }
    }
}

/// What filtering leaves: the members that satisfy the test.
pub proof fn lemma_filter_member(s: Seq<Text>, f: spec_fn(Text) -> bool, x: Text)
    ensures
        s.filter(f).contains(x) <==> s.contains(x) && f(x),
    decreases s.len(),
{
    reveal(Seq::filter);
    if s.len() > 0 {
        let init = s.drop_last();
        lemma_filter_member(init, f, x);
        if s.contains(x) {
            let i = choose|i: int| 0 <= i < s.len() && s[i] == x;
            if i < init.len() {
                assert(init[i] == x);
            }
        }
        if init.contains(x) {
            let i = choose|i: int| 0 <= i < init.len() && init[i] == x;
            assert(s[i] == x);
        }
        if f(s.last()) {
            let sub = init.filter(f);
            if sub.contains(x) {
                let i = choose|i: int| 0 <= i < sub.len() && sub[i] == x;
                assert(sub.push(s.last())[i] == x);
            }
            assert(sub.push(s.last())[sub.len() as int] == s.last());
        }
    }
}

} // verus!
