//! The key-value engine over tables in memory: every query is a seek, and every
//! mutation one run of table writes.

use crate::block::{is_tail, page_of_block, start_after, tails, tails_of_block};
use crate::metadata::engine_laws::{apply_all_ordered, engines_agree, engines_agree_on_every_run};
use crate::metadata::image::{image_of, image_ops, op_models};
use crate::metadata::model::{no_tables, same_index, Op, Tables};
use crate::metadata::query::{
    has_repo, is_full_listing, listed_subjects, listed_tags, referrers_of, repos_of, subjects_of,
};
use crate::metadata::redb::{apply_op, decode_checksum};
use crate::metadata::redb_model::{
    apply_ordered, has_manifest, indexed, lemma_sorted_is, manifests_of, raw_tables, raw_write,
    raw_writes, reads_match, subject_names, type_at, OpReads, Raw, TableWrite,
};
use crate::metadata::referrers::{listed, opt_string, referrer_digests};
use crate::metadata::snapshot::{media_rows, tag_rows, SnapshotState};
use crate::metadata::state::pair;
use crate::metadata::state_laws::{image_reproduces_the_snapshot, tags_known};
use crate::metadata::store::MetadataStore;
use crate::metadata::{BlobChecksum, MetaOp, Referrer};
use crate::page::{increasing, is_page, left_over, opt_text, page_of_prefix, seconds, texts, Page};
use crate::table::{keys_of, lemma_row_at, lemma_row_of, range_of_first, Table};
use crate::text::{same, text_lt_irreflexive, Text};
use vstd::prelude::*;

verus! {

broadcast use vstd::string::group_string_axioms;

/// The engine's tables.
pub struct RedbMetadataStore {
    tags: Table<(String, String), (String, String)>,
    tags_of: Table<(String, String, String), ()>,
    media_types: Table<(String, String), String>,
    referrers: Table<(String, String, String), Vec<u8>>,
    types: Table<(String, String, String), String>,
    typed: Table<(String, String, String, String), ()>,
    subjects: Table<(String, String, String), ()>,
    backrefs: Table<(String, String, String), ()>,
    edges: Table<(String, String, String), ()>,
    checksums: Table<(String, String), Vec<u8>>,
}

/// A key of three parts.
fn triple(a: &str, b: &str, c: &str) -> (r: (String, String, String))
    ensures
        r.deep_view() == (a@, b@, c@),
{
    (a.to_owned(), b.to_owned(), c.to_owned())
}

/// A key of four parts.
fn quad(a: &str, b: &str, c: &str, d: &str) -> (r: (String, String, String, String))
    ensures
        r.deep_view() == (a@, b@, c@, d@),
{
    (a.to_owned(), b.to_owned(), c.to_owned(), d.to_owned())
}

/// The model of byte values.
pub open spec fn byte_rows<K>(m: Map<K, Vec<u8>>) -> Map<K, Seq<u8>> {
    m.map_values(|v: Vec<u8>| v@)
}

/// The model of text values.
pub open spec fn text_rows<K>(m: Map<K, String>) -> Map<K, Text> {
    m.map_values(|v: String| v@)
}

/// The last parts of three-part keys under two given parts.
pub open spec fn thirds(keys: Set<(Text, Text, Text)>, a: Text, b: Text) -> Set<Text> {
    Set::new(|x: Text| keys.contains((a, b, x)))
}

/// The last parts of four-part keys under three given parts.
pub open spec fn fourths(keys: Set<(Text, Text, Text, Text)>, a: Text, b: Text, c: Text) -> Set<Text> {
    Set::new(|x: Text| keys.contains((a, b, c, x)))
}

/// The last parts under a pair's prefix.
proof fn lemma_seconds(keys: Set<(Text, Text)>, low: (Text, Text))
    ensures
        tails::<(String, String)>(keys, low) == seconds(keys, low.0),
{
    let t = tails::<(String, String)>(keys, low);
    assert forall|x: Text| t.contains(x) <==> seconds(keys, low.0).contains(x) by {
        if t.contains(x) {
            let k = choose|k: (Text, Text)| is_tail::<(String, String)>(keys, low, k, x);
            assert(seq![k.0][0] == seq![low.0][0]);
        }
        if keys.contains((low.0, x)) {
            assert(is_tail::<(String, String)>(keys, low, (low.0, x), x));
        }
    }
    assert(t =~= seconds(keys, low.0));
}

/// The last parts under a triple's prefix.
proof fn lemma_thirds(keys: Set<(Text, Text, Text)>, low: (Text, Text, Text))
    ensures
        tails::<(String, String, String)>(keys, low) == thirds(keys, low.0, low.1),
{
    let t = tails::<(String, String, String)>(keys, low);
    assert forall|x: Text| t.contains(x) <==> thirds(keys, low.0, low.1).contains(x) by {
        if t.contains(x) {
            let k = choose|k: (Text, Text, Text)|
                is_tail::<(String, String, String)>(keys, low, k, x);
            let p = seq![k.0, k.1];
            let q = seq![low.0, low.1];
            assert(p[0] == q[0] && p[1] == q[1]);
        }
        if keys.contains((low.0, low.1, x)) {
            assert(is_tail::<(String, String, String)>(keys, low, (low.0, low.1, x), x));
        }
    }
    assert(t =~= thirds(keys, low.0, low.1));
}

/// The last parts under a quadruple's prefix.
proof fn lemma_fourths(keys: Set<(Text, Text, Text, Text)>, low: (Text, Text, Text, Text))
    ensures
        tails::<(String, String, String, String)>(keys, low) == fourths(
            keys,
            low.0,
            low.1,
            low.2,
        ),
{
    let t = tails::<(String, String, String, String)>(keys, low);
    let want = fourths(keys, low.0, low.1, low.2);
    assert forall|x: Text| t.contains(x) <==> want.contains(x) by {
        if t.contains(x) {
            let k = choose|k: (Text, Text, Text, Text)|
                is_tail::<(String, String, String, String)>(keys, low, k, x);
            let p = seq![k.0, k.1, k.2];
            let q = seq![low.0, low.1, low.2];
            assert(p[0] == q[0] && p[1] == q[1] && p[2] == q[2]);
        }
        if keys.contains((low.0, low.1, low.2, x)) {
            assert(is_tail::<(String, String, String, String)>(
                keys,
                low,
                (low.0, low.1, low.2, x),
                x,
            ));
        }
    }
    assert(t =~= want);
}

/// A page of one item tells whether there are any.
proof fn lemma_first_page(items: Seq<Text>, more: bool, keys: Set<Text>)
    requires
        is_page(items, more, keys, None, 1),
    ensures
        items.len() == 0 <==> keys =~= Set::<Text>::empty(),
{
    if items.len() == 0 {
        assert forall|k: Text| !keys.contains(k) by {
            if keys.contains(k) {
                assert(left_over(k, items, keys, None));
            }
        }
    } else {
        assert(keys.contains(items[0]));
    }
}

/// Increasing texts occur once each.
proof fn lemma_increasing_distinct(s: Seq<Text>)
    requires
        increasing(s),
    ensures
        s.no_duplicates(),
{
    assert forall|i: int, j: int| 0 <= i < s.len() && 0 <= j < s.len() && i != j implies s[i]
        != s[j] by {
        text_lt_irreflexive(s[i]);
        if i < j {
            assert(crate::text::text_lt(s[i], s[j]));
        } else {
            assert(crate::text::text_lt(s[j], s[i]));
        }
    }
}

impl RedbMetadataStore {
    /// What the tables hold.
    pub closed spec fn raw(&self) -> Raw {
        Raw {
            tags: tag_rows(self.tags.map()),
            tags_of: self.tags_of.map().dom(),
            media_types: media_rows(self.media_types.map()),
            referrers: byte_rows(self.referrers.map()),
            types: text_rows(self.types.map()),
            typed: self.typed.map().dom(),
            subjects: self.subjects.map().dom(),
            backrefs: self.backrefs.map().dom(),
            edges: self.edges.map().dom(),
            checksums: byte_rows(self.checksums.map()),
        }
    }

    /// Every table is in order.
    pub closed spec fn ordered(&self) -> bool {
        &&& self.tags.wf()
        &&& self.tags_of.wf()
        &&& self.media_types.wf()
        &&& self.referrers.wf()
        &&& self.types.wf()
        &&& self.typed.wf()
        &&& self.subjects.wf()
        &&& self.backrefs.wf()
        &&& self.edges.wf()
        &&& self.checksums.wf()
    }

    /// A store that holds nothing.
    pub fn open() -> (r: RedbMetadataStore)
        ensures
            r.wf(),
            r.tables() == no_tables(),
    {
        let r = RedbMetadataStore {
            tags: Table::new(),
            tags_of: Table::new(),
            media_types: Table::new(),
            referrers: Table::new(),
            types: Table::new(),
            typed: Table::new(),
            subjects: Table::new(),
            backrefs: Table::new(),
            edges: Table::new(),
            checksums: Table::new(),
        };
        proof {
            assert(r.raw().tags_of =~= Set::empty());
            assert(r.raw().subjects =~= Set::empty());
            assert(r.raw().typed =~= Set::empty());
            assert(r.raw().backrefs =~= Set::empty());
            assert(r.raw().edges =~= Set::empty());
            let t = r.tables();
            assert(t.tags =~= no_tables().tags);
            assert(t.media_types =~= no_tables().media_types);
            assert(t.referrers =~= no_tables().referrers);
            assert(t.checksums =~= no_tables().checksums);
            assert(t.backrefs =~= no_tables().backrefs);
            assert(t =~= no_tables());
        }
        r
    }

    /// A store with the rows that a database holds, in whatever order they were
    /// read.
    pub fn restored(rows: &SnapshotState) -> (r: RedbMetadataStore)
        requires
            rows.wf(),
        ensures
            r.wf(),
            r.tables() == apply_all_ordered(no_tables(), image_of(*rows)),
            tags_known(rows.tables()) ==> same_index(rows.tables(), r.tables()),
    {
        let ops = image_ops(rows);
        let ghost all = op_models(ops@);
        let mut store = RedbMetadataStore::open();
        let mut i: usize = 0;
        assert(all.take(0) =~= Seq::<Op>::empty());
        while i < ops.len()
            invariant
                all == op_models(ops@),
                i <= ops@.len(),
                store.wf(),
                store.tables() == apply_all_ordered(no_tables(), all.take(i as int)),
            decreases ops@.len() - i,
        {
            store.carry_out(&ops[i]);
            proof {
                let next = all.take(i + 1);
                assert(next.drop_last() =~= all.take(i as int));
                assert(next.last() == ops@[i as int].model());
            }
            i += 1;
        }
        proof {
            assert(all.take(i as int) =~= all);
            if tags_known(rows.tables()) {
                image_reproduces_the_snapshot(*rows);
                engines_agree_on_every_run(all);
            }
        }
        store
    }

    /// Applies a mutation.
    fn carry_out(&mut self, op: &MetaOp)
        requires
            old(self).wf(),
        ensures
            final(self).wf(),
            final(self).tables() == apply_ordered(old(self).tables(), op.model()),
    {
        let reads = self.reads_for(op);
        let writes = apply_op(op, &reads);
        self.commit(&writes);
    }

    /// Carries out one write.
    fn write(&mut self, w: &TableWrite)
        requires
            old(self).ordered(),
        ensures
            final(self).ordered(),
            final(self).raw() == raw_write(old(self).raw(), *w),
    {
        let ghost was = self.raw();
        match w {
            TableWrite::PutTag { repo, tag, digest, media_type } => {
                self.tags.insert(pair(repo, tag), (digest.clone(), media_type.clone()));
            },
            TableWrite::DropTag { repo, tag } => {
                let _ = self.tags.remove(&pair(repo, tag));
            },
            TableWrite::PutTagOf { repo, digest, tag } => {
                self.tags_of.insert(triple(repo, digest, tag), ());
            },
            TableWrite::DropTagOf { repo, digest, tag } => {
                let _ = self.tags_of.remove(&triple(repo, digest, tag));
            },
            TableWrite::PutMediaType { repo, digest, media_type } => {
                self.media_types.insert(pair(repo, digest), media_type.clone());
            },
            TableWrite::DropMediaType { repo, digest } => {
                let _ = self.media_types.remove(&pair(repo, digest));
            },
            TableWrite::PutReferrer { repo, subject, referrer, descriptor } => {
                self.referrers.insert(
                    triple(repo, subject, referrer),
                    vstd::slice::slice_to_vec(descriptor.as_slice()),
                );
            },
            TableWrite::DropReferrer { repo, subject, referrer } => {
                let _ = self.referrers.remove(&triple(repo, subject, referrer));
            },
            TableWrite::PutType { repo, subject, referrer, artifact_type } => {
                self.types.insert(triple(repo, subject, referrer), artifact_type.clone());
            },
            TableWrite::DropType { repo, subject, referrer } => {
                let _ = self.types.remove(&triple(repo, subject, referrer));
            },
            TableWrite::PutTyped { repo, subject, artifact_type, referrer } => {
                self.typed.insert(quad(repo, subject, artifact_type, referrer), ());
            },
            TableWrite::DropTyped { repo, subject, artifact_type, referrer } => {
                let _ = self.typed.remove(&quad(repo, subject, artifact_type, referrer));
            },
            TableWrite::PutSubject { repo, referrer, subject } => {
                self.subjects.insert(triple(repo, referrer, subject), ());
            },
            TableWrite::DropSubject { repo, referrer, subject } => {
                let _ = self.subjects.remove(&triple(repo, referrer, subject));
            },
            TableWrite::PutBackref { repo, blob, manifest } => {
                self.backrefs.insert(triple(repo, blob, manifest), ());
            },
            TableWrite::DropBackref { repo, blob, manifest } => {
                let _ = self.backrefs.remove(&triple(repo, blob, manifest));
            },
            TableWrite::PutEdge { repo, manifest, blob } => {
                self.edges.insert(triple(repo, manifest, blob), ());
            },
            TableWrite::DropEdges { repo, manifest } => {
                self.edges.retain(
                    |k: &(String, String, String), v: &()| -> (b: bool)
                        ensures
                            b == !(k.0@ == repo@ && k.1@ == manifest@)
                        { !(same(k.0.as_str(), repo) && same(k.1.as_str(), manifest)) },
                    Ghost(
                        |k: (Text, Text, Text), v: ()| !(k.0 == repo@ && k.1 == manifest@),
                    ),
                );
            },
            TableWrite::PutChecksum { repo, digest, value } => {
                self.checksums.insert(
                    pair(repo, digest),
                    vstd::slice::slice_to_vec(value.as_slice()),
                );
            },
            TableWrite::DropChecksum { repo, digest } => {
                let _ = self.checksums.remove(&pair(repo, digest));
            },
        }
        proof {
            let now = self.raw();
            let want = raw_write(was, *w);
            assert(now.tags =~= want.tags);
            assert(now.tags_of =~= want.tags_of);
            assert(now.media_types =~= want.media_types);
            assert(now.referrers =~= want.referrers);
            assert(now.types =~= want.types);
            assert(now.typed =~= want.typed);
            assert(now.subjects =~= want.subjects);
            assert(now.backrefs =~= want.backrefs);
            assert(now.edges =~= want.edges);
            assert(now.checksums =~= want.checksums);
            assert(now =~= want);
        }
    }

    /// Carries out a run of writes that keeps the indexes in step.
    pub fn commit(&mut self, writes: &Vec<TableWrite>)
        requires
            old(self).wf(),
            indexed(raw_writes(old(self).raw(), writes@)),
        ensures
            final(self).wf(),
            final(self).raw() == raw_writes(old(self).raw(), writes@),
    {
        let ghost was = self.raw();
        let mut i: usize = 0;
        while i < writes.len()
            invariant
                i <= writes@.len(),
                self.ordered(),
                self.raw() == raw_writes(was, writes@.take(i as int)),
            decreases writes@.len() - i,
        {
            self.write(&writes[i]);
            proof {
                let next = writes@.take(i + 1);
                assert(next.drop_last() =~= writes@.take(i as int));
                assert(next.last() == writes@[i as int]);
            }
            i += 1;
        }
        assert(writes@.take(writes@.len() as int) =~= writes@);
    }

    /// The artifact type recorded for a referrer.
    fn recorded_type(&self, repo: &str, subject: &str, referrer: &str) -> (r: Option<String>)
        requires
            self.ordered(),
        ensures
            opt_string(r) == type_at(self.raw(), (repo@, subject@, referrer@)),
    {
        match self.types.get(&triple(repo, subject, referrer)) {
            Some(t) => Some(t.clone()),
            None => None,
        }
    }

    /// The subjects of a referrer, with the artifact type recorded at each.
    fn recorded_subjects(&self, repo: &str, referrer: &str) -> (r: Vec<(String, Option<String>)>)
        requires
            self.ordered(),
        ensures
            forall|s: Text|
                #![trigger self.raw().subjects.contains((repo@, referrer@, s))]
                subject_names(r@).contains(s) <==> self.raw().subjects.contains(
                    (repo@, referrer@, s),
                ),
            forall|i: int|
                #![trigger r@[i]]
                0 <= i < r@.len() ==> opt_string(r@[i].1) == type_at(
                    self.raw(),
                    (repo@, r@[i].0@, referrer@),
                ),
    {
        let low = triple(repo, referrer, "");
        proof {
            reveal_strlit("");
            assert(""@ =~= Seq::<char>::empty());
            lemma_thirds(self.subjects.map().dom(), low.deep_view());
        }
        let names = tails_of_block(&self.subjects, &low);
        let mut out: Vec<(String, Option<String>)> = Vec::new();
        let mut i: usize = 0;
        while i < names.len()
            invariant
                self.ordered(),
                i <= names@.len(),
                subject_names(out@) == texts(names@).take(i as int),
                forall|j: int|
                    #![trigger out@[j]]
                    0 <= j < out@.len() ==> opt_string(out@[j].1) == type_at(
                        self.raw(),
                        (repo@, out@[j].0@, referrer@),
                    ),
            decreases names@.len() - i,
        {
            let ghost out0 = out@;
            let t = self.recorded_type(repo, names[i].as_str(), referrer);
            out.push((names[i].clone(), t));
            proof {
                assert(subject_names(out@) =~= subject_names(out0).push(names@[i as int]@));
                assert(texts(names@).take(i + 1) =~= texts(names@).take(i as int).push(
                    names@[i as int]@,
                ));
            }
            i += 1;
        }
        proof {
            assert(texts(names@).take(i as int) =~= texts(names@));
            assert forall|s: Text|
                #![trigger self.raw().subjects.contains((repo@, referrer@, s))]
                subject_names(out@).contains(s) <==> self.raw().subjects.contains(
                    (repo@, referrer@, s),
                ) by {
                assert(texts(names@).contains(s) <==> texts(names@).to_set().contains(s));
            }
        }
        out
    }

    /// The last parts of a three-part table under two given parts.
    fn thirds_of(t: &Table<(String, String, String), ()>, a: &str, b: &str) -> (r: Vec<String>)
        requires
            t.wf(),
        ensures
            increasing(texts(r@)),
            texts(r@).to_set() == thirds(t.map().dom(), a@, b@),
    {
        let low = triple(a, b, "");
        proof {
            reveal_strlit("");
            assert(""@ =~= Seq::<char>::empty());
            lemma_thirds(t.map().dom(), low.deep_view());
        }
        tails_of_block(t, &low)
    }

    /// What a mutation has to know of the tables.
    pub fn reads_for(&self, op: &MetaOp) -> (r: OpReads)
        requires
            self.wf(),
        ensures
            reads_match(self.raw(), op.model(), r),
    {
        let mut reads = OpReads {
            old_digest: None,
            old_type: None,
            tags: Vec::new(),
            subjects: Vec::new(),
            blobs: Vec::new(),
        };
        match op {
            MetaOp::PutManifest { repo, digest, media_type, tag, references, referrer } => {
                if let Some(t) = tag {
                    reads.old_digest = match self.tags.get(&pair(repo, t)) {
                        Some(v) => Some(v.0.clone()),
                        None => None,
                    };
                }
                if let Some((subject, _)) = referrer {
                    reads.old_type = self.recorded_type(repo, subject, digest);
                }
            },
            MetaOp::PutReferrer { repo, subject, referrer, descriptor } => {
                reads.old_type = self.recorded_type(repo, subject, referrer);
            },
            MetaOp::DeleteManifest { repo, digest } => {
                reads.tags = RedbMetadataStore::thirds_of(&self.tags_of, repo, digest);
                reads.subjects = self.recorded_subjects(repo, digest);
                reads.blobs = RedbMetadataStore::thirds_of(&self.edges, repo, digest);
                proof {
                    let x = self.raw();
                    assert forall|t: Text|
                        #![trigger x.tags_of.contains((repo@, digest@, t))]
                        texts(reads.tags@).contains(t) <==> x.tags_of.contains(
                            (repo@, digest@, t),
                        ) by {
                        assert(texts(reads.tags@).contains(t) <==> texts(
                            reads.tags@,
                        ).to_set().contains(t));
                    }
                    assert forall|b: Text|
                        #![trigger x.edges.contains((repo@, digest@, b))]
                        texts(reads.blobs@).contains(b) <==> x.edges.contains(
                            (repo@, digest@, b),
                        ) by {
                        assert(texts(reads.blobs@).contains(b) <==> texts(
                            reads.blobs@,
                        ).to_set().contains(b));
                    }
                }
            },
            _ => {},
        }
        reads
    }

    /// The referrers of `digests`, with their descriptors.
    fn with_descriptors(&self, repo: &str, subject: &str, digests: &Vec<String>) -> (r: Vec<Referrer>)
        requires
            self.wf(),
            forall|i: int|
                #![trigger digests@[i]]
                0 <= i < digests@.len() ==> self.tables().referrers.contains_key(
                    (repo@, subject@, digests@[i]@),
                ),
        ensures
            referrer_digests(r@) == texts(digests@),
            forall|i: int|
                #![trigger r@[i]]
                0 <= i < r@.len() ==> self.tables().referrers.contains_key(
                    (repo@, subject@, r@[i].0@),
                ) && r@[i].1@ == self.tables().referrers[(repo@, subject@, r@[i].0@)],
    {
        let mut out: Vec<Referrer> = Vec::new();
        let mut i: usize = 0;
        while i < digests.len()
            invariant
                self.wf(),
                i <= digests@.len(),
                referrer_digests(out@) == texts(digests@).take(i as int),
                forall|j: int|
                    #![trigger digests@[j]]
                    0 <= j < digests@.len() ==> self.tables().referrers.contains_key(
                        (repo@, subject@, digests@[j]@),
                    ),
                forall|j: int|
                    #![trigger out@[j]]
                    0 <= j < out@.len() ==> self.tables().referrers.contains_key(
                        (repo@, subject@, out@[j].0@),
                    ) && out@[j].1@ == self.tables().referrers[(repo@, subject@, out@[j].0@)],
            decreases digests@.len() - i,
        {
            let ghost out0 = out@;
            let d = &digests[i];
            assert(self.tables().referrers.contains_key((repo@, subject@, digests@[i as int]@)));
            if let Some(bytes) = self.referrers.get(&triple(repo, subject, d)) {
                out.push((d.clone(), vstd::slice::slice_to_vec(bytes.as_slice())));
            }
            proof {
                assert(referrer_digests(out@) =~= referrer_digests(out0).push(digests@[i as int]@));
                assert(texts(digests@).take(i + 1) =~= texts(digests@).take(i as int).push(
                    digests@[i as int]@,
                ));
            }
            i += 1;
        }
        assert(texts(digests@).take(i as int) =~= texts(digests@));
        out
    }

    /// Whether a subject has referrers.
    fn has_referrers(&self, repo: &str, subject: &str) -> (r: bool)
        requires
            self.wf(),
        ensures
            r == !(referrers_of(self.tables().referrers, repo@, subject@) =~= Map::<
                Text,
                Seq<u8>,
            >::empty()),
    {
        let low = (repo.to_owned(), subject.to_owned(), start_after(None));
        let page = page_of_block(&self.referrers, &low, None, 1);
        proof {
            let keys = self.referrers.map().dom();
            lemma_thirds(keys, low.deep_view());
            lemma_first_page(texts(page.items@), page.more, thirds(keys, repo@, subject@));
            let m = referrers_of(self.tables().referrers, repo@, subject@);
            assert(m.dom() =~= thirds(keys, repo@, subject@));
            if m.dom() =~= Set::<Text>::empty() {
                assert(m =~= Map::<Text, Seq<u8>>::empty());
            }
        }
        page.items.len() > 0
    }
}

impl MetadataStore for RedbMetadataStore {
    open spec fn wf(&self) -> bool {
        self.ordered() && indexed(self.raw())
    }

    open spec fn tables(&self) -> Tables {
        raw_tables(self.raw())
    }

    open spec fn after(&self, op: Op) -> Tables {
        apply_ordered(self.tables(), op)
    }

    proof fn mutation_shows(&self, op: Op) {
        engines_agree(self.tables(), self.tables(), op);
    }

    fn resolve_tag(&self, repo: &str, tag: &str) -> (r: Option<(String, String)>) {
        match self.tags.get(&pair(repo, tag)) {
            Some(v) => Some((v.0.clone(), v.1.clone())),
            None => None,
        }
    }

    fn manifest_media_type(&self, repo: &str, digest: &str) -> (r: Option<String>) {
        match self.media_types.get(&pair(repo, digest)) {
            Some(v) => Some(v.clone()),
            None => None,
        }
    }

    fn tags_page(&self, repo: &str, last: Option<&str>, limit: usize) -> (r: Option<Page<String>>) {
        let first = page_of_prefix(&self.tags, repo, None, 1);
        proof {
            assert(self.tables().tags.dom() =~= self.tags.map().dom());
            lemma_first_page(
                texts(first.items@),
                first.more,
                seconds(self.tables().tags.dom(), repo@),
            );
        }
        if first.items.len() == 0 {
            return None;
        }
        Some(page_of_prefix(&self.tags, repo, last, limit))
    }

    fn referrers_page(
        &self,
        repo: &str,
        subject: &str,
        artifact_type: Option<&str>,
        last: Option<&str>,
        limit: usize,
    ) -> (r: Option<Page<Referrer>>) {
        if !self.has_referrers(repo, subject) {
            return None;
        }
        let ghost m = referrers_of(self.tables().referrers, repo@, subject@);
        let page = match artifact_type {
            None => {
                let low = (repo.to_owned(), subject.to_owned(), start_after(last));
                proof {
                    let keys = self.referrers.map().dom();
                    lemma_thirds(keys, low.deep_view());
                    assert(m.dom() =~= thirds(keys, repo@, subject@));
                }
                page_of_block(&self.referrers, &low, last, limit)
            },
            Some(at) => {
                let low = (
                    repo.to_owned(),
                    subject.to_owned(),
                    at.to_owned(),
                    start_after(last),
                );
                proof {
                    let keys = self.typed.map().dom();
                    lemma_fourths(keys, low.deep_view());
                    let want = listed(m, opt_text(artifact_type));
                    assert forall|x: Text| want.contains(x) <==> fourths(
                        keys,
                        repo@,
                        subject@,
                        at@,
                    ).contains(x) by {
                        assert(self.raw().typed.contains((repo@, subject@, at@, x))
                            <==> self.raw().referrers.contains_key((repo@, subject@, x))
                            && crate::metadata::referrers::artifact_type_of(
                            self.raw().referrers[(repo@, subject@, x)],
                        ) == Some(at@));
                    }
                    assert(want =~= fourths(keys, repo@, subject@, at@));
                }
                page_of_block(&self.typed, &low, last, limit)
            },
        };
        proof {
            let keys = listed(m, opt_text(artifact_type));
            let got = texts(page.items@);
            assert(is_page(got, page.more, keys, opt_text(last), limit as nat));
            assert forall|i: int| #![trigger page.items@[i]] 0 <= i < page.items@.len() implies
                self.tables().referrers.contains_key((repo@, subject@, page.items@[i]@)) by {
                assert(keys.contains(got[i]));
                assert(m.contains_key(got[i]));
            }
        }
        let items = self.with_descriptors(repo, subject, &page.items);
        Some(Page { items, more: page.more })
    }

    fn has_referrer(&self, repo: &str, subject: &str, referrer: &str) -> (r: bool) {
        self.referrers.contains(&triple(repo, subject, referrer))
    }

    fn backrefs(&self, repo: &str, blob: &str) -> (r: Vec<String>) {
        let r = RedbMetadataStore::thirds_of(&self.backrefs, repo, blob);
        proof {
            let s = self.raw().backrefs;
            let k = (repo@, blob@);
            assert(thirds(s, repo@, blob@) =~= manifests_of(s, k));
            lemma_sorted_is(texts(r@));
            if !has_manifest(s, k) {
                if texts(r@).len() > 0 {
                    assert(texts(r@).to_set().contains(texts(r@)[0]));
                    assert(manifests_of(s, k).contains(texts(r@)[0]));
                }
                assert(texts(r@) =~= Seq::<Text>::empty());
            }
        }
        r
    }

    fn checksum(&self, repo: &str, digest: &str) -> (r: Option<BlobChecksum>) {
        match self.checksums.get(&pair(repo, digest)) {
            Some(v) => {
                assert(self.raw().checksums[(repo@, digest@)] == v@);
                Some(decode_checksum(v.as_slice()))
            },
            None => None,
        }
    }

    fn apply(&mut self, op: MetaOp) {
        self.carry_out(&op);
    }

    fn repos(&self) -> (r: Vec<String>) {
        let mut found: Table<String, ()> = Table::new();
        let ghost media = self.media_types.rows();
        let ghost refs = self.referrers.rows();
        let mut i: usize = 0;
        while i < self.media_types.len()
            invariant
                media == self.media_types.rows(),
                i <= media.len(),
                found.wf(),
                forall|x: Text|
                    #![trigger found.map().contains_key(x)]
                    found.map().contains_key(x) <==> exists|j: int|
                        #![trigger media[j]]
                        0 <= j < i && media[j].0.0@ == x,
            decreases media.len() - i,
        {
            let ghost m0 = found.map();
            let name = self.media_types.key_at(i).0.clone();
            found.insert(name, ());
            proof {
                assert forall|x: Text|
                    #![trigger found.map().contains_key(x)]
                    found.map().contains_key(x) <==> exists|j: int|
                        #![trigger media[j]]
                        0 <= j < i + 1 && media[j].0.0@ == x by {
                    if x == media[i as int].0.0@ {
                        assert(found.map().contains_key(x));
                    } else if m0.contains_key(x) {
                        let j = choose|j: int|
                            #![trigger media[j]]
                            0 <= j < i && media[j].0.0@ == x;
                        assert(media[j].0.0@ == x);
                    }
                }
            }
            i += 1;
        }
        let ghost media_found = found.map();
        let mut i: usize = 0;
        while i < self.referrers.len()
            invariant
                refs == self.referrers.rows(),
                i <= refs.len(),
                found.wf(),
                forall|x: Text|
                    #![trigger found.map().contains_key(x)]
                    found.map().contains_key(x) <==> media_found.contains_key(x) || exists|j: int|
                        #![trigger refs[j]]
                        0 <= j < i && refs[j].0.0@ == x,
            decreases refs.len() - i,
        {
            let ghost m0 = found.map();
            let name = self.referrers.key_at(i).0.clone();
            found.insert(name, ());
            proof {
                assert forall|x: Text|
                    #![trigger found.map().contains_key(x)]
                    found.map().contains_key(x) <==> media_found.contains_key(x) || exists|j: int|
                        #![trigger refs[j]]
                        0 <= j < i + 1 && refs[j].0.0@ == x by {
                    if x == refs[i as int].0.0@ {
                        assert(found.map().contains_key(x));
                    } else if m0.contains_key(x) && !media_found.contains_key(x) {
                        let j = choose|j: int|
                            #![trigger refs[j]]
                            0 <= j < i && refs[j].0.0@ == x;
                        assert(refs[j].0.0@ == x);
                    }
                }
            }
            i += 1;
        }
        proof {
            let t = self.tables();
            assert forall|x: Text| found.map().contains_key(x) <==> has_repo(t, x) by {
                if media_found.contains_key(x) {
                    let j = choose|j: int|
                        #![trigger media[j]]
                        0 <= j < media.len() && media[j].0.0@ == x;
                    lemma_row_at(media, j);
                    assert(media[j].0.deep_view() == (x, media[j].0.1@));
                    assert(t.media_types.contains_key((x, media[j].0.1@)));
                } else if found.map().contains_key(x) {
                    let j = choose|j: int|
                        #![trigger refs[j]]
                        0 <= j < refs.len() && refs[j].0.0@ == x;
                    lemma_row_at(refs, j);
                    assert(refs[j].0.deep_view() == (x, refs[j].0.1@, refs[j].0.2@));
                    assert(t.referrers.contains_key((x, refs[j].0.1@, refs[j].0.2@)));
                }
                if exists|d: Text| t.media_types.contains_key((x, d)) {
                    let d = choose|d: Text| t.media_types.contains_key((x, d));
                    let j = lemma_row_of(media, (x, d));
                    assert(media[j].0.deep_view() == (x, d));
                    assert(media[j].0.0@ == x);
                    assert(media_found.contains_key(x));
                }
                if exists|s: Text, d: Text| t.referrers.contains_key((x, s, d)) {
                    let (s, d) = choose|s: Text, d: Text| t.referrers.contains_key((x, s, d));
                    let j = lemma_row_of(refs, (x, s, d));
                    assert(refs[j].0.deep_view() == (x, s, d));
                    assert(refs[j].0.0@ == x);
                }
            }
            assert(found.map().dom() =~= repos_of(t));
        }
        keys_of(&found)
    }

    fn manifests(&self, repo: &str) -> (r: Vec<String>) {
        let low = (repo.to_owned(), String::new());
        proof {
            lemma_seconds(self.media_types.map().dom(), low.deep_view());
            assert(self.tables().media_types.dom() =~= self.media_types.map().dom());
        }
        let r = tails_of_block(&self.media_types, &low);
        proof {
            lemma_increasing_distinct(texts(r@));
        }
        r
    }

    fn tags_snapshot(&self, repo: &str) -> (r: Vec<(String, String, String)>) {
        let low = (repo.to_owned(), String::new());
        proof {
            lemma_seconds(self.tags.map().dom(), low.deep_view());
            assert(self.tables().tags.dom() =~= self.tags.map().dom());
        }
        let names = tails_of_block(&self.tags, &low);
        let ghost all = texts(names@);
        let ghost m = self.tables().tags;
        let mut out: Vec<(String, String, String)> = Vec::new();
        let mut i: usize = 0;
        while i < names.len()
            invariant
                self.wf(),
                m == self.tables().tags,
                all == texts(names@),
                all.to_set() == seconds(m.dom(), repo@),
                i <= all.len(),
                listed_tags(out@) == all.take(i as int),
                forall|j: int|
                    #![trigger out@[j]]
                    0 <= j < out@.len() ==> m.contains_key((repo@, out@[j].0@)) && m[(
                        repo@,
                        out@[j].0@,
                    )] == (out@[j].1@, out@[j].2@),
            decreases all.len() - i,
        {
            let ghost out0 = out@;
            let name = &names[i];
            assert(all.to_set().contains(all[i as int]));
            assert(m.contains_key((repo@, all[i as int])));
            if let Some(v) = self.tags.get(&pair(repo, name)) {
                out.push((name.clone(), v.0.clone(), v.1.clone()));
            }
            proof {
                assert(listed_tags(out@) =~= listed_tags(out0).push(all[i as int]));
                assert(all.take(i + 1) =~= all.take(i as int).push(all[i as int]));
            }
            i += 1;
        }
        assert(all.take(i as int) =~= all);
        out
    }

    fn referrers_snapshot(&self, repo: &str) -> (r: Vec<(String, Vec<Referrer>)>) {
        let (lo, hi) = range_of_first(&self.referrers, repo);
        let ghost rows = self.referrers.rows();
        let ghost m = self.tables().referrers;
        let mut found: Table<String, ()> = Table::new();
        let mut i: usize = lo;
        while i < hi
            invariant
                rows == self.referrers.rows(),
                lo <= i <= hi <= rows.len(),
                found.wf(),
                forall|x: Text|
                    #![trigger found.map().contains_key(x)]
                    found.map().contains_key(x) <==> exists|j: int|
                        #![trigger rows[j]]
                        lo <= j < i && rows[j].0.1@ == x,
            decreases hi - i,
        {
            let ghost m0 = found.map();
            let name = self.referrers.key_at(i).1.clone();
            found.insert(name, ());
            proof {
                assert forall|x: Text|
                    #![trigger found.map().contains_key(x)]
                    found.map().contains_key(x) <==> exists|j: int|
                        #![trigger rows[j]]
                        lo <= j < i + 1 && rows[j].0.1@ == x by {
                    if x == rows[i as int].0.1@ {
                        assert(found.map().contains_key(x));
                    } else if m0.contains_key(x) {
                        let j = choose|j: int|
                            #![trigger rows[j]]
                            lo <= j < i && rows[j].0.1@ == x;
                        assert(rows[j].0.1@ == x);
                    }
                }
            }
            i += 1;
        }
        let names = keys_of(&found);
        let ghost all = texts(names@);
        proof {
            assert forall|x: Text| found.map().contains_key(x) <==> subjects_of(m, repo@).contains(
                x,
            ) by {
                if found.map().contains_key(x) {
                    let j = choose|j: int| #![trigger rows[j]] lo <= j < hi && rows[j].0.1@ == x;
                    lemma_row_at(rows, j);
                    assert(rows[j].0.deep_view() == (repo@, x, rows[j].0.2@));
                    assert(m.contains_key((repo@, x, rows[j].0.2@)));
                }
                if subjects_of(m, repo@).contains(x) {
                    let d = choose|d: Text| m.contains_key((repo@, x, d));
                    let j = lemma_row_of(rows, (repo@, x, d));
                    assert(rows[j].0.deep_view() == (repo@, x, d));
                    assert(rows[j].0.1@ == x);
                }
            }
            assert(all.to_set() =~= subjects_of(m, repo@));
        }
        let mut out: Vec<(String, Vec<Referrer>)> = Vec::new();
        let mut i: usize = 0;
        while i < names.len()
            invariant
                self.wf(),
                m == self.tables().referrers,
                all == texts(names@),
                i <= all.len(),
                listed_subjects(out@) == all.take(i as int),
                forall|j: int|
                    #![trigger out@[j]]
                    0 <= j < out@.len() ==> is_full_listing(
                        out@[j].1@,
                        referrers_of(m, repo@, out@[j].0@),
                    ),
            decreases all.len() - i,
        {
            let name = &names[i];
            let low = (repo.to_owned(), name.clone(), String::new());
            let digests = tails_of_block(&self.referrers, &low);
            let ghost part = referrers_of(m, repo@, name@);
            proof {
                lemma_thirds(self.referrers.map().dom(), low.deep_view());
                assert(part.dom() =~= thirds(self.referrers.map().dom(), repo@, name@));
                assert forall|j: int| #![trigger digests@[j]] 0 <= j < digests@.len() implies
                    m.contains_key((repo@, name@, digests@[j]@)) by {
                    assert(texts(digests@).to_set().contains(texts(digests@)[j]));
                    assert(part.contains_key(texts(digests@)[j]));
                }
            }
            let refs = self.with_descriptors(repo, name, &digests);
            proof {
                assert(is_full_listing(refs@, part)) by {
                    assert forall|j: int| #![trigger refs@[j]] 0 <= j < refs@.len() implies
                        part.contains_key(refs@[j].0@) && refs@[j].1@ == part[refs@[j].0@] by {
                        assert(m.contains_key((repo@, name@, refs@[j].0@)));
                    }
                }
            }
            let ghost out0 = out@;
            out.push((name.clone(), refs));
            proof {
                assert(listed_subjects(out@) =~= listed_subjects(out0).push(all[i as int]));
                assert(all.take(i + 1) =~= all.take(i as int).push(all[i as int]));
            }
            i += 1;
        }
        assert(all.take(i as int) =~= all);
        out
    }
}

} // verus!
