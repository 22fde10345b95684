//! Folding a snapshot base and its delta into one standalone state, and cutting
//! a new snapshot from it.

use crate::lists::{copy_texts, join_texts};
use crate::metadata::model::{
    backrefs_at, backrefs_ok, hides, joined, layered_backrefs, live_manifests, overlay,
};
use crate::metadata::query::{base_wf, layered, live_of, overlay_on_nothing};
use crate::metadata::referrers::{artifact_type, SubjectReferrers};
use crate::metadata::snapshot::{backref_rows, label_of, media_rows, tag_rows, SnapshotState};
use crate::metadata::state::{flat, lemma_filter_distinct, pair, State};
use crate::metadata::BlobChecksum;
use crate::page::texts;
use crate::table::{
    kept, lemma_push_rows, lemma_row_at, lemma_row_of, rows_map, rows_sorted, Table, TableKey,
};
use crate::text::Text;
use vstd::prelude::*;

verus! {

broadcast use vstd::string::group_string_axioms;

/// A value that can be copied without changing its model.
pub trait Duplicate: DeepView + Sized {
    /// A value with the same model.
    fn duplicate(&self) -> (r: Self)
        ensures
            r.deep_view() == self.deep_view(),
    ;
}

impl Duplicate for String {
    fn duplicate(&self) -> (r: Self) {
        self.clone()
    }
}

impl Duplicate for (String, String) {
    fn duplicate(&self) -> (r: Self) {
        (self.0.clone(), self.1.clone())
    }
}

impl Duplicate for Vec<String> {
    fn duplicate(&self) -> (r: Self) {
        let r = copy_texts(self);
        proof {
            assert(texts(r@) =~= r.deep_view());
            assert(texts(self@) =~= self.deep_view());
        }
        r
    }
}

impl Duplicate for () {
    fn duplicate(&self) -> (r: Self) {
    }
}

impl DeepView for BlobChecksum {
    type V = BlobChecksum;

    open spec fn deep_view(&self) -> BlobChecksum {
        *self
    }
}

impl Duplicate for BlobChecksum {
    fn duplicate(&self) -> (r: Self) {
        *self
    }
}

impl DeepView for SubjectReferrers {
    type V = Map<Text, Seq<u8>>;

    open spec fn deep_view(&self) -> Map<Text, Seq<u8>> {
        self.model()
    }
}

impl Duplicate for SubjectReferrers {
    fn duplicate(&self) -> (r: Self) {
        let mut r = SubjectReferrers::new();
        self.merge_into(&mut r);
        assert(r.model() =~= self.model());
        r
    }
}

/// A table's map over models.
pub open spec fn deep<K: TableKey, V: DeepView>(m: Map<<K as DeepView>::V, V>) -> Map<
    <K as DeepView>::V,
    <V as DeepView>::V,
> {
    m.map_values(|v: V| v.deep_view())
}

/// The map of the first `n` rows, over models.
spec fn deep_first<K: TableKey, V: DeepView>(rows: Seq<(K, V)>, n: int) -> Map<
    <K as DeepView>::V,
    <V as DeepView>::V,
> {
    deep::<K, V>(rows_map(rows.take(n)))
}

/// One more row adds one more entry.
proof fn lemma_deep_first<K: TableKey, V: DeepView>(rows: Seq<(K, V)>, n: int)
    requires
        rows_sorted(rows),
        0 <= n < rows.len(),
    ensures
        deep_first(rows, n + 1) == deep_first(rows, n).insert(
            rows[n].0.deep_view(),
            rows[n].1.deep_view(),
        ),
{
    let init = rows.take(n);
    assert(rows.take(n + 1) =~= init.push(rows[n]));
    assert forall|i: int| #![trigger init[i]] 0 <= i < init.len() implies K::key_lt(
        init[i].0.deep_view(),
        rows[n].0.deep_view(),
    ) by {
        assert(init[i] == rows[i]);
    }
    assert forall|i: int, j: int|
        #![trigger init[i], init[j]]
        0 <= i < j < init.len() implies K::key_lt(init[i].0.deep_view(), init[j].0.deep_view()) by {
        assert(init[i] == rows[i] && init[j] == rows[j]);
    }
    lemma_push_rows(init, rows[n]);
    assert(deep_first(rows, n + 1) =~= deep_first(rows, n).insert(
        rows[n].0.deep_view(),
        rows[n].1.deep_view(),
    ));
}

/// Stores copies of every row of `more` in `out`, replacing what was there.
pub fn absorb<K: TableKey, V: Duplicate>(out: &mut Table<K, V>, more: &Table<K, V>)
    requires
        old(out).wf(),
        more.wf(),
    ensures
        final(out).wf(),
        deep::<K, V>(final(out).map()) == deep::<K, V>(old(out).map()).union_prefer_right(
            deep::<K, V>(more.map()),
        ),
{
    let ghost base = deep::<K, V>(out.map());
    let ghost rows = more.rows();
    let mut i: usize = 0;
    proof {
        assert(rows.take(0) =~= Seq::empty());
        assert(deep_first(rows, 0) =~= Map::empty());
        assert(base.union_prefer_right(deep_first(rows, 0)) =~= base);
    }
    while i < more.len()
        invariant
            rows == more.rows(),
            rows_sorted(rows),
            i <= rows.len(),
            out.wf(),
            deep::<K, V>(out.map()) == base.union_prefer_right(deep_first(rows, i as int)),
        decreases rows.len() - i,
    {
        let ghost before = deep::<K, V>(out.map());
        let ghost m0 = out.map();
        let v = more.value_at(i).duplicate();
        let k = more.key_at(i).copied();
        out.insert(k, v);
        proof {
            lemma_deep_first(rows, i as int);
            let key = rows[i as int].0.deep_view();
            assert(deep::<K, V>(out.map()) =~= before.insert(key, rows[i as int].1.deep_view()));
            assert(deep::<K, V>(out.map()) =~= base.union_prefer_right(deep_first(rows, i + 1)));
        }
        i += 1;
    }
    assert(rows.take(rows.len() as int) =~= rows);
}

/// A table with the same contents.
pub fn copy_table<K: TableKey, V: Duplicate>(t: &Table<K, V>) -> (r: Table<K, V>)
    requires
        t.wf(),
    ensures
        r.wf(),
        deep::<K, V>(r.map()) == deep::<K, V>(t.map()),
{
    let mut r: Table<K, V> = Table::new();
    assert(deep::<K, V>(r.map()) =~= Map::empty());
    absorb(&mut r, t);
    assert(deep::<K, V>(r.map()) =~= deep::<K, V>(t.map()));
    r
}

/// The two ways to spell a table's model agree.
proof fn lemma_spellings(
    tags: Map<(Text, Text), (String, String)>,
    media: Map<(Text, Text), String>,
    backrefs: Map<(Text, Text), Vec<String>>,
    checksums: Map<(Text, Text), BlobChecksum>,
)
    ensures
        deep::<(String, String), (String, String)>(tags) == tag_rows(tags),
        deep::<(String, String), String>(media) == media_rows(media),
        deep::<(String, String), Vec<String>>(backrefs) == backref_rows(backrefs),
        deep::<(String, String), BlobChecksum>(checksums) == checksums,
{
    assert(deep::<(String, String), (String, String)>(tags) =~= tag_rows(tags));
    assert(deep::<(String, String), String>(media) =~= media_rows(media));
    assert(deep::<(String, String), BlobChecksum>(checksums) =~= checksums);
    assert forall|v: Vec<String>| #[trigger] v.deep_view() == texts(v@) by {
        assert(v.deep_view() =~= texts(v@));
    }
    assert(deep::<(String, String), Vec<String>>(backrefs) =~= backref_rows(backrefs));
}

/// Equal models of the referrer tables give the same flat map.
proof fn lemma_flat_deep(
    a: Map<(Text, Text), SubjectReferrers>,
    b: Map<(Text, Text), SubjectReferrers>,
)
    requires
        deep::<(String, String), SubjectReferrers>(a) == deep::<(String, String), SubjectReferrers>(
            b,
        ),
    ensures
        flat(a) == flat(b),
        forall|k: (Text, Text)| #[trigger] a.contains_key(k) <==> b.contains_key(k),
        forall|k: (Text, Text)| #[trigger]
            a.contains_key(k) ==> a[k].model() == b[k].model(),
{
    let da = deep::<(String, String), SubjectReferrers>(a);
    let db = deep::<(String, String), SubjectReferrers>(b);
    assert(da.dom() =~= a.dom());
    assert(db.dom() =~= b.dom());
    assert forall|k: (Text, Text)| #[trigger] a.contains_key(k) <==> b.contains_key(k) by {
        assert(da.dom().contains(k) <==> db.dom().contains(k));
    }
    assert forall|k: (Text, Text)| #[trigger] a.contains_key(k) implies a[k].model()
        == b[k].model() by {
        assert(da[k] == db[k]);
    }
    assert(flat(a) =~= flat(b));
}

impl State {
    /// A state with the same contents.
    fn copied(&self) -> (r: State)
        requires
            self.wf(),
        ensures
            r.wf(),
            r.delta() == self.delta(),
    {
        let r = State {
            tags: copy_table(&self.tags),
            media_types: copy_table(&self.media_types),
            referrers: copy_table(&self.referrers),
            backrefs: copy_table(&self.backrefs),
            checksums: copy_table(&self.checksums),
            deleted_digests: copy_table(&self.deleted_digests),
            deleted_tags: copy_table(&self.deleted_tags),
            deleted_checksums: copy_table(&self.deleted_checksums),
        };
        proof {
            lemma_spellings(
                self.tags.map(),
                self.media_types.map(),
                self.backrefs.map(),
                self.checksums.map(),
            );
            lemma_spellings(r.tags.map(), r.media_types.map(), r.backrefs.map(), r.checksums.map());
            lemma_flat_deep(r.referrers.map(), self.referrers.map());
            assert(r.deleted_digests.map().dom() =~= self.deleted_digests.map().dom()) by {
                assert forall|k: (Text, Text)| r.deleted_digests.map().contains_key(k)
                    <==> self.deleted_digests.map().contains_key(k) by {
                    assert(deep::<(String, String), ()>(r.deleted_digests.map()).contains_key(k)
                        <==> deep::<(String, String), ()>(
                        self.deleted_digests.map(),
                    ).contains_key(k));
                }
            }
            assert(r.deleted_tags.map().dom() =~= self.deleted_tags.map().dom()) by {
                assert forall|k: (Text, Text)| r.deleted_tags.map().contains_key(k)
                    <==> self.deleted_tags.map().contains_key(k) by {
                    assert(deep::<(String, String), ()>(r.deleted_tags.map()).contains_key(k)
                        <==> deep::<(String, String), ()>(self.deleted_tags.map()).contains_key(k));
                }
            }
            assert(r.deleted_checksums.map().dom() =~= self.deleted_checksums.map().dom()) by {
                assert forall|k: (Text, Text)| r.deleted_checksums.map().contains_key(k)
                    <==> self.deleted_checksums.map().contains_key(k) by {
                    assert(deep::<(String, String), ()>(r.deleted_checksums.map()).contains_key(k)
                        <==> deep::<(String, String), ()>(
                        self.deleted_checksums.map(),
                    ).contains_key(k));
                }
            }
            assert(r.delta() =~= self.delta());
            assert forall|k: (Text, Text)|
                #![trigger r.referrers.map()[k]]
                r.referrers.map().contains_key(k) implies r.referrers.map()[k].model()
                != Map::<Text, Seq<u8>>::empty() by {
                assert(self.referrers.map().contains_key(k));
                assert(self.referrers.map()[k].model() == r.referrers.map()[k].model());
            }
        }
        r
    }

    /// The tags of base and delta together.
    fn layered_tags(&self, snap: &SnapshotState) -> (r: Table<(String, String), (String, String)>)
        requires
            self.wf(),
            snap.wf(),
        ensures
            r.wf(),
            tag_rows(r.map()) == overlay(snap.tables(), self.delta()).tags,
    {
        let ghost d = self.delta();
        let ghost rows = snap.tags.rows();
        let ghost live = kept(
            snap.tables().tags,
            |k: (Text, Text), v: (Text, Text)| !hides(d, k, v.0),
        );
        let mut out: Table<(String, String), (String, String)> = Table::new();
        let mut i: usize = 0;
        while i < snap.tags.len()
            invariant
                self.wf(),
                snap.wf(),
                rows == snap.tags.rows(),
                d == self.delta(),
                live == kept(
                    snap.tables().tags,
                    |k: (Text, Text), v: (Text, Text)| !hides(d, k, v.0),
                ),
                i <= rows.len(),
                out.wf(),
                forall|j: int|
                    #![trigger rows[j]]
                    0 <= j < i && !hides(d, rows[j].0.deep_view(), rows[j].1.0@)
                        ==> out.map().contains_key(rows[j].0.deep_view()),
                forall|k: (Text, Text)| #[trigger]
                    out.map().contains_key(k) ==> live.contains_key(k) && live[k] == (
                        out.map()[k].0@,
                        out.map()[k].1@,
                    ),
            decreases rows.len() - i,
        {
            let k = snap.tags.key_at(i);
            let v = snap.tags.value_at(i);
            if !self.is_tag_hidden(k.0.as_str(), k.1.as_str(), v.0.as_str()) {
                proof {
                    lemma_row_at(rows, i as int);
                }
                out.insert(pair(k.0.as_str(), k.1.as_str()), (v.0.clone(), v.1.clone()));
            }
            i += 1;
        }
        proof {
            assert forall|k: (Text, Text)| live.contains_key(k) implies out.map().contains_key(k) by {
                let j = lemma_row_of(rows, k);
            }
            assert(tag_rows(out.map()) =~= live);
            lemma_spellings(out.map(), Map::empty(), Map::empty(), Map::empty());
            lemma_spellings(self.tags.map(), Map::empty(), Map::empty(), Map::empty());
        }
        absorb(&mut out, &self.tags);
        proof {
            lemma_spellings(out.map(), Map::empty(), Map::empty(), Map::empty());
        }
        out
    }

    /// The media types of base and delta together.
    fn layered_media_types(&self, snap: &SnapshotState) -> (r: Table<(String, String), String>)
        requires
            self.wf(),
            snap.wf(),
        ensures
            r.wf(),
            media_rows(r.map()) == overlay(snap.tables(), self.delta()).media_types,
    {
        let ghost deleted = self.delta().deleted_digests;
        let ghost rows = snap.media_types.rows();
        let ghost live = kept(
            snap.tables().media_types,
            |k: (Text, Text), v: Text| !deleted.contains(k),
        );
        let mut out: Table<(String, String), String> = Table::new();
        let mut i: usize = 0;
        while i < snap.media_types.len()
            invariant
                self.wf(),
                snap.wf(),
                rows == snap.media_types.rows(),
                deleted == self.delta().deleted_digests,
                live == kept(
                    snap.tables().media_types,
                    |k: (Text, Text), v: Text| !deleted.contains(k),
                ),
                i <= rows.len(),
                out.wf(),
                forall|j: int|
                    #![trigger rows[j]]
                    0 <= j < i && !deleted.contains(rows[j].0.deep_view())
                        ==> out.map().contains_key(rows[j].0.deep_view()),
                forall|k: (Text, Text)| #[trigger]
                    out.map().contains_key(k) ==> live.contains_key(k) && live[k] == out.map()[k]@,
            decreases rows.len() - i,
        {
            let k = snap.media_types.key_at(i);
            let v = snap.media_types.value_at(i);
            if !self.is_digest_deleted(k.0.as_str(), k.1.as_str()) {
                proof {
                    lemma_row_at(rows, i as int);
                }
                out.insert(pair(k.0.as_str(), k.1.as_str()), v.clone());
            }
            i += 1;
        }
        proof {
            assert forall|k: (Text, Text)| live.contains_key(k) implies out.map().contains_key(k) by {
                let j = lemma_row_of(rows, k);
            }
            assert(media_rows(out.map()) =~= live);
            lemma_spellings(Map::empty(), out.map(), Map::empty(), Map::empty());
            lemma_spellings(Map::empty(), self.media_types.map(), Map::empty(), Map::empty());
        }
        absorb(&mut out, &self.media_types);
        proof {
            lemma_spellings(Map::empty(), out.map(), Map::empty(), Map::empty());
        }
        out
    }

    /// The checksums of base and delta together.
    fn layered_checksums(&self, snap: &SnapshotState) -> (r: Table<(String, String), BlobChecksum>)
        requires
            self.wf(),
            snap.wf(),
        ensures
            r.wf(),
            r.map() == overlay(snap.tables(), self.delta()).checksums,
    {
        let ghost deleted = self.delta().deleted_digests;
        let ghost dropped = self.delta().deleted_checksums;
        let ghost rows = snap.checksums.rows();
        let ghost live = kept(
            snap.tables().checksums,
            |k: (Text, Text), v: BlobChecksum| !deleted.contains(k) && !dropped.contains(k),
        );
        let mut out: Table<(String, String), BlobChecksum> = Table::new();
        let mut i: usize = 0;
        while i < snap.checksums.len()
            invariant
                self.wf(),
                snap.wf(),
                rows == snap.checksums.rows(),
                deleted == self.delta().deleted_digests,
                dropped == self.delta().deleted_checksums,
                live == kept(
                    snap.tables().checksums,
                    |k: (Text, Text), v: BlobChecksum| !deleted.contains(k) && !dropped.contains(k),
                ),
                i <= rows.len(),
                out.wf(),
                forall|j: int|
                    #![trigger rows[j]]
                    0 <= j < i && !deleted.contains(rows[j].0.deep_view()) && !dropped.contains(
                        rows[j].0.deep_view(),
                    ) ==> out.map().contains_key(rows[j].0.deep_view()),
                forall|k: (Text, Text)| #[trigger]
                    out.map().contains_key(k) ==> live.contains_key(k) && live[k] == out.map()[k],
            decreases rows.len() - i,
        {
            let k = snap.checksums.key_at(i);
            let v = snap.checksums.value_at(i);
            if !self.deleted_checksums.contains(k) && !self.is_digest_deleted(
                k.0.as_str(),
                k.1.as_str(),
            ) {
                proof {
                    lemma_row_at(rows, i as int);
                }
                out.insert(pair(k.0.as_str(), k.1.as_str()), *v);
            }
            i += 1;
        }
        proof {
            assert forall|k: (Text, Text)| live.contains_key(k) implies out.map().contains_key(k) by {
                let j = lemma_row_of(rows, k);
            }
            assert(out.map() =~= live);
            lemma_spellings(Map::empty(), Map::empty(), Map::empty(), out.map());
            lemma_spellings(Map::empty(), Map::empty(), Map::empty(), self.checksums.map());
        }
        absorb(&mut out, &self.checksums);
        proof {
            lemma_spellings(Map::empty(), Map::empty(), Map::empty(), out.map());
        }
        out
    }

    /// The backrefs of base and delta together.
    fn layered_backref_table(&self, snap: &SnapshotState) -> (r: Table<
        (String, String),
        Vec<String>,
    >)
        requires
            self.wf(),
            snap.wf(),
        ensures
            r.wf(),
            backref_rows(r.map()) == overlay(snap.tables(), self.delta()).backrefs,
    {
        let ghost want = overlay(snap.tables(), self.delta()).backrefs;
        let ghost deleted = self.delta().deleted_digests;
        let ghost brows = snap.backrefs.rows();
        let mut out: Table<(String, String), Vec<String>> = Table::new();
        let mut i: usize = 0;
        while i < snap.backrefs.len()
            invariant
                self.wf(),
                snap.wf(),
                brows == snap.backrefs.rows(),
                want == overlay(snap.tables(), self.delta()).backrefs,
                deleted == self.delta().deleted_digests,
                i <= brows.len(),
                out.wf(),
                forall|j: int|
                    #![trigger brows[j]]
                    0 <= j < i && want.contains_key(brows[j].0.deep_view())
                        ==> out.map().contains_key(brows[j].0.deep_view()),
                forall|k: (Text, Text)| #[trigger]
                    out.map().contains_key(k) ==> want.contains_key(k) && want[k] == texts(
                        out.map()[k]@,
                    ),
            decreases brows.len() - i,
        {
            let k = snap.backrefs.key_at(i);
            let ghost key = k.deep_view();
            proof {
                lemma_row_at(brows, i as int);
            }
            let mut manifests = live_of(self, k.0.as_str(), snap.backrefs.value_at(i));
            if let Some(delta) = self.backrefs.get(k) {
                join_texts(&mut manifests, delta);
            }
            assert(texts(manifests@) == layered_backrefs(snap.tables(), self.delta(), key));
            assert(texts(manifests@).len() == manifests@.len());
            if manifests.len() > 0 {
                out.insert(pair(k.0.as_str(), k.1.as_str()), manifests);
            }
            i += 1;
        }
        let ghost drows = self.backrefs.rows();
        i = 0;
        while i < self.backrefs.len()
            invariant
                self.wf(),
                snap.wf(),
                brows == snap.backrefs.rows(),
                drows == self.backrefs.rows(),
                want == overlay(snap.tables(), self.delta()).backrefs,
                deleted == self.delta().deleted_digests,
                i <= drows.len(),
                out.wf(),
                forall|j: int|
                    #![trigger brows[j]]
                    0 <= j < brows.len() && want.contains_key(brows[j].0.deep_view())
                        ==> out.map().contains_key(brows[j].0.deep_view()),
                forall|j: int|
                    #![trigger drows[j]]
                    0 <= j < i ==> out.map().contains_key(drows[j].0.deep_view()),
                forall|k: (Text, Text)| #[trigger]
                    out.map().contains_key(k) ==> want.contains_key(k) && want[k] == texts(
                        out.map()[k]@,
                    ),
            decreases drows.len() - i,
        {
            let k = self.backrefs.key_at(i);
            let ghost key = k.deep_view();
            let v = self.backrefs.value_at(i);
            if !out.contains(k) {
                proof {
                    lemma_row_at(drows, i as int);
                    let dm = self.delta().tables.backrefs;
                    assert(dm.contains_key(key) && dm[key] == texts(v@));
                    assert(dm[key].len() > 0 && dm[key].no_duplicates());
                    if snap.backrefs.map().contains_key(key) {
                        let j = lemma_row_of(brows, key);
                        assert(!want.contains_key(key));
                        lemma_join_grows(
                            live_manifests(
                                backrefs_at(snap.tables().backrefs, key),
                                key.0,
                                deleted,
                            ),
                            dm[key],
                        );
                    }
                    assert(backrefs_at(snap.tables().backrefs, key) =~= Seq::<Text>::empty());
                    assert(live_manifests(Seq::<Text>::empty(), key.0, deleted) =~= Seq::<
                        Text,
                    >::empty()) by {
                        reveal(Seq::filter);
                    }
                    crate::metadata::query::lemma_join_nothing(dm[key]);
                }
                out.insert(pair(k.0.as_str(), k.1.as_str()), copy_texts(v));
            }
            i += 1;
        }
        proof {
            let got = backref_rows(out.map());
            assert forall|k: (Text, Text)| want.contains_key(k) implies out.map().contains_key(k) by {
                if snap.backrefs.map().contains_key(k) {
                    let j = lemma_row_of(brows, k);
                } else if self.backrefs.map().contains_key(k) {
                    let j = lemma_row_of(drows, k);
                } else {
                    assert(live_manifests(Seq::<Text>::empty(), k.0, deleted) =~= Seq::<
                        Text,
                    >::empty()) by {
                        reveal(Seq::filter);
                    }
                }
            }
            assert(got =~= want);
        }
        out
    }

    /// The referrers of base and delta together.
    fn layered_referrers(&self, snap: &SnapshotState) -> (r: Table<
        (String, String),
        SubjectReferrers,
    >)
        requires
            self.wf(),
            snap.wf(),
        ensures
            r.wf(),
            flat(r.map()) == overlay(snap.tables(), self.delta()).referrers,
            forall|k: (Text, Text)|
                #![trigger r.map()[k]]
                r.map().contains_key(k) ==> r.map()[k].model() != Map::<Text, Seq<u8>>::empty(),
    {
        let ghost deleted = self.delta().deleted_digests;
        let ghost rows = snap.referrers.rows();
        let ghost live = kept(
            snap.tables().referrers,
            |k: (Text, Text, Text), v: Seq<u8>| !deleted.contains((k.0, k.2)),
        );
        let mut out = State::new();
        let mut i: usize = 0;
        while i < snap.referrers.len()
            invariant
                self.wf(),
                snap.wf(),
                rows == snap.referrers.rows(),
                deleted == self.delta().deleted_digests,
                live == kept(
                    snap.tables().referrers,
                    |k: (Text, Text, Text), v: Seq<u8>| !deleted.contains((k.0, k.2)),
                ),
                i <= rows.len(),
                out.wf(),
                forall|j: int|
                    #![trigger rows[j]]
                    0 <= j < i && !deleted.contains((rows[j].0.0@, rows[j].0.2@))
                        ==> out.delta().tables.referrers.contains_key(rows[j].0.deep_view()),
                forall|k: (Text, Text, Text)| #[trigger]
                    out.delta().tables.referrers.contains_key(k) ==> live.contains_key(k)
                        && live[k] == out.delta().tables.referrers[k],
            decreases rows.len() - i,
        {
            let k = snap.referrers.key_at(i);
            let v = snap.referrers.value_at(i);
            if !self.is_digest_deleted(k.0.as_str(), k.2.as_str()) {
                proof {
                    lemma_row_at(rows, i as int);
                }
                out.add_referrer(k.0.as_str(), k.1.as_str(), k.2.as_str(), v.1.as_slice());
            }
            i += 1;
        }
        proof {
            assert forall|k: (Text, Text, Text)| live.contains_key(k) implies
                out.delta().tables.referrers.contains_key(k) by {
                let j = lemma_row_of(rows, k);
            }
            assert(out.delta().tables.referrers =~= live);
        }
        let State { mut referrers, .. } = out;
        let ghost want = overlay(snap.tables(), self.delta()).referrers;
        let ghost drows = self.referrers.rows();
        i = 0;
        while i < self.referrers.len()
            invariant
                self.wf(),
                drows == self.referrers.rows(),
                want == overlay(snap.tables(), self.delta()).referrers,
                live == kept(
                    snap.tables().referrers,
                    |k: (Text, Text, Text), v: Seq<u8>| !deleted.contains((k.0, k.2)),
                ),
                deleted == self.delta().deleted_digests,
                i <= drows.len(),
                referrers.wf(),
                forall|k: (Text, Text)|
                    #![trigger referrers.map()[k]]
                    referrers.map().contains_key(k) ==> referrers.map()[k].model() != Map::<
                        Text,
                        Seq<u8>,
                    >::empty(),
                forall|k: (Text, Text, Text)| #[trigger]
                    live.contains_key(k) ==> flat(referrers.map()).contains_key(k),
                forall|j: int, d: Text|
                    #![trigger drows[j].1.model().contains_key(d)]
                    0 <= j < i && drows[j].1.model().contains_key(d) ==> flat(
                        referrers.map(),
                    ).contains_key((drows[j].0.0@, drows[j].0.1@, d)) && flat(referrers.map())[(
                        drows[j].0.0@,
                        drows[j].0.1@,
                        d,
                    )] == drows[j].1.model()[d],
                forall|k: (Text, Text, Text)| #[trigger]
                    flat(referrers.map()).contains_key(k) ==> want.contains_key(k) && (flat(
                        referrers.map(),
                    )[k] == want[k] || (live.contains_key(k) && flat(referrers.map())[k]
                        == live[k])),
            decreases drows.len() - i,
        {
            let k = self.referrers.key_at(i);
            let refs = self.referrers.value_at(i);
            let ghost key = k.deep_view();
            let ghost m0 = referrers.map();
            let ghost flat0 = flat(m0);
            proof {
                lemma_row_at(drows, i as int);
                assert(key == (k.0@, k.1@));
                assert(refs.model() != Map::<Text, Seq<u8>>::empty());
                if forall|d: Text| !refs.model().contains_key(d) {
                    assert(refs.model() =~= Map::<Text, Seq<u8>>::empty());
                }
            }
            let fresh = SubjectReferrers::new();
            let slot = referrers.entry(pair(k.0.as_str(), k.1.as_str()), fresh);
            let ghost slot0 = slot.model();
            refs.merge_into(slot);
            proof {
                let m1 = referrers.map();
                let now = m1[key].model();
                assert(now == slot0.union_prefer_right(refs.model()));
                let d0 = choose|d: Text| refs.model().contains_key(d);
                assert(now.contains_key(d0));
                assert forall|x: (Text, Text, Text)| #[trigger]
                    flat(m1).contains_key(x) <==> (flat0.contains_key(x) || ((x.0, x.1) == key
                        && refs.model().contains_key(x.2))) by {}
                assert forall|x: (Text, Text, Text)| #[trigger]
                    flat(m1).contains_key(x) implies flat(m1)[x] == (if (x.0, x.1) == key
                    && refs.model().contains_key(x.2) {
                    refs.model()[x.2]
                } else {
                    flat0[x]
                }) by {}
                assert forall|x: (Text, Text, Text)| #[trigger]
                    flat(m1).contains_key(x) implies want.contains_key(x) && (flat(m1)[x]
                    == want[x] || (live.contains_key(x) && flat(m1)[x] == live[x])) by {
                    if (x.0, x.1) == key && refs.model().contains_key(x.2) {
                        assert(self.delta().tables.referrers.contains_key(x));
                        assert(want[x] == self.delta().tables.referrers[x]);
                    } else {
                        assert(flat0.contains_key(x));
                    }
                }
                assert forall|j: int, d: Text|
                    #![trigger drows[j].1.model().contains_key(d)]
                    0 <= j < i + 1 && drows[j].1.model().contains_key(d) implies flat(
                    m1,
                ).contains_key((drows[j].0.0@, drows[j].0.1@, d)) && flat(m1)[(
                    drows[j].0.0@,
                    drows[j].0.1@,
                    d,
                )] == drows[j].1.model()[d] by {
                    if j < i && drows[j].0.deep_view() == key {
                        crate::table::lemma_row_unique(drows, j, i as int);
                    }
                    if j < i {
                        assert(flat0.contains_key((drows[j].0.0@, drows[j].0.1@, d)));
                    }
                }
                assert forall|x: (Text, Text)|
                    #![trigger m1[x]]
                    m1.contains_key(x) implies m1[x].model() != Map::<Text, Seq<u8>>::empty() by {
                    if x != key {
                        assert(m0.contains_key(x) && m0[x] == m1[x]);
                    }
                }
            }
            i += 1;
        }
        proof {
            let got = flat(referrers.map());
            assert forall|k: (Text, Text, Text)| want.contains_key(k) implies got.contains_key(k) by {
                if self.delta().tables.referrers.contains_key(k) {
                    let j = lemma_row_of(drows, (k.0, k.1));
                    assert(drows[j].0.deep_view() == (k.0, k.1));
                    assert(drows[j].1.model().contains_key(k.2));
                } else {
                    assert(live.contains_key(k));
                }
            }
            assert forall|k: (Text, Text, Text)| got.contains_key(k) implies #[trigger] got[k]
                == want[k] by {
                if self.delta().tables.referrers.contains_key(k) {
                    let j = lemma_row_of(drows, (k.0, k.1));
                    assert(drows[j].0.deep_view() == (k.0, k.1));
                    assert(drows[j].1.model().contains_key(k.2));
                } else if live.contains_key(k) {
                    assert(want[k] == live[k]);
                }
            }
            assert(got =~= want);
        }
        referrers
    }

    /// Folds the base and this delta into one standalone state.
    pub fn materialize(&self, base: Option<&SnapshotState>) -> (r: State)
        requires
            self.wf(),
            base_wf(base),
        ensures
            r.wf(),
            r.delta().tables == layered(self, base),
            base is None ==> r.delta() == self.delta(),
            base is Some ==> r.delta().deleted_digests == Set::<(Text, Text)>::empty()
                && r.delta().deleted_tags == Set::<(Text, Text)>::empty()
                && r.delta().deleted_checksums == Set::<(Text, Text)>::empty(),
    {
        match base {
            None => {
                proof {
                    overlay_on_nothing(self.delta());
                }
                self.copied()
            },
            Some(snap) => {
                let r = State {
                    tags: self.layered_tags(snap),
                    media_types: self.layered_media_types(snap),
                    referrers: self.layered_referrers(snap),
                    backrefs: self.layered_backref_table(snap),
                    checksums: self.layered_checksums(snap),
                    deleted_digests: Table::new(),
                    deleted_tags: Table::new(),
                    deleted_checksums: Table::new(),
                };
                proof {
                    let t = overlay(snap.tables(), self.delta());
                    assert(r.delta().tables =~= t);
                    assert(backrefs_ok(t.backrefs)) by {
                        assert forall|k: (Text, Text)|
                            #![trigger t.backrefs[k]]
                            t.backrefs.contains_key(k) implies t.backrefs[k].len() > 0
                            && t.backrefs[k].no_duplicates() by {
                            let b = backrefs_at(snap.tables().backrefs, k);
                            if snap.tables().backrefs.contains_key(k) {
                                assert(snap.tables().backrefs[k].no_duplicates());
                            }
                            let deleted = self.delta().deleted_digests;
                            lemma_filter_distinct(b, |m: Text| !deleted.contains((k.0, m)));
                            lemma_join_distinct(
                                live_manifests(b, k.0, deleted),
                                backrefs_at(self.delta().tables.backrefs, k),
                            );
                        }
                    }
                }
                r
            },
        }
    }

    /// Cuts a snapshot of a standalone state.
    pub fn state_to_snapshot(&self, generation: u64, log_offset: u64) -> (r: SnapshotState)
        requires
            self.wf(),
        ensures
            r.wf(),
            r.tables() == self.delta().tables,
            r.labels() == r.tables().referrers.map_values(|d: Seq<u8>| label_of(d)),
            r.generation == generation,
            r.log_offset == log_offset,
    {
        let mut referrers: Table<(String, String, String), (String, Vec<u8>)> = Table::new();
        let ghost want = self.delta().tables.referrers;
        let ghost rows = self.referrers.rows();
        let mut i: usize = 0;
        while i < self.referrers.len()
            invariant
                self.wf(),
                rows == self.referrers.rows(),
                want == self.delta().tables.referrers,
                i <= rows.len(),
                referrers.wf(),
                forall|j: int, d: Text|
                    #![trigger rows[j].1.model().contains_key(d)]
                    0 <= j < i && rows[j].1.model().contains_key(d)
                        ==> referrers.map().contains_key((rows[j].0.0@, rows[j].0.1@, d)),
                forall|k: (Text, Text, Text)| #[trigger]
                    referrers.map().contains_key(k) ==> want.contains_key(k)
                        && referrers.map()[k].1@ == want[k] && referrers.map()[k].0@ == label_of(
                        want[k],
                    ),
            decreases rows.len() - i,
        {
            let key = self.referrers.key_at(i);
            let entries = self.referrers.value_at(i).listing();
            let ghost refs = self.referrers.rows()[i as int].1.model();
            proof {
                lemma_row_at(rows, i as int);
                assert(rows[i as int].0.deep_view() == (key.0@, key.1@));
            }
            let ghost before = referrers.map();
            let mut n: usize = 0;
            while n < entries.len()
                invariant
                    i < rows.len(),
                    rows[i as int].0 == *key,
                    refs == rows[i as int].1.model(),
                    want == self.delta().tables.referrers,
                    rows == self.referrers.rows(),
                    self.referrers.map().contains_key((key.0@, key.1@)),
                    self.referrers.map()[(key.0@, key.1@)].model() == refs,
                    n <= entries@.len(),
                    referrers.wf(),
                    forall|x: int|
                        #![trigger entries@[x]]
                        0 <= x < entries@.len() ==> refs.contains_key(entries@[x].0@)
                            && entries@[x].1@ == refs[entries@[x].0@],
                    forall|x: int|
                        #![trigger entries@[x]]
                        0 <= x < n ==> referrers.map().contains_key(
                            (key.0@, key.1@, entries@[x].0@),
                        ),
                    forall|k: (Text, Text, Text)| #[trigger]
                        before.contains_key(k) ==> referrers.map().contains_key(k),
                    forall|k: (Text, Text, Text)| #[trigger]
                        referrers.map().contains_key(k) ==> want.contains_key(k)
                            && referrers.map()[k].1@ == want[k] && referrers.map()[k].0@
                            == label_of(want[k]),
                decreases entries@.len() - n,
            {
                let entry = &entries[n];
                let label = match artifact_type(entry.1.as_slice()) {
                    Some(t) => t,
                    None => String::new(),
                };
                assert(label@ =~= label_of(entry.1@));
                let k3 = (key.0.clone(), key.1.clone(), entry.0.clone());
                proof {
                    assert(k3.deep_view() == (key.0@, key.1@, entry.0@));
                    assert(want.contains_key((key.0@, key.1@, entry.0@)));
                }
                referrers.insert(k3, (label, vstd::slice::slice_to_vec(entry.1.as_slice())));
                n += 1;
            }
            proof {
                let ds = crate::metadata::referrers::referrer_digests(entries@);
                assert forall|d: Text| refs.contains_key(d) implies referrers.map().contains_key(
                    (key.0@, key.1@, d),
                ) by {
                    assert(ds.to_set().contains(d));
                    let x = choose|x: int| 0 <= x < ds.len() && ds[x] == d;
                    assert(entries@[x].0@ == d);
                }
                assert forall|j: int, d: Text|
                    #![trigger rows[j].1.model().contains_key(d)]
                    0 <= j < i + 1 && rows[j].1.model().contains_key(d) implies
                    referrers.map().contains_key((rows[j].0.0@, rows[j].0.1@, d)) by {
                    if j < i {
                        assert(before.contains_key((rows[j].0.0@, rows[j].0.1@, d)));
                    }
                }
            }
            i += 1;
        }
        let r = SnapshotState {
            tags: copy_table(&self.tags),
            media_types: copy_table(&self.media_types),
            referrers,
            backrefs: copy_table(&self.backrefs),
            checksums: copy_table(&self.checksums),
            generation,
            log_offset,
        };
        proof {
            lemma_spellings(
                self.tags.map(),
                self.media_types.map(),
                self.backrefs.map(),
                self.checksums.map(),
            );
            lemma_spellings(r.tags.map(), r.media_types.map(), r.backrefs.map(), r.checksums.map());
            assert forall|k: (Text, Text, Text)| want.contains_key(k) implies
                r.referrers.map().contains_key(k) by {
                let j = lemma_row_of(rows, (k.0, k.1));
                assert(rows[j].0.deep_view() == (k.0, k.1));
                assert(rows[j].1.model().contains_key(k.2));
            }
            assert(r.tables().referrers =~= want);
            assert(r.tables() =~= self.delta().tables);
            assert(r.labels() =~= r.tables().referrers.map_values(|d: Seq<u8>| label_of(d)));
        }
        r
    }
}

/// Joining loses nothing of the second list.
pub proof fn lemma_join_grows(a: Seq<Text>, b: Seq<Text>)
    ensures
        joined(a, b).len() >= a.len(),
        b.len() > 0 ==> joined(a, b).len() > 0,
        forall|x: Text| #[trigger] joined(a, b).contains(x) <==> a.contains(x) || b.contains(x),
    decreases b.len(),
{
    if b.len() > 0 {
        let init = b.drop_last();
        lemma_join_grows(a, init);
        let j = joined(a, init);
        assert forall|x: Text| #[trigger] joined(a, b).contains(x) <==> a.contains(x) || b.contains(x) by {
            assert(b.contains(x) <==> init.contains(x) || x == b.last()) by {
                if b.contains(x) {
                    let i = choose|i: int| 0 <= i < b.len() && b[i] == x;
                    if i < init.len() {
                        assert(init[i] == x);
                    }
                }
                if init.contains(x) {
                    let i = choose|i: int| 0 <= i < init.len() && init[i] == x;
                    assert(b[i] == x);
                }
                assert(b[b.len() - 1] == b.last());
            }
            if !j.contains(b.last()) {
                let p = j.push(b.last());
                if j.contains(x) {
                    let i = choose|i: int| 0 <= i < j.len() && j[i] == x;
                    assert(p[i] == x);
                }
                assert(p[j.len() as int] == b.last());
            }
        }
    }
}

/// Joining to distinct texts keeps them distinct.
pub proof fn lemma_join_distinct(a: Seq<Text>, b: Seq<Text>)
    requires
        a.no_duplicates(),
    ensures
        joined(a, b).no_duplicates(),
    decreases b.len(),
{
    if b.len() > 0 {
        lemma_join_distinct(a, b.drop_last());
    }
}

} // verus!
