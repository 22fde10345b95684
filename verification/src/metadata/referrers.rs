//! The referrers of one subject, with an index by artifact type.

use crate::json::{parse, parsed};
use crate::metadata::Referrer;
use crate::page::{increasing, is_page, opt_text, page_of, page_of_prefix, seconds, texts, Page};
use crate::table::{lemma_push_rows, lemma_row_at, lemma_row_of, rows_map, rows_sorted, Table};
use crate::text::{text_lt, Text};
use vstd::prelude::*;

verus! {

broadcast use vstd::string::group_string_axioms;

/// The `artifactType` string of a descriptor, when it parses and has one.
pub open spec fn artifact_type_of(descriptor: Seq<u8>) -> Option<Text> {
    match parsed(descriptor) {
        Some(v) => v.text_field("artifactType"@),
        None => None,
    }
}

/// The `artifactType` of descriptor bytes.
pub fn artifact_type(descriptor: &[u8]) -> (r: Option<String>)
    ensures
        r matches Some(t) ==> artifact_type_of(descriptor@) == Some(t@),
        r is None ==> artifact_type_of(descriptor@) is None,
{
    match parse(descriptor) {
        Some(v) => match v.text_field("artifactType") {
            Some(t) => Some(t.to_owned()),
            None => None,
        },
        None => None,
    }
}

/// The referrers recorded for one subject.
#[derive(Debug)]
pub struct SubjectReferrers {
    by_digest: Table<String, (Option<String>, Vec<u8>)>,
    by_type: Table<(String, String), ()>,
}

/// The model of an optional string.
pub open spec fn opt_string(s: Option<String>) -> Option<Text> {
    match s {
        Some(s) => Some(s@),
        None => None,
    }
}

/// The digests among `m` whose descriptor has artifact type `t`.
pub open spec fn digests_of_type(m: Map<Text, Seq<u8>>, t: Text) -> Set<Text> {
    Set::new(|d: Text| m.contains_key(d) && artifact_type_of(m[d]) == Some(t))
}

/// The digests a page is cut from: all of them, or those of one type.
pub open spec fn listed(m: Map<Text, Seq<u8>>, artifact_type: Option<Text>) -> Set<Text> {
    match artifact_type {
        Some(t) => digests_of_type(m, t),
        None => m.dom(),
    }
}

/// The digests of some referrers.
pub open spec fn referrer_digests(items: Seq<Referrer>) -> Seq<Text> {
    Seq::new(items.len(), |i: int| items[i].0@)
}

/// `items` is the page of the referrers in `m`: the right digests, each with
/// its descriptor.
pub open spec fn is_referrer_page(
    items: Seq<Referrer>,
    more: bool,
    m: Map<Text, Seq<u8>>,
    artifact_type: Option<Text>,
    last: Option<Text>,
    limit: nat,
) -> bool {
    &&& is_page(referrer_digests(items), more, listed(m, artifact_type), last, limit)
    &&& forall|i: int|
        #![trigger items[i]]
        0 <= i < items.len() ==> m.contains_key(items[i].0@) && items[i].1@ == m[items[i].0@]
}

/// The type index of some referrers: each typed one under its type.
pub open spec fn types_of(m: Map<Text, Seq<u8>>) -> Set<(Text, Text)> {
    Set::new(
        |k: (Text, Text)| m.contains_key(k.1) && artifact_type_of(m[k.1]) == Some(k.0),
    )
}

/// Whether a type has an entry in a type index.
pub open spec fn has_type(types: Set<(Text, Text)>, t: Text) -> bool {
    exists|d: Text| types.contains((t, d))
}

/// The type index follows the referrers: a removed one leaves it, the last one of
/// its type takes the type with it, every other stays, and removing one that is
/// not there changes nothing.
pub proof fn type_index_follows_removal(m: Map<Text, Seq<u8>>, referrer: Text)
    ensures
        forall|t: Text, d: Text| #[trigger]
            types_of(m.remove(referrer)).contains((t, d)) <==> d != referrer && types_of(
                m,
            ).contains((t, d)),
        forall|t: Text|
            (forall|d: Text| #[trigger] types_of(m).contains((t, d)) ==> d == referrer)
                ==> !#[trigger] has_type(types_of(m.remove(referrer)), t),
        !m.contains_key(referrer) ==> m.remove(referrer) == m && types_of(m.remove(referrer))
            == types_of(m),
{
    if !m.contains_key(referrer) {
        assert(m.remove(referrer) =~= m);
    }
    assert forall|t: Text|
        (forall|d: Text| #[trigger] types_of(m).contains((t, d)) ==> d == referrer)
            implies !#[trigger] has_type(types_of(m.remove(referrer)), t) by {
        if has_type(types_of(m.remove(referrer)), t) {
            let d = choose|d: Text| types_of(m.remove(referrer)).contains((t, d));
            assert(types_of(m).contains((t, d)));
        }
    }
}

impl SubjectReferrers {
    /// The type index lists exactly the typed referrers, under their types.
    #[verifier::type_invariant]
    spec fn indexed(&self) -> bool {
        &&& self.by_digest.wf()
        &&& self.by_type.wf()
        &&& forall|d: Text|
            #![trigger self.by_digest.map()[d]]
            self.by_digest.map().contains_key(d) ==> opt_string(self.by_digest.map()[d].0)
                == artifact_type_of(self.by_digest.map()[d].1@)
        &&& forall|t: Text, d: Text|
            #![trigger self.by_type.map().contains_key((t, d))]
            self.by_type.map().contains_key((t, d)) <==> self.by_digest.map().contains_key(d)
                && artifact_type_of(self.by_digest.map()[d].1@) == Some(t)
    }

    /// Referrer digest to descriptor.
    pub closed spec fn model(self) -> Map<Text, Seq<u8>> {
        self.by_digest.map().map_values(|v: (Option<String>, Vec<u8>)| v.1@)
    }

    /// The type index: artifact type and digest of every typed referrer.
    pub closed spec fn types(self) -> Set<(Text, Text)> {
        self.by_type.map().dom()
    }

    /// The type index is that of the referrers.
    proof fn lemma_types(&self)
        requires
            self.indexed(),
        ensures
            self.types() == types_of(self.model()),
    {
        assert(self.types() =~= types_of(self.model()));
    }

    /// No referrers.
    pub fn new() -> (r: Self)
        ensures
            r.model() == Map::<Text, Seq<u8>>::empty(),
            r.types() == types_of(r.model()),
    {
        let r = SubjectReferrers { by_digest: Table::new(), by_type: Table::new() };
        proof {
            assert(r.model() =~= Map::<Text, Seq<u8>>::empty());
            r.lemma_types();
        }
        r
    }

    /// Drops one referrer from the two indexes.
    fn dropped(self, referrer: &str) -> (r: Self)
        ensures
            r.model() == self.model().remove(referrer@),
            r.types() == types_of(r.model()),
    {
        proof {
            use_type_invariant(&self);
        }
        let ghost before = self;
        let SubjectReferrers { mut by_digest, mut by_type } = self;
        let removed = by_digest.remove(&referrer.to_owned());
        if let Some((Some(t), _)) = removed {
            let key = (t, referrer.to_owned());
            proof {
                assert(before.by_digest.map()[referrer@].0 == Some(t));
                assert(key.deep_view() == (t@, referrer@));
            }
            let _ = by_type.remove(&key);
        }
        let r = SubjectReferrers { by_digest, by_type };
        proof {
            assert(r.model() =~= before.model().remove(referrer@));
            r.lemma_types();
        }
        r
    }

    /// Drops one referrer.
    pub fn remove(&mut self, referrer: &str)
        ensures
            final(self).model() == old(self).model().remove(referrer@),
            final(self).types() == types_of(final(self).model()),
    {
        let mut whole = SubjectReferrers::new();
        std::mem::swap(&mut whole, self);
        *self = whole.dropped(referrer);
    }

    /// Records one referrer, replacing what was recorded for its digest.
    pub fn insert(&mut self, referrer: &str, descriptor: &[u8])
        ensures
            final(self).model() == old(self).model().insert(referrer@, descriptor@),
            final(self).types() == types_of(final(self).model()),
    {
        let t = artifact_type(descriptor);
        let mut whole = SubjectReferrers::new();
        std::mem::swap(&mut whole, self);
        let cleared = whole.dropped(referrer);
        proof {
            use_type_invariant(&cleared);
        }
        let ghost before = cleared;
        assert(!before.by_digest.map().contains_key(referrer@)) by {
            assert(!before.model().contains_key(referrer@));
        }
        let SubjectReferrers { mut by_digest, mut by_type } = cleared;
        if let Some(t) = &t {
            let key = (t.clone(), referrer.to_owned());
            assert(key.deep_view() == (t@, referrer@));
            by_type.insert(key, ());
        }
        by_digest.insert(referrer.to_owned(), (t, vstd::slice::slice_to_vec(descriptor)));
        *self = SubjectReferrers { by_digest, by_type };
        proof {
            assert(self.model() =~= before.model().insert(referrer@, descriptor@));
            self.lemma_types();
        }
    }

    /// Whether `referrer` is recorded.
    pub fn contains(&self, referrer: &str) -> (r: bool)
        ensures
            r == self.model().contains_key(referrer@),
    {
        proof {
            use_type_invariant(self);
        }
        self.by_digest.contains(&referrer.to_owned())
    }

    /// Whether nothing is recorded.
    pub fn is_empty(&self) -> (r: bool)
        ensures
            r == (self.model() =~= Map::<Text, Seq<u8>>::empty()),
    {
        proof {
            use_type_invariant(self);
            if self.by_digest.rows().len() > 0 {
                lemma_row_at(self.by_digest.rows(), 0);
                assert(self.model().contains_key(self.by_digest.rows()[0].0@));
            } else {
                assert(self.model() =~= Map::<Text, Seq<u8>>::empty());
            }
        }
        self.by_digest.len() == 0
    }

    /// One page of the referrers, ordered by digest, of one type when given.
    pub fn page(&self, artifact_type: Option<&str>, last: Option<&str>, limit: usize) -> (r: Page<
        Referrer,
    >)
        ensures
            is_referrer_page(
                r.items@,
                r.more,
                self.model(),
                opt_text(artifact_type),
                opt_text(last),
                limit as nat,
            ),
    {
        proof {
            use_type_invariant(self);
        }
        let digests = match artifact_type {
            None => {
                assert(self.by_digest.map().dom() =~= self.model().dom());
                page_of(&self.by_digest, last, limit)
            },
            Some(t) => {
                assert(seconds(self.by_type.map().dom(), t@) =~= digests_of_type(self.model(), t@));
                page_of_prefix(&self.by_type, t, last, limit)
            },
        };
        let ghost want = texts(digests.items@);
        let ghost keys = listed(self.model(), opt_text(artifact_type));
        assert(is_page(want, digests.more, keys, opt_text(last), limit as nat));
        let mut items: Vec<Referrer> = Vec::new();
        let mut i: usize = 0;
        while i < digests.items.len()
            invariant
                self.by_digest.wf(),
                want == texts(digests.items@),
                i <= digests.items@.len(),
                items@.len() == i,
                forall|j: int|
                    #![trigger want[j]]
                    0 <= j < want.len() ==> self.model().contains_key(want[j]),
                forall|j: int|
                    #![trigger items@[j]]
                    0 <= j < i ==> items@[j].0@ == want[j] && items@[j].1@ == self.model()[want[j]],
            decreases digests.items@.len() - i,
        {
            let d = &digests.items[i];
            assert(want[i as int] == d@);
            assert(self.model().contains_key(want[i as int]));
            let entry = self.by_digest.get(d).unwrap();
            items.push((d.clone(), vstd::slice::slice_to_vec(entry.1.as_slice())));
            i += 1;
        }
        assert(referrer_digests(items@) =~= want);
        Page { items, more: digests.more }
    }

    /// Records everything here in `out` too, replacing what it had.
    pub fn merge_into(&self, out: &mut SubjectReferrers)
        ensures
            final(out).model() == old(out).model().union_prefer_right(self.model()),
            final(out).types() == types_of(final(out).model()),
    {
        proof {
            use_type_invariant(self);
            use_type_invariant(&*out);
            out.lemma_types();
        }
        let ghost base = out.model();
        let ghost rows = self.by_digest.rows();
        let mut i: usize = 0;
        assert(out.model() =~= base.union_prefer_right(first_rows(rows, 0)));
        while i < self.by_digest.len()
            invariant
                rows == self.by_digest.rows(),
                self.by_digest.wf(),
                i <= rows.len(),
                out.model() == base.union_prefer_right(first_rows(rows, i as int)),
                out.types() == types_of(out.model()),
            decreases rows.len() - i,
        {
            let ghost before = out.model();
            out.insert(self.by_digest.key_at(i).as_str(), self.by_digest.value_at(i).1.as_slice());
            proof {
                lemma_first_rows(rows, i as int);
                assert(out.model() =~= base.union_prefer_right(first_rows(rows, i + 1)));
            }
            i += 1;
        }
        proof {
            lemma_all_rows(rows);
            assert(first_rows(rows, rows.len() as int) =~= self.model());
        }
    }

    /// Every referrer, ordered by digest.
    pub fn listing(&self) -> (r: Vec<Referrer>)
        ensures
            increasing(referrer_digests(r@)),
            referrer_digests(r@).to_set() == self.model().dom(),
            forall|i: int|
                #![trigger r@[i]]
                0 <= i < r@.len() ==> self.model().contains_key(r@[i].0@) && r@[i].1@
                    == self.model()[r@[i].0@],
    {
        proof {
            use_type_invariant(self);
        }
        let ghost rows = self.by_digest.rows();
        let mut out: Vec<Referrer> = Vec::new();
        let mut i: usize = 0;
        while i < self.by_digest.len()
            invariant
                rows == self.by_digest.rows(),
                i <= rows.len(),
                out@.len() == i,
                forall|j: int|
                    #![trigger out@[j]]
                    0 <= j < i ==> out@[j].0@ == rows[j].0@ && out@[j].1@ == rows[j].1.1@,
            decreases rows.len() - i,
        {
            out.push(
                (
                    self.by_digest.key_at(i).clone(),
                    vstd::slice::slice_to_vec(self.by_digest.value_at(i).1.as_slice()),
                ),
            );
            i += 1;
        }
        proof {
            let ds = referrer_digests(out@);
            assert forall|a: int, b: int|
                #![trigger ds[a], ds[b]]
                0 <= a < b < ds.len() implies text_lt(ds[a], ds[b]) by {
                assert(out@[a].0@ == rows[a].0@ && out@[b].0@ == rows[b].0@);
                assert(text_lt(rows[a].0.deep_view(), rows[b].0.deep_view()));
            }
            assert forall|j: int| #![trigger out@[j]] 0 <= j < out@.len() implies
                self.model().contains_key(out@[j].0@) && out@[j].1@ == self.model()[out@[j].0@] by {
                lemma_row_at(rows, j);
            }
            assert(ds.to_set() =~= self.model().dom()) by {
                assert forall|d: Text| self.model().contains_key(d) implies ds.to_set().contains(d) by {
                    let j = lemma_row_of(rows, d);
                    assert(ds[j] == d);
                }
                assert forall|d: Text| ds.to_set().contains(d) implies self.model().contains_key(d) by {
                    let j = choose|j: int| 0 <= j < ds.len() && ds[j] == d;
                    assert(out@[j].0@ == d);
                }
            }
        }
        out
    }

    /// Number of referrers.
    pub fn len(&self) -> (r: usize)
        ensures
            r == self.model().len(),
            self.model().dom().finite(),
    {
        proof {
            use_type_invariant(self);
            crate::table::lemma_rows_len(self.by_digest.rows());
            assert(self.model().dom() =~= self.by_digest.map().dom());
        }
        self.by_digest.len()
    }
}

/// What the first `n` rows record.
spec fn first_rows(rows: Seq<(String, (Option<String>, Vec<u8>))>, n: int) -> Map<Text, Seq<u8>> {
    rows_map(rows.take(n)).map_values(|v: (Option<String>, Vec<u8>)| v.1@)
}

/// One more row records one more referrer.
proof fn lemma_first_rows(rows: Seq<(String, (Option<String>, Vec<u8>))>, n: int)
    requires
        rows_sorted(rows),
        0 <= n < rows.len(),
    ensures
        first_rows(rows, n + 1) == first_rows(rows, n).insert(rows[n].0@, rows[n].1.1@),
{
    let init = rows.take(n);
    assert(rows.take(n + 1) =~= init.push(rows[n]));
    assert forall|i: int| #![trigger init[i]] 0 <= i < init.len() implies text_lt(
        init[i].0.deep_view(),
        rows[n].0.deep_view(),
    ) by {
        assert(init[i] == rows[i]);
    }
    assert forall|i: int, j: int|
        #![trigger init[i], init[j]]
        0 <= i < j < init.len() implies text_lt(init[i].0.deep_view(), init[j].0.deep_view()) by {
        assert(init[i] == rows[i] && init[j] == rows[j]);
    }
    lemma_push_rows(init, rows[n]);
    assert(first_rows(rows, n + 1) =~= first_rows(rows, n).insert(rows[n].0@, rows[n].1.1@));
}

/// All rows together are the whole map.
proof fn lemma_all_rows(rows: Seq<(String, (Option<String>, Vec<u8>))>)
    ensures
        rows.take(rows.len() as int) == rows,
{
    assert(rows.take(rows.len() as int) =~= rows);
}

} // verus!
