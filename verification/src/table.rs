//! A map kept as rows in strictly increasing key order: exact lookups by binary
//! search, ordered walks by row number.

use crate::page::{increasing, texts};
use crate::text::{
    rank, same, text_lt, text_lt_irreflexive, text_lt_total, text_lt_transitive, Rank, Text,
};
use vstd::prelude::*;

verus! {

/// A key with a total order on its model.
pub trait TableKey: DeepView + Sized {
    /// `a` sorts strictly before `b`.
    spec fn key_lt(a: <Self as DeepView>::V, b: <Self as DeepView>::V) -> bool;

    proof fn key_lt_irreflexive(a: <Self as DeepView>::V)
        ensures
            !Self::key_lt(a, a),
    ;

    proof fn key_lt_transitive(
        a: <Self as DeepView>::V,
        b: <Self as DeepView>::V,
        c: <Self as DeepView>::V,
    )
        requires
            Self::key_lt(a, b),
            Self::key_lt(b, c),
        ensures
            Self::key_lt(a, c),
    ;

    proof fn key_lt_total(a: <Self as DeepView>::V, b: <Self as DeepView>::V)
        ensures
            a == b || Self::key_lt(a, b) || Self::key_lt(b, a),
    ;

    /// Compares two keys.
    fn key_rank(&self, other: &Self) -> (r: Rank)
        ensures
            r == Rank::Same <==> self.deep_view() == other.deep_view(),
            r == Rank::Below <==> Self::key_lt(self.deep_view(), other.deep_view()),
    ;

    /// A key with the same model.
    fn copied(&self) -> (r: Self)
        ensures
            r.deep_view() == self.deep_view(),
    ;
}

/// Order on pairs: by the first part, then the second.
pub open spec fn pair_lt(a: (Text, Text), b: (Text, Text)) -> bool {
    text_lt(a.0, b.0) || (a.0 == b.0 && text_lt(a.1, b.1))
}

/// Order on triples: by the first part, then as pairs.
pub open spec fn triple_lt(a: (Text, Text, Text), b: (Text, Text, Text)) -> bool {
    text_lt(a.0, b.0) || (a.0 == b.0 && pair_lt((a.1, a.2), (b.1, b.2)))
}

/// Order on quadruples: by the first part, then as triples.
pub open spec fn quad_lt(a: (Text, Text, Text, Text), b: (Text, Text, Text, Text)) -> bool {
    text_lt(a.0, b.0) || (a.0 == b.0 && triple_lt((a.1, a.2, a.3), (b.1, b.2, b.3)))
}

/// The order of pairs is strict and total.
pub proof fn pair_lt_order(a: (Text, Text), b: (Text, Text), c: (Text, Text))
    ensures
        !pair_lt(a, a),
        pair_lt(a, b) && pair_lt(b, c) ==> pair_lt(a, c),
        a == b || pair_lt(a, b) || pair_lt(b, a),
{
    text_lt_irreflexive(a.0);
    text_lt_irreflexive(a.1);
    text_lt_total(a.0, b.0);
    text_lt_total(a.1, b.1);
    if text_lt(a.0, b.0) && text_lt(b.0, c.0) {
        text_lt_transitive(a.0, b.0, c.0);
    }
    if text_lt(a.1, b.1) && text_lt(b.1, c.1) {
        text_lt_transitive(a.1, b.1, c.1);
    }
}

/// The order of triples is strict and total.
pub proof fn triple_lt_order(
    a: (Text, Text, Text),
    b: (Text, Text, Text),
    c: (Text, Text, Text),
)
    ensures
        !triple_lt(a, a),
        triple_lt(a, b) && triple_lt(b, c) ==> triple_lt(a, c),
        a == b || triple_lt(a, b) || triple_lt(b, a),
{
    text_lt_irreflexive(a.0);
    text_lt_total(a.0, b.0);
    pair_lt_order((a.1, a.2), (b.1, b.2), (c.1, c.2));
    if text_lt(a.0, b.0) && text_lt(b.0, c.0) {
        text_lt_transitive(a.0, b.0, c.0);
    }
}

/// The order of quadruples is strict and total.
pub proof fn quad_lt_order(
    a: (Text, Text, Text, Text),
    b: (Text, Text, Text, Text),
    c: (Text, Text, Text, Text),
)
    ensures
        !quad_lt(a, a),
        quad_lt(a, b) && quad_lt(b, c) ==> quad_lt(a, c),
        a == b || quad_lt(a, b) || quad_lt(b, a),
{
    text_lt_irreflexive(a.0);
    text_lt_total(a.0, b.0);
    triple_lt_order((a.1, a.2, a.3), (b.1, b.2, b.3), (c.1, c.2, c.3));
    if text_lt(a.0, b.0) && text_lt(b.0, c.0) {
        text_lt_transitive(a.0, b.0, c.0);
    }
}

impl TableKey for String {
    open spec fn key_lt(a: Text, b: Text) -> bool {
        text_lt(a, b)
    }

    proof fn key_lt_irreflexive(a: Text) {
        text_lt_irreflexive(a);
    }

    proof fn key_lt_transitive(a: Text, b: Text, c: Text) {
        text_lt_transitive(a, b, c);
    }

    proof fn key_lt_total(a: Text, b: Text) {
        text_lt_total(a, b);
    }

    fn key_rank(&self, other: &Self) -> (r: Rank) {
        proof {
            text_lt_irreflexive(self@);
        }
        rank(self.as_str(), other.as_str())
    }

    fn copied(&self) -> (r: Self) {
        self.clone()
    }
}

impl TableKey for (String, String) {
    open spec fn key_lt(a: (Text, Text), b: (Text, Text)) -> bool {
        pair_lt(a, b)
    }

    proof fn key_lt_irreflexive(a: (Text, Text)) {
        pair_lt_order(a, a, a);
    }

    proof fn key_lt_transitive(a: (Text, Text), b: (Text, Text), c: (Text, Text)) {
        pair_lt_order(a, b, c);
    }

    proof fn key_lt_total(a: (Text, Text), b: (Text, Text)) {
        pair_lt_order(a, b, a);
    }

    fn key_rank(&self, other: &Self) -> (r: Rank) {
        proof {
            let a = self.deep_view();
            let b = other.deep_view();
            pair_lt_order(a, b, a);
            text_lt_irreflexive(a.0);
            text_lt_irreflexive(a.1);
        }
        let first = rank(self.0.as_str(), other.0.as_str());
        if first == Rank::Same {
            rank(self.1.as_str(), other.1.as_str())
        } else {
            first
        }
    }

    fn copied(&self) -> (r: Self) {
        (self.0.clone(), self.1.clone())
    }
}

impl TableKey for (String, String, String) {
    open spec fn key_lt(a: (Text, Text, Text), b: (Text, Text, Text)) -> bool {
        triple_lt(a, b)
    }

    proof fn key_lt_irreflexive(a: (Text, Text, Text)) {
        triple_lt_order(a, a, a);
    }

    proof fn key_lt_transitive(
        a: (Text, Text, Text),
        b: (Text, Text, Text),
        c: (Text, Text, Text),
    ) {
        triple_lt_order(a, b, c);
    }

    proof fn key_lt_total(a: (Text, Text, Text), b: (Text, Text, Text)) {
        triple_lt_order(a, b, a);
    }

    fn key_rank(&self, other: &Self) -> (r: Rank) {
        proof {
            let a = self.deep_view();
            let b = other.deep_view();
            text_lt_irreflexive(a.0);
            text_lt_irreflexive(a.1);
            text_lt_irreflexive(a.2);
        }
        let first = rank(self.0.as_str(), other.0.as_str());
        if first != Rank::Same {
            return first;
        }
        let second = rank(self.1.as_str(), other.1.as_str());
        if second != Rank::Same {
            return second;
        }
        rank(self.2.as_str(), other.2.as_str())
    }

    fn copied(&self) -> (r: Self) {
        (self.0.clone(), self.1.clone(), self.2.clone())
    }
}

impl TableKey for (String, String, String, String) {
    open spec fn key_lt(a: (Text, Text, Text, Text), b: (Text, Text, Text, Text)) -> bool {
        quad_lt(a, b)
    }

    proof fn key_lt_irreflexive(a: (Text, Text, Text, Text)) {
        quad_lt_order(a, a, a);
    }

    proof fn key_lt_transitive(
        a: (Text, Text, Text, Text),
        b: (Text, Text, Text, Text),
        c: (Text, Text, Text, Text),
    ) {
        quad_lt_order(a, b, c);
    }

    proof fn key_lt_total(a: (Text, Text, Text, Text), b: (Text, Text, Text, Text)) {
        quad_lt_order(a, b, a);
    }

    fn key_rank(&self, other: &Self) -> (r: Rank) {
        proof {
            let a = self.deep_view();
            let b = other.deep_view();
            text_lt_irreflexive(a.0);
            text_lt_irreflexive(a.1);
            text_lt_irreflexive(a.2);
            text_lt_irreflexive(a.3);
        }
        let first = rank(self.0.as_str(), other.0.as_str());
        if first != Rank::Same {
            return first;
        }
        let second = rank(self.1.as_str(), other.1.as_str());
        if second != Rank::Same {
            return second;
        }
        let third = rank(self.2.as_str(), other.2.as_str());
        if third != Rank::Same {
            return third;
        }
        rank(self.3.as_str(), other.3.as_str())
    }

    fn copied(&self) -> (r: Self) {
        (self.0.clone(), self.1.clone(), self.2.clone(), self.3.clone())
    }
}

/// Rows in strictly increasing key order.
pub open spec fn rows_sorted<K: TableKey, V>(rows: Seq<(K, V)>) -> bool {
    forall|i: int, j: int|
        #![trigger rows[i], rows[j]]
        0 <= i < j < rows.len() ==> K::key_lt(rows[i].0.deep_view(), rows[j].0.deep_view())
}

/// Row `i` holds key `k`.
pub open spec fn row_holds<K: TableKey, V>(
    rows: Seq<(K, V)>,
    i: int,
    k: <K as DeepView>::V,
) -> bool {
    0 <= i < rows.len() && rows[i].0.deep_view() == k
}

/// The map that the rows spell out.
pub open spec fn rows_map<K: TableKey, V>(rows: Seq<(K, V)>) -> Map<
    <K as DeepView>::V,
    V,
> {
    Map::new(
        |k: <K as DeepView>::V| exists|i: int| row_holds(rows, i, k),
        |k: <K as DeepView>::V| rows[choose|i: int| row_holds(rows, i, k)].1,
    )
}

/// The entries of `m` that satisfy `pred`.
pub open spec fn kept<A, B>(m: Map<A, B>, pred: spec_fn(A, B) -> bool) -> Map<A, B> {
    Map::new(|k: A| m.contains_key(k) && pred(k, m[k]), |k: A| m[k])
}

/// What the map holds at row `i`.
pub proof fn lemma_row_at<K: TableKey, V>(rows: Seq<(K, V)>, i: int)
    requires
        rows_sorted(rows),
        0 <= i < rows.len(),
    ensures
        rows_map(rows).contains_key(rows[i].0.deep_view()),
        rows_map(rows)[rows[i].0.deep_view()] == rows[i].1,
{
    let k = rows[i].0.deep_view();
    assert(row_holds(rows, i, k));
    let j = choose|j: int| row_holds(rows, j, k);
    K::key_lt_irreflexive(k);
    if i < j {
        assert(K::key_lt(rows[i].0.deep_view(), rows[j].0.deep_view()));
    } else if j < i {
        assert(K::key_lt(rows[j].0.deep_view(), rows[i].0.deep_view()));
    }
}

/// Every key of the map stands in some row.
pub proof fn lemma_row_of<K: TableKey, V>(
    rows: Seq<(K, V)>,
    k: <K as DeepView>::V,
) -> (i: int)
    requires
        rows_sorted(rows),
        rows_map(rows).contains_key(k),
    ensures
        0 <= i < rows.len(),
        rows[i].0.deep_view() == k,
        rows_map(rows)[k] == rows[i].1,
{
    let i = choose|i: int| row_holds(rows, i, k);
    lemma_row_at(rows, i);
    i
}

/// Keys of two rows are the same only in the same row.
pub proof fn lemma_row_unique<K: TableKey, V>(rows: Seq<(K, V)>, i: int, j: int)
    requires
        rows_sorted(rows),
        0 <= i < rows.len(),
        0 <= j < rows.len(),
        rows[i].0.deep_view() == rows[j].0.deep_view(),
    ensures
        i == j,
{
    K::key_lt_irreflexive(rows[i].0.deep_view());
    if i < j {
        assert(K::key_lt(rows[i].0.deep_view(), rows[j].0.deep_view()));
    } else if j < i {
        assert(K::key_lt(rows[j].0.deep_view(), rows[i].0.deep_view()));
    }
}

/// The models of some keys.
pub open spec fn key_views<K: TableKey>(s: Seq<K>) -> Seq<<K as DeepView>::V> {
    Seq::new(s.len(), |i: int| s[i].deep_view())
}

/// A sorted map from keys to values.
#[derive(Debug)]
pub struct Table<K, V> {
    rows: Vec<(K, V)>,
}

impl<K: TableKey, V> Table<K, V> {
    /// The rows, in order.
    pub closed spec fn rows(self) -> Seq<(K, V)> {
        self.rows@
    }

    /// The rows are in strictly increasing key order.
    pub open spec fn wf(self) -> bool {
        rows_sorted(self.rows())
    }

    /// What the table holds.
    pub open spec fn map(self) -> Map<<K as DeepView>::V, V> {
        rows_map(self.rows())
    }

    /// An empty table.
    pub fn new() -> (r: Self)
        ensures
            r.wf(),
            r.rows().len() == 0,
            r.map() == Map::<<K as DeepView>::V, V>::empty(),
    {
        let r = Table { rows: Vec::new() };
        assert(r.map() =~= Map::empty());
        r
    }

    /// Number of rows.
    pub fn len(&self) -> (r: usize)
        ensures
            r == self.rows().len(),
    {
        self.rows.len()
    }

    /// The key of row `i`.
    pub fn key_at(&self, i: usize) -> (r: &K)
        requires
            i < self.rows().len(),
        ensures
            *r == self.rows()[i as int].0,
    {
        &self.rows[i].0
    }

    /// The value of row `i`.
    pub fn value_at(&self, i: usize) -> (r: &V)
        requires
            i < self.rows().len(),
        ensures
            *r == self.rows()[i as int].1,
    {
        &self.rows[i].1
    }

    /// The first row whose key does not sort before `k`.
    pub fn seek(&self, k: &K) -> (r: usize)
        requires
            self.wf(),
        ensures
            r <= self.rows().len(),
            forall|i: int|
                #![trigger self.rows()[i]]
                0 <= i < r ==> K::key_lt(self.rows()[i].0.deep_view(), k.deep_view()),
            forall|i: int|
                #![trigger self.rows()[i]]
                r <= i < self.rows().len() ==> !K::key_lt(
                    self.rows()[i].0.deep_view(),
                    k.deep_view(),
                ),
    {
        let mut lo: usize = 0;
        let mut hi: usize = self.rows.len();
        while lo < hi
            invariant
                self.wf(),
                lo <= hi <= self.rows().len(),
                self.rows() == self.rows@,
                forall|i: int|
                    #![trigger self.rows()[i]]
                    0 <= i < lo ==> K::key_lt(self.rows()[i].0.deep_view(), k.deep_view()),
                forall|i: int|
                    #![trigger self.rows()[i]]
                    hi <= i < self.rows().len() ==> !K::key_lt(
                        self.rows()[i].0.deep_view(),
                        k.deep_view(),
                    ),
            decreases hi - lo,
        {
            let mid: usize = lo + (hi - lo) / 2;
            let r = self.rows[mid].0.key_rank(k);
            if r == Rank::Below {
                proof {
                    assert forall|i: int| 0 <= i < mid + 1 implies K::key_lt(
                        (#[trigger] self.rows()[i]).0.deep_view(),
                        k.deep_view(),
                    ) by {
                        if i < mid {
                            K::key_lt_transitive(
                                self.rows()[i].0.deep_view(),
                                self.rows()[mid as int].0.deep_view(),
                                k.deep_view(),
                            );
                        }
                    }
                }
                lo = mid + 1;
            } else {
                proof {
                    assert forall|i: int| mid <= i < self.rows().len() implies !K::key_lt(
                        (#[trigger] self.rows()[i]).0.deep_view(),
                        k.deep_view(),
                    ) by {
                        if i > mid && K::key_lt(self.rows()[i].0.deep_view(), k.deep_view()) {
                            K::key_lt_transitive(
                                self.rows()[mid as int].0.deep_view(),
                                self.rows()[i].0.deep_view(),
                                k.deep_view(),
                            );
                        }
                    }
                }
                hi = mid;
            }
        }
        lo
    }

    /// Whether row `i` holds exactly `k`.
    fn is_at(&self, i: usize, k: &K) -> (r: bool)
        ensures
            r == row_holds(self.rows(), i as int, k.deep_view()),
    {
        i < self.rows.len() && self.rows[i].0.key_rank(k) == Rank::Same
    }

    /// A key that the row found by `seek` does not hold is not in the table.
    proof fn lemma_absent(self, i: int, k: <K as DeepView>::V)
        requires
            self.wf(),
            0 <= i <= self.rows().len(),
            forall|j: int|
                #![trigger self.rows()[j]]
                0 <= j < i ==> K::key_lt(self.rows()[j].0.deep_view(), k),
            forall|j: int|
                #![trigger self.rows()[j]]
                i <= j < self.rows().len() ==> !K::key_lt(self.rows()[j].0.deep_view(), k),
            !row_holds(self.rows(), i, k),
        ensures
            !self.map().contains_key(k),
            forall|j: int|
                #![trigger self.rows()[j]]
                i <= j < self.rows().len() ==> K::key_lt(k, self.rows()[j].0.deep_view()),
    {
        K::key_lt_irreflexive(k);
        if self.map().contains_key(k) {
            let j = lemma_row_of(self.rows(), k);
            if j > i {
                assert(K::key_lt(self.rows()[i].0.deep_view(), self.rows()[j].0.deep_view()));
                assert(!K::key_lt(self.rows()[i].0.deep_view(), k));
            } else if j < i {
                assert(K::key_lt(self.rows()[j].0.deep_view(), k));
            }
        }
        assert forall|j: int| i <= j < self.rows().len() implies K::key_lt(
            k,
            (#[trigger] self.rows()[j]).0.deep_view(),
        ) by {
            K::key_lt_total(k, self.rows()[j].0.deep_view());
            if self.rows()[j].0.deep_view() == k {
                lemma_row_at(self.rows(), j);
            }
        }
    }

    /// The value stored for `k`.
    pub fn get(&self, k: &K) -> (r: Option<&V>)
        requires
            self.wf(),
        ensures
            r is Some <==> self.map().contains_key(k.deep_view()),
            r matches Some(v) ==> *v == self.map()[k.deep_view()],
    {
        let i = self.seek(k);
        if self.is_at(i, k) {
            proof {
                lemma_row_at(self.rows(), i as int);
            }
            Some(&self.rows[i].1)
        } else {
            proof {
                self.lemma_absent(i as int, k.deep_view());
            }
            None
        }
    }

    /// Appends a row whose key sorts after every other.
    pub fn push(&mut self, k: K, v: V)
        requires
            old(self).wf(),
            forall|i: int|
                #![trigger old(self).rows()[i]]
                0 <= i < old(self).rows().len() ==> K::key_lt(
                    old(self).rows()[i].0.deep_view(),
                    k.deep_view(),
                ),
        ensures
            final(self).wf(),
            final(self).rows() == old(self).rows().push((k, v)),
            final(self).map() == old(self).map().insert(k.deep_view(), v),
    {
        proof {
            lemma_push_rows(self.rows(), (k, v));
        }
        self.rows.push((k, v));
    }

    /// Whether `k` is in the table.
    pub fn contains(&self, k: &K) -> (r: bool)
        requires
            self.wf(),
        ensures
            r == self.map().contains_key(k.deep_view()),
    {
        self.get(k).is_some()
    }

    /// Stores `v` for `k`, replacing what was there.
    pub fn insert(&mut self, k: K, v: V)
        requires
            old(self).wf(),
        ensures
            final(self).wf(),
            final(self).map() == old(self).map().insert(k.deep_view(), v),
    {
        let i = self.seek(&k);
        let ghost before = self.rows();
        if self.is_at(i, &k) {
            proof {
                lemma_update_rows(before, i as int, v);
            }
            self.rows[i].1 = v;
        } else {
            proof {
                self.lemma_absent(i as int, k.deep_view());
                lemma_insert_rows(before, i as int, (k, v));
            }
            self.rows.insert(i, (k, v));
        }
    }

    /// The value of row `i`, to be changed in place.
    pub fn value_mut(&mut self, i: usize) -> (r: &mut V)
        requires
            old(self).wf(),
            i < old(self).rows().len(),
        ensures
            *r == old(self).rows()[i as int].1,
            final(self).rows() == old(self).rows().update(
                i as int,
                (old(self).rows()[i as int].0, *final(r)),
            ),
            final(self).wf(),
            final(self).map() == old(self).map().insert(
                old(self).rows()[i as int].0.deep_view(),
                *final(r),
            ),
    {
        let row: &mut (K, V) = &mut self.rows[i];
        let r: &mut V = &mut row.1;
        proof {
            lemma_update_rows(old(self).rows(), i as int, *final(r));
        }
        r
    }

    /// The value stored for `k`, to be changed in place; `default` is stored
    /// first where there was none.
    pub fn entry(&mut self, k: K, default: V) -> (r: &mut V)
        requires
            old(self).wf(),
        ensures
            *r == (if old(self).map().contains_key(k.deep_view()) {
                old(self).map()[k.deep_view()]
            } else {
                default
            }),
            final(self).wf(),
            final(self).map() == old(self).map().insert(k.deep_view(), *final(r)),
    {
        let ghost key = k.deep_view();
        let i = self.seek(&k);
        if !self.is_at(i, &k) {
            proof {
                self.lemma_absent(i as int, key);
                lemma_insert_rows(self.rows(), i as int, (k, default));
            }
            self.rows.insert(i, (k, default));
        } else {
            proof {
                lemma_row_at(self.rows(), i as int);
            }
        }
        let ghost mid = self.map();
        assert(self.rows()[i as int].0.deep_view() == key);
        assert forall|v: V| #[trigger] mid.insert(key, v) =~= old(self).map().insert(key, v) by {}
        self.value_mut(i)
    }

    /// Removes `k`, handing back its value.
    pub fn remove(&mut self, k: &K) -> (r: Option<V>)
        requires
            old(self).wf(),
        ensures
            final(self).wf(),
            final(self).map() == old(self).map().remove(k.deep_view()),
            r is Some <==> old(self).map().contains_key(k.deep_view()),
            r matches Some(v) ==> v == old(self).map()[k.deep_view()],
    {
        let i = self.seek(k);
        let ghost before = self.rows();
        let ghost key = k.deep_view();
        if self.is_at(i, k) {
            proof {
                lemma_row_at(before, i as int);
            }
            let (_, v) = self.rows.remove(i);
            proof {
                let after = self.rows();
                assert(after == before.remove(i as int));
                assert forall|a: int| 0 <= a < after.len() implies #[trigger] after[a]
                    == before[if a < i { a } else { a + 1 }] by {}
                assert(rows_sorted(after));
                assert(rows_map(after) =~= rows_map(before).remove(key)) by {
                    assert forall|x: <K as DeepView>::V|
                        rows_map(after).contains_key(x) <==> rows_map(before).remove(
                            key,
                        ).contains_key(x) by {
                        if rows_map(after).contains_key(x) {
                            let a = lemma_row_of(after, x);
                            let b = if a < i { a } else { a + 1 };
                            assert(row_holds(before, b, x));
                            if x == key {
                                lemma_row_unique(before, b, i as int);
                            }
                        }
                        if rows_map(before).contains_key(x) && x != key {
                            let a = lemma_row_of(before, x);
                            let b = if a < i { a } else { a - 1 };
                            assert(row_holds(after, b, x));
                        }
                    }
                    assert forall|x: <K as DeepView>::V| rows_map(after).contains_key(x) implies
                        rows_map(after)[x] == rows_map(before).remove(key)[x] by {
                        let a = lemma_row_of(after, x);
                        lemma_row_at(before, if a < i { a } else { a + 1 });
                    }
                }
            }
            Some(v)
        } else {
            proof {
                self.lemma_absent(i as int, key);
                assert(rows_map(before) =~= rows_map(before).remove(key));
            }
            None
        }
    }

    /// The keys in order, each once.
    pub fn keys(&self) -> (r: Vec<K>)
        requires
            self.wf(),
        ensures
            key_views(r@).no_duplicates(),
            key_views(r@).to_set() == self.map().dom(),
    {
        let mut out: Vec<K> = Vec::new();
        let mut i: usize = 0;
        while i < self.rows.len()
            invariant
                i <= self.rows@.len(),
                out@.len() == i,
                forall|j: int|
                    #![trigger out@[j]]
                    0 <= j < i ==> out@[j].deep_view() == self.rows@[j].0.deep_view(),
            decreases self.rows@.len() - i,
        {
            out.push(self.rows[i].0.copied());
            i += 1;
        }
        proof {
            let rows = self.rows();
            let views = key_views(out@);
            assert forall|a: int, b: int| 0 <= a < views.len() && 0 <= b < views.len() && a
                != b implies views[a] != views[b] by {
                if views[a] == views[b] {
                    assert(out@[a].deep_view() == out@[b].deep_view());
                    lemma_row_unique(rows, a, b);
                }
            }
            assert forall|k: <K as DeepView>::V| #[trigger] views.to_set().contains(
                k,
            ) <==> self.map().contains_key(k) by {
                if views.contains(k) {
                    let a = choose|a: int| 0 <= a < views.len() && views[a] == k;
                    assert(out@[a].deep_view() == k);
                    lemma_row_at(rows, a);
                }
                if self.map().contains_key(k) {
                    let a = lemma_row_of(rows, k);
                    assert(out@[a].deep_view() == k);
                    assert(views[a] == k);
                }
            }
            assert(views.to_set() =~= self.map().dom());
        }
        out
    }

    /// Keeps the rows that `keep` accepts. `pred` is what `keep` decides.
    pub fn retain<F: Fn(&K, &V) -> bool>(
        &mut self,
        keep: F,
        pred: Ghost<spec_fn(<K as DeepView>::V, V) -> bool>,
    )
        requires
            old(self).wf(),
            forall|k: &K, v: &V| keep.requires((k, v)),
            forall|k: &K, v: &V, b: bool| #[trigger]
                keep.ensures((k, v), b) ==> b == pred@(k.deep_view(), *v),
        ensures
            final(self).wf(),
            final(self).map() == kept(old(self).map(), pred@),
    {
        let ghost orig = self.rows@;
        let ghost p = pred@;
        let ghost f = |row: (K, V)| p(row.0.deep_view(), row.1);
        let mut back: Vec<(K, V)> = Vec::new();
        assert(orig.filter(f) + back@.reverse() =~= orig.filter(f));
        while self.rows.len() > 0
            invariant
                orig.filter(f) == self.rows@.filter(f) + back@.reverse(),
                f == (|row: (K, V)| p(row.0.deep_view(), row.1)),
                forall|k: &K, v: &V| keep.requires((k, v)),
                forall|k: &K, v: &V, b: bool| #[trigger]
                    keep.ensures((k, v), b) ==> b == p(k.deep_view(), *v),
            decreases self.rows@.len(),
        {
            let ghost rows0 = self.rows@;
            let ghost back0 = back@;
            let row = self.rows.pop().unwrap();
            proof {
                assert(self.rows@ == rows0.drop_last());
                reveal(Seq::filter);
            }
            if keep(&row.0, &row.1) {
                back.push(row);
                proof {
                    assert(f(row));
                    assert(rows0.filter(f) == self.rows@.filter(f).push(row));
                    assert(back@.reverse() =~= seq![row] + back0.reverse());
                    assert(self.rows@.filter(f) + back@.reverse() =~= rows0.filter(f)
                        + back0.reverse());
                }
            }
        }
        proof {
            reveal(Seq::filter);
            assert(orig.filter(f) =~= back@.reverse());
        }
        while back.len() > 0
            invariant
                orig.filter(f) == self.rows@ + back@.reverse(),
            decreases back@.len(),
        {
            let ghost rows0 = self.rows@;
            let ghost back0 = back@;
            let row = back.pop().unwrap();
            self.rows.push(row);
            proof {
                assert(back0.reverse() =~= seq![row] + back@.reverse());
                assert(rows0 + back0.reverse() =~= self.rows@ + back@.reverse());
            }
        }
        proof {
            assert(self.rows@ =~= orig.filter(f));
            lemma_filter_rows(orig, p);
        }
    }
}

/// Filtering sorted rows keeps them sorted and filters the map.
proof fn lemma_filter_rows<K: TableKey, V>(
    rows: Seq<(K, V)>,
    p: spec_fn(<K as DeepView>::V, V) -> bool,
)
    requires
        rows_sorted(rows),
    ensures
        rows_sorted(rows.filter(|row: (K, V)| p(row.0.deep_view(), row.1))),
        rows_map(rows.filter(|row: (K, V)| p(row.0.deep_view(), row.1))) == kept(
            rows_map(rows),
            p,
        ),
    decreases rows.len(),
{
    let f = |row: (K, V)| p(row.0.deep_view(), row.1);
    reveal(Seq::filter);
    if rows.len() == 0 {
        assert(rows_map(rows.filter(f)) =~= kept(rows_map(rows), p));
    } else {
        let n = rows.len() - 1;
        let init = rows.drop_last();
        let last = rows[n];
        lemma_filter_rows(init, p);
        lemma_push_rows(init, last);
        assert(init.push(last) =~= rows);
        if f(last) {
            let sub = init.filter(f);
            assert(rows.filter(f) == sub.push(last));
            assert forall|i: int| 0 <= i < sub.len() implies K::key_lt(
                (#[trigger] sub[i]).0.deep_view(),
                last.0.deep_view(),
            ) by {
                lemma_row_at(sub, i);
                let j = lemma_row_of(init, sub[i].0.deep_view());
                assert(K::key_lt(rows[j].0.deep_view(), rows[n].0.deep_view()));
            }
            lemma_push_rows(sub, last);
            assert(rows_map(rows.filter(f)) =~= kept(rows_map(rows), p));
        } else {
            assert(rows_map(rows.filter(f)) =~= kept(rows_map(rows), p)) by {
                K::key_lt_irreflexive(last.0.deep_view());
                if rows_map(init).contains_key(last.0.deep_view()) {
                    let j = lemma_row_of(init, last.0.deep_view());
                    assert(K::key_lt(rows[j].0.deep_view(), rows[n].0.deep_view()));
                }
            }
        }
    }
}

/// The rows whose pair begins with `first`: from the first index up to, and not
/// with, the second.
pub fn range_of_pairs<V>(t: &Table<(String, String), V>, first: &str) -> (r: (usize, usize))
    requires
        t.wf(),
    ensures
        r.0 <= r.1 <= t.rows().len(),
        forall|i: int|
            #![trigger t.rows()[i]]
            0 <= i < t.rows().len() ==> (r.0 <= i < r.1 <==> t.rows()[i].0.0@ == first@),
{
    let key = (first.to_owned(), String::new());
    let lo = t.seek(&key);
    let ghost rows = t.rows();
    proof {
        text_lt_irreflexive(first@);
    }
    let mut hi = lo;
    while hi < t.len() && same(t.key_at(hi).0.as_str(), first)
        invariant
            rows == t.rows(),
            lo <= hi <= rows.len(),
            forall|i: int| #![trigger rows[i]] lo <= i < hi ==> rows[i].0.0@ == first@,
        decreases rows.len() - hi,
    {
        hi += 1;
    }
    proof {
        assert forall|i: int| #![trigger rows[i]] 0 <= i < rows.len() implies (lo <= i < hi
            <==> rows[i].0.0@ == first@) by {
            if i < lo {
                assert(pair_lt(rows[i].0.deep_view(), key.deep_view()));
            }
            if i >= hi {
                assert(!pair_lt(rows[hi as int].0.deep_view(), key.deep_view()));
                text_lt_total(rows[hi as int].0.0@, first@);
                if i > hi {
                    assert(pair_lt(rows[hi as int].0.deep_view(), rows[i].0.deep_view()));
                    if rows[i].0.0@ == first@ {
                        text_lt_transitive(first@, rows[hi as int].0.0@, first@);
                    }
                }
            }
        }
    }
    (lo, hi)
}

/// The rows whose triple begins with `first` and `second`.
pub fn range_of_triples<V>(t: &Table<(String, String, String), V>, first: &str, second: &str) -> (r: (
    usize,
    usize,
))
    requires
        t.wf(),
    ensures
        r.0 <= r.1 <= t.rows().len(),
        forall|i: int|
            #![trigger t.rows()[i]]
            0 <= i < t.rows().len() ==> (r.0 <= i < r.1 <==> t.rows()[i].0.0@ == first@
                && t.rows()[i].0.1@ == second@),
{
    let key = (first.to_owned(), second.to_owned(), String::new());
    let lo = t.seek(&key);
    let ghost rows = t.rows();
    let ghost k = (first@, second@);
    let mut hi = lo;
    while hi < t.len() && same(t.key_at(hi).0.as_str(), first) && same(
        t.key_at(hi).1.as_str(),
        second,
    )
        invariant
            rows == t.rows(),
            lo <= hi <= rows.len(),
            forall|i: int|
                #![trigger rows[i]]
                lo <= i < hi ==> rows[i].0.0@ == first@ && rows[i].0.1@ == second@,
        decreases rows.len() - hi,
    {
        hi += 1;
    }
    proof {
        pair_lt_order(k, k, k);
        assert forall|i: int| #![trigger rows[i]] 0 <= i < rows.len() implies (lo <= i < hi
            <==> rows[i].0.0@ == first@ && rows[i].0.1@ == second@) by {
            let x = rows[i].0.deep_view();
            text_lt_irreflexive(first@);
            text_lt_irreflexive(second@);
            if i < lo {
                assert(triple_lt(x, key.deep_view()));
            }
            if i >= hi {
                let y = rows[hi as int].0.deep_view();
                assert(!triple_lt(y, key.deep_view()));
                pair_lt_order((y.0, y.1), k, (y.0, y.1));
                assert(pair_lt(k, (y.0, y.1)));
                if i > hi {
                    assert(triple_lt(y, x));
                    if (x.0, x.1) == k {
                        pair_lt_order(k, (y.0, y.1), k);
                    }
                }
            }
        }
    }
    (lo, hi)
}

/// The rows whose triple begins with `first`.
pub fn range_of_first<V>(t: &Table<(String, String, String), V>, first: &str) -> (r: (usize, usize))
    requires
        t.wf(),
    ensures
        r.0 <= r.1 <= t.rows().len(),
        forall|i: int|
            #![trigger t.rows()[i]]
            0 <= i < t.rows().len() ==> (r.0 <= i < r.1 <==> t.rows()[i].0.0@ == first@),
{
    let key = (first.to_owned(), String::new(), String::new());
    let lo = t.seek(&key);
    let ghost rows = t.rows();
    proof {
        text_lt_irreflexive(first@);
    }
    let mut hi = lo;
    while hi < t.len() && same(t.key_at(hi).0.as_str(), first)
        invariant
            rows == t.rows(),
            lo <= hi <= rows.len(),
            forall|i: int| #![trigger rows[i]] lo <= i < hi ==> rows[i].0.0@ == first@,
        decreases rows.len() - hi,
    {
        hi += 1;
    }
    proof {
        assert forall|i: int| #![trigger rows[i]] 0 <= i < rows.len() implies (lo <= i < hi
            <==> rows[i].0.0@ == first@) by {
            if i < lo {
                assert(triple_lt(rows[i].0.deep_view(), key.deep_view()));
            }
            if i >= hi {
                assert(!triple_lt(rows[hi as int].0.deep_view(), key.deep_view()));
                text_lt_total(rows[hi as int].0.0@, first@);
                if i > hi {
                    assert(triple_lt(rows[hi as int].0.deep_view(), rows[i].0.deep_view()));
                    if rows[i].0.0@ == first@ {
                        text_lt_transitive(first@, rows[hi as int].0.0@, first@);
                    }
                }
            }
        }
    }
    (lo, hi)
}

/// The keys of a table of strings, in order.
pub fn keys_of<V>(t: &Table<String, V>) -> (r: Vec<String>)
    requires
        t.wf(),
    ensures
        increasing(texts(r@)),
        texts(r@).to_set() == t.map().dom(),
{
    let ghost rows = t.rows();
    let mut out: Vec<String> = Vec::new();
    let mut i: usize = 0;
    while i < t.len()
        invariant
            rows == t.rows(),
            i <= rows.len(),
            out@.len() == i,
            forall|j: int| #![trigger out@[j]] 0 <= j < i ==> out@[j]@ == rows[j].0@,
        decreases rows.len() - i,
    {
        out.push(t.key_at(i).clone());
        i += 1;
    }
    proof {
        let ks = texts(out@);
        assert forall|a: int, b: int|
            #![trigger ks[a], ks[b]]
            0 <= a < b < ks.len() implies text_lt(ks[a], ks[b]) by {
            assert(out@[a]@ == rows[a].0@ && out@[b]@ == rows[b].0@);
            assert(text_lt(rows[a].0.deep_view(), rows[b].0.deep_view()));
        }
        assert forall|k: Text| ks.to_set().contains(k) <==> t.map().contains_key(k) by {
            if ks.to_set().contains(k) {
                let j = choose|j: int| 0 <= j < ks.len() && ks[j] == k;
                assert(out@[j]@ == k);
                lemma_row_at(rows, j);
            }
            if t.map().contains_key(k) {
                let j = lemma_row_of(rows, k);
                assert(out@[j]@ == k);
                assert(ks[j] == k);
            }
        }
        assert(ks.to_set() =~= t.map().dom());
    }
    out
}

/// The map has as many keys as there are rows.
pub proof fn lemma_rows_len<K: TableKey, V>(rows: Seq<(K, V)>)
    requires
        rows_sorted(rows),
    ensures
        rows_map(rows).dom().finite(),
        rows_map(rows).dom().len() == rows.len(),
    decreases rows.len(),
{
    if rows.len() == 0 {
        assert(rows_map(rows).dom() =~= Set::empty());
    } else {
        let init = rows.drop_last();
        let last = rows.last();
        lemma_rows_len(init);
        assert forall|i: int| #![trigger init[i]] 0 <= i < init.len() implies K::key_lt(
            init[i].0.deep_view(),
            last.0.deep_view(),
        ) by {
            assert(rows[i] == init[i] && rows[rows.len() - 1] == last);
        }
        lemma_push_rows(init, last);
        assert(init.push(last) =~= rows);
        assert(rows_map(rows).dom() =~= rows_map(init).dom().insert(last.0.deep_view()));
    }
}

/// A table is larger than the values in its rows.
pub proof fn lemma_table_decreases<K: TableKey, V>(t: Table<K, V>, i: int)
    requires
        0 <= i < t.rows().len(),
    ensures
        decreases_to!(t => t.rows()[i].1),
{
    assert(decreases_to!(t => t.rows@[i]));
}

/// A row put where its key belongs extends the map.
pub proof fn lemma_insert_rows<K: TableKey, V>(rows: Seq<(K, V)>, i: int, row: (K, V))
    requires
        rows_sorted(rows),
        0 <= i <= rows.len(),
        forall|j: int|
            #![trigger rows[j]]
            0 <= j < i ==> K::key_lt(rows[j].0.deep_view(), row.0.deep_view()),
        forall|j: int|
            #![trigger rows[j]]
            i <= j < rows.len() ==> K::key_lt(row.0.deep_view(), rows[j].0.deep_view()),
    ensures
        rows_sorted(rows.insert(i, row)),
        rows_map(rows.insert(i, row)) == rows_map(rows).insert(row.0.deep_view(), row.1),
{
    let after = rows.insert(i, row);
    let key = row.0.deep_view();
    assert forall|a: int| 0 <= a < after.len() && a != i implies #[trigger] after[a] == rows[if a
        < i {
        a
    } else {
        a - 1
    }] by {}
    assert(after[i] == row);
    assert forall|a: int, b: int| 0 <= a < b < after.len() implies K::key_lt(
        (#[trigger] after[a]).0.deep_view(),
        (#[trigger] after[b]).0.deep_view(),
    ) by {
        let x = if a < i { a } else { a - 1 };
        let y = if b < i { b } else { b - 1 };
        if a != i && b != i {
            assert(after[a] == rows[x] && after[b] == rows[y]);
        } else if a == i {
            assert(after[b] == rows[y]);
        } else {
            assert(after[a] == rows[x]);
        }
    }
    lemma_row_at(after, i);
    assert forall|x: <K as DeepView>::V|
        rows_map(after).contains_key(x) <==> rows_map(rows).insert(key, row.1).contains_key(x) by {
        if rows_map(after).contains_key(x) {
            let a = lemma_row_of(after, x);
            if a < i {
                assert(row_holds(rows, a, x));
            } else if a > i {
                assert(row_holds(rows, a - 1, x));
            }
        }
        if rows_map(rows).contains_key(x) {
            let a = lemma_row_of(rows, x);
            if a < i {
                assert(row_holds(after, a, x));
            } else {
                assert(after[a + 1] == rows[a]);
                assert(row_holds(after, a + 1, x));
            }
        }
    }
    assert forall|x: <K as DeepView>::V| rows_map(after).contains_key(x) implies rows_map(after)[x]
        == rows_map(rows).insert(key, row.1)[x] by {
        let a = lemma_row_of(after, x);
        if a < i {
            lemma_row_at(rows, a);
        } else if a > i {
            lemma_row_at(rows, a - 1);
        }
    }
    assert(rows_map(after) =~= rows_map(rows).insert(key, row.1));
}

/// A new value in row `i` replaces that key's value.
pub proof fn lemma_update_rows<K: TableKey, V>(rows: Seq<(K, V)>, i: int, v: V)
    requires
        rows_sorted(rows),
        0 <= i < rows.len(),
    ensures
        rows_sorted(rows.update(i, (rows[i].0, v))),
        rows_map(rows.update(i, (rows[i].0, v))) == rows_map(rows).insert(rows[i].0.deep_view(), v),
{
    let after = rows.update(i, (rows[i].0, v));
    let key = rows[i].0.deep_view();
    assert forall|a: int| 0 <= a < rows.len() implies (#[trigger] after[a]).0 == rows[a].0 by {}
    assert forall|a: int, b: int| 0 <= a < b < after.len() implies K::key_lt(
        (#[trigger] after[a]).0.deep_view(),
        (#[trigger] after[b]).0.deep_view(),
    ) by {
        assert(rows[a].0 == after[a].0 && rows[b].0 == after[b].0);
    }
    lemma_row_at(after, i);
    lemma_row_at(rows, i);
    assert forall|x: <K as DeepView>::V|
        rows_map(after).contains_key(x) <==> rows_map(rows).insert(key, v).contains_key(x) by {
        if rows_map(after).contains_key(x) {
            let a = lemma_row_of(after, x);
            assert(row_holds(rows, a, x));
        }
        if rows_map(rows).contains_key(x) {
            let a = lemma_row_of(rows, x);
            assert(row_holds(after, a, x));
        }
    }
    assert forall|x: <K as DeepView>::V| rows_map(after).contains_key(x) implies rows_map(after)[x]
        == rows_map(rows).insert(key, v)[x] by {
        let a = lemma_row_of(after, x);
        lemma_row_at(rows, a);
        if x == key {
            lemma_row_unique(after, a, i);
        }
    }
    assert(rows_map(after) =~= rows_map(rows).insert(key, v));
}

/// A row past the end extends the map.
pub proof fn lemma_push_rows<K: TableKey, V>(rows: Seq<(K, V)>, row: (K, V))
    requires
        rows_sorted(rows),
        forall|i: int|
            #![trigger rows[i]]
            0 <= i < rows.len() ==> K::key_lt(rows[i].0.deep_view(), row.0.deep_view()),
    ensures
        rows_sorted(rows.push(row)),
        rows_map(rows.push(row)) == rows_map(rows).insert(row.0.deep_view(), row.1),
        !rows_map(rows).contains_key(row.0.deep_view()),
{
    let after = rows.push(row);
    let key = row.0.deep_view();
    let n = rows.len() as int;
    assert(after[n] == row);
    assert forall|i: int| 0 <= i < n implies #[trigger] after[i] == rows[i] by {}
    K::key_lt_irreflexive(key);
    if rows_map(rows).contains_key(key) {
        let j = lemma_row_of(rows, key);
    }
    lemma_row_at(after, n);
    assert forall|x: <K as DeepView>::V|
        rows_map(after).contains_key(x) <==> rows_map(rows).insert(
            key,
            row.1,
        ).contains_key(x) by {
        if rows_map(after).contains_key(x) {
            let a = lemma_row_of(after, x);
            if a < n {
                assert(row_holds(rows, a, x));
            }
        }
        if rows_map(rows).contains_key(x) {
            let a = lemma_row_of(rows, x);
            assert(row_holds(after, a, x));
        }
    }
    assert forall|x: <K as DeepView>::V| rows_map(after).contains_key(x) implies rows_map(after)[x]
        == rows_map(rows).insert(key, row.1)[x] by {
        let a = lemma_row_of(after, x);
        if a < n {
            lemma_row_at(rows, a);
        }
    }
    assert(rows_map(after) =~= rows_map(rows).insert(key, row.1));
}

} // verus!
