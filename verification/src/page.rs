//! Cursor pagination over a lexically ordered listing.

use crate::block::{is_tail, page_of_block, start_after, tails};
use crate::table::{lemma_row_at, lemma_row_of, Table};
use crate::text::{
    before, same, text_lt, text_lt_irreflexive, text_lt_total, text_lt_transitive, Text,
};
use vstd::prelude::*;

verus! {

broadcast use vstd::string::group_string_axioms;

/// One page of a cursor-paginated listing: at most the requested number of
/// items strictly after the request cursor, in the listing's stable order.
#[derive(Debug, Clone, Default, PartialEq, Eq)]
pub struct Page<T> {
    pub items: Vec<T>,
    /// At least one further item follows `items`.
    pub more: bool,
}

/// The texts of some strings.
pub open spec fn texts(s: Seq<String>) -> Seq<Text> {
    Seq::new(s.len(), |i: int| s[i]@)
}

/// The model of an optional text argument.
pub open spec fn opt_text(s: Option<&str>) -> Option<Text> {
    match s {
        Some(s) => Some(s@),
        None => None,
    }
}

/// Strictly increasing texts.
pub open spec fn increasing(s: Seq<Text>) -> bool {
    forall|i: int, j: int| #![trigger s[i], s[j]] 0 <= i < j < s.len() ==> text_lt(s[i], s[j])
}

/// `k` stands strictly after the cursor (anything does when there is none).
pub open spec fn after_cursor(k: Text, last: Option<Text>) -> bool {
    match last {
        Some(l) => text_lt(l, k),
        None => true,
    }
}

/// `k` is listed after the cursor and not among `items`.
pub open spec fn left_over(k: Text, items: Seq<Text>, keys: Set<Text>, last: Option<Text>) -> bool {
    keys.contains(k) && after_cursor(k, last) && !items.contains(k)
}

/// `items` is the page of `keys` after `last`: the first `limit` of them in
/// order, with `more` telling whether any are left.
pub open spec fn is_page(
    items: Seq<Text>,
    more: bool,
    keys: Set<Text>,
    last: Option<Text>,
    limit: nat,
) -> bool {
    &&& increasing(items)
    &&& items.len() <= limit
    &&& forall|i: int|
        #![trigger items[i]]
        0 <= i < items.len() ==> keys.contains(items[i]) && after_cursor(items[i], last)
    &&& forall|k: Text| #[trigger]
        left_over(k, items, keys, last) ==> items.len() == limit && forall|i: int|
            #![trigger items[i]]
            0 <= i < items.len() ==> text_lt(items[i], k)
    &&& more <==> exists|k: Text| left_over(k, items, keys, last)
}

/// A page is determined by the listing, the cursor and the limit.
pub proof fn page_is_unique(
    a: Seq<Text>,
    more_a: bool,
    b: Seq<Text>,
    more_b: bool,
    keys: Set<Text>,
    last: Option<Text>,
    limit: nat,
)
    requires
        is_page(a, more_a, keys, last, limit),
        is_page(b, more_b, keys, last, limit),
    ensures
        a == b,
        more_a == more_b,
{
    page_prefix_agrees(a, more_a, b, more_b, keys, last, limit, a.len() as int);
    page_prefix_agrees(b, more_b, a, more_a, keys, last, limit, b.len() as int);
    assert(a =~= b);
}

/// Two pages of one listing agree on their first `n` items.
proof fn page_prefix_agrees(
    a: Seq<Text>,
    more_a: bool,
    b: Seq<Text>,
    more_b: bool,
    keys: Set<Text>,
    last: Option<Text>,
    limit: nat,
    n: int,
)
    requires
        is_page(a, more_a, keys, last, limit),
        is_page(b, more_b, keys, last, limit),
        0 <= n <= a.len(),
    ensures
        n <= b.len(),
        forall|i: int| 0 <= i < n ==> a[i] == b[i],
    decreases n,
{
    if n > 0 {
        page_prefix_agrees(a, more_a, b, more_b, keys, last, limit, n - 1);
        let k = a[n - 1];
        if b.contains(k) {
            let j = choose|j: int| 0 <= j < b.len() && b[j] == k;
            text_lt_irreflexive(k);
            if j < n - 1 {
                assert(a[j] == b[j]);
                assert(text_lt(a[j], a[n - 1]));
            }
            if j > n - 1 {
                let m = b[n - 1];
                assert(text_lt(m, k));
                if a.contains(m) {
                    let i = choose|i: int| 0 <= i < a.len() && a[i] == m;
                    text_lt_irreflexive(m);
                    if i < n - 1 {
                        assert(b[i] == a[i]);
                        assert(text_lt(b[i], b[n - 1]));
                    } else if i > n - 1 {
                        assert(text_lt(a[n - 1], a[i]));
                        text_lt_transitive(m, k, m);
                    }
                } else {
                    assert(left_over(m, a, keys, last));
                    assert(text_lt(a[n - 1], m));
                    text_lt_transitive(m, k, m);
                    text_lt_irreflexive(m);
                }
            }
        } else {
            assert(left_over(k, b, keys, last));
            assert(b.len() == limit);
            assert(n - 1 < b.len());
            let m = b[n - 1];
            assert(text_lt(m, k));
            if a.contains(m) {
                let i = choose|i: int| 0 <= i < a.len() && a[i] == m;
                text_lt_irreflexive(m);
                if i < n - 1 {
                    assert(b[i] == a[i]);
                    assert(text_lt(b[i], b[n - 1]));
                } else if i > n - 1 {
                    assert(text_lt(a[n - 1], a[i]));
                    text_lt_transitive(m, k, m);
                }
            } else {
                assert(left_over(m, a, keys, last));
                assert(text_lt(a[n - 1], m));
                text_lt_transitive(m, k, m);
                text_lt_irreflexive(m);
            }
        }
    }
}

/// Asking again with the last item as the cursor continues the listing: the two
/// pages together are one page of the joint size.
pub proof fn pages_join(
    first: Seq<Text>,
    more_first: bool,
    second: Seq<Text>,
    more_second: bool,
    keys: Set<Text>,
    last: Option<Text>,
    limit: nat,
    next_limit: nat,
)
    requires
        first.len() == limit,
        limit > 0,
        is_page(first, more_first, keys, last, limit),
        is_page(second, more_second, keys, Some(first.last()), next_limit),
    ensures
        is_page(first + second, more_second, keys, last, limit + next_limit),
{
    let both = first + second;
    let cursor = first.last();
    assert forall|i: int, j: int|
        #![trigger both[i], both[j]]
        0 <= i < j < both.len() implies text_lt(both[i], both[j]) by {
        if i < first.len() && j >= first.len() {
            assert(after_cursor(second[j - first.len()], Some(cursor)));
            if i < first.len() - 1 {
                assert(text_lt(first[i], first[first.len() - 1]));
                text_lt_transitive(both[i], cursor, both[j]);
            }
        } else if i >= first.len() {
            assert(text_lt(second[i - first.len()], second[j - first.len()]));
        } else {
            assert(text_lt(first[i], first[j]));
        }
    }
    assert forall|i: int| #![trigger both[i]] 0 <= i < both.len() implies keys.contains(both[i])
        && after_cursor(both[i], last) by {
        if i < first.len() {
            assert(first[i] == both[i]);
        } else {
            let k = second[i - first.len()];
            assert(k == both[i]);
            assert(first[first.len() - 1] == cursor);
            if last is Some {
                text_lt_transitive(last->0, cursor, k);
            }
        }
    }
    assert forall|k: Text| left_over(k, both, keys, last) <==> left_over(
        k,
        second,
        keys,
        Some(cursor),
    ) by {
        if left_over(k, both, keys, last) {
            if first.contains(k) {
                let i = choose|i: int| 0 <= i < first.len() && first[i] == k;
                assert(both[i] == k);
            }
            assert(left_over(k, first, keys, last));
            assert(text_lt(first[first.len() - 1], k));
            if second.contains(k) {
                let i = choose|i: int| 0 <= i < second.len() && second[i] == k;
                assert(both[first.len() + i] == k);
            }
        }
        if left_over(k, second, keys, Some(cursor)) {
            assert(first[first.len() - 1] == cursor);
            if last is Some {
                text_lt_transitive(last->0, cursor, k);
            }
            if both.contains(k) {
                let i = choose|i: int| 0 <= i < both.len() && both[i] == k;
                if i < first.len() {
                    if i < first.len() - 1 {
                        assert(text_lt(first[i], first[first.len() - 1]));
                        text_lt_transitive(k, cursor, k);
                    }
                    text_lt_irreflexive(k);
                } else {
                    assert(second[i - first.len()] == k);
                }
            }
        }
    }
    assert forall|k: Text| #[trigger] left_over(k, both, keys, last) implies both.len() == limit
        + next_limit && forall|i: int|
        #![trigger both[i]]
        0 <= i < both.len() ==> text_lt(both[i], k) by {
        assert(left_over(k, second, keys, Some(cursor)));
        assert forall|i: int| #![trigger both[i]] 0 <= i < both.len() implies text_lt(both[i], k) by {
            if i >= first.len() {
                assert(second[i - first.len()] == both[i]);
            } else if i < first.len() - 1 {
                assert(text_lt(first[i], first[first.len() - 1]));
                text_lt_transitive(both[i], cursor, k);
            }
        }
    }
    if more_second {
        let k = choose|k: Text| left_over(k, second, keys, Some(cursor));
        assert(left_over(k, both, keys, last));
    }
    if exists|k: Text| left_over(k, both, keys, last) {
        let k = choose|k: Text| left_over(k, both, keys, last);
        assert(left_over(k, second, keys, Some(cursor)));
    }
}

/// The second parts of the pairs that begin with `first`.
pub open spec fn seconds(keys: Set<(Text, Text)>, first: Text) -> Set<Text> {
    Set::new(|s: Text| keys.contains((first, s)))
}

/// Keeps the first `limit` items and records whether any were left.
pub fn take_page<T>(items: Vec<T>, limit: usize) -> (r: Page<T>)
    ensures
        items@.len() <= limit ==> r.items@ == items@ && !r.more,
        items@.len() > limit ==> r.items@ == items@.take(limit as int) && r.more,
{
    let mut items = items;
    if items.len() > limit {
        items.truncate(limit);
        Page { items, more: true }
    } else {
        Page { items, more: false }
    }
}

/// An item that is listed under a key.
pub trait Keyed: Sized {
    /// The key's text.
    spec fn key_text(&self) -> Text;

    /// The key.
    fn key(&self) -> (r: &str)
        ensures
            r@ == self.key_text(),
    ;
}

impl Keyed for String {
    open spec fn key_text(&self) -> Text {
        self@
    }

    fn key(&self) -> (r: &str) {
        self.as_str()
    }
}

impl<T> Keyed for (String, T) {
    open spec fn key_text(&self) -> Text {
        self.0@
    }

    fn key(&self) -> (r: &str) {
        self.0.as_str()
    }
}

/// The keys of some items.
pub open spec fn key_texts<T: Keyed>(items: Seq<T>) -> Seq<Text> {
    Seq::new(items.len(), |i: int| items[i].key_text())
}

/// How many leading items do not stand after the cursor.
pub open spec fn is_start(keys: Seq<Text>, last: Option<Text>, start: int) -> bool {
    &&& 0 <= start <= keys.len()
    &&& forall|i: int| #![trigger keys[i]] 0 <= i < start ==> !after_cursor(keys[i], last)
    &&& forall|i: int| #![trigger keys[i]] start <= i < keys.len() ==> after_cursor(keys[i], last)
}

/// In a sorted listing the items after the cursor, cut at the limit, are the page.
pub proof fn lemma_cut_is_page(keys: Seq<Text>, last: Option<Text>, start: int, limit: nat)
    requires
        increasing(keys),
        is_start(keys, last, start),
    ensures
        is_page(
            keys.subrange(start, if keys.len() - start > limit { start + limit } else {
                    keys.len() as int
                }),
            keys.len() - start > limit,
            keys.to_set(),
            last,
            limit,
        ),
{
    let end = if keys.len() - start > limit { start + limit } else { keys.len() as int };
    let items = keys.subrange(start, end);
    assert forall|i: int| #![trigger items[i]] 0 <= i < items.len() implies keys.to_set().contains(
        items[i],
    ) && after_cursor(items[i], last) by {
        assert(items[i] == keys[start + i]);
    }
    assert forall|k: Text| #[trigger] left_over(k, items, keys.to_set(), last) implies exists|j: int|
        end <= j < keys.len() && keys[j] == k by {
        let j = choose|j: int| 0 <= j < keys.len() && keys[j] == k;
        if start <= j < end {
            assert(items[j - start] == k);
        }
    }
    assert forall|k: Text| #[trigger] left_over(k, items, keys.to_set(), last) implies items.len()
        == limit && forall|i: int| #![trigger items[i]] 0 <= i < items.len() ==> text_lt(items[i], k) by {
        let j = choose|j: int| end <= j < keys.len() && keys[j] == k;
    }
    if keys.len() - start > limit {
        let k = keys[end];
        if items.contains(k) {
            let i = choose|i: int| 0 <= i < items.len() && items[i] == k;
            assert(keys[start + i] == k);
            text_lt_irreflexive(k);
        }
        assert(left_over(k, items, keys.to_set(), last));
    }
}

/// Pages items already sorted and without duplicates by key: at most `limit`
/// strictly after `last`.
pub fn page_sorted<T: Keyed>(items: Vec<T>, last: Option<&str>, limit: usize) -> (r: Page<T>)
    requires
        increasing(key_texts(items@)),
    ensures
        is_page(
            key_texts(r.items@),
            r.more,
            key_texts(items@).to_set(),
            opt_text(last),
            limit as nat,
        ),
        exists|start: int|
            #![trigger is_start(key_texts(items@), opt_text(last), start)]
            is_start(key_texts(items@), opt_text(last), start) && r.items@ == items@.subrange(
                start,
                start + r.items@.len(),
            ),
{
    let ghost keys = key_texts(items@);
    let mut start: usize = 0;
    if let Some(l) = last {
        while start < items.len() && !before(l, items[start].key())
            invariant
                keys == key_texts(items@),
                start <= items@.len(),
                forall|i: int| #![trigger keys[i]] 0 <= i < start ==> !text_lt(l@, keys[i]),
            decreases items@.len() - start,
        {
            assert(keys[start as int] == items@[start as int].key_text());
            start += 1;
        }
        proof {
            if start < items@.len() {
                assert(keys[start as int] == items@[start as int].key_text());
            }
            assert forall|i: int| #![trigger keys[i]] start <= i < keys.len() implies text_lt(
                l@,
                keys[i],
            ) by {
                if i > start {
                    text_lt_transitive(l@, keys[start as int], keys[i]);
                }
            }
        }
    }
    assert(is_start(keys, opt_text(last), start as int));
    proof {
        lemma_cut_is_page(keys, opt_text(last), start as int, limit as nat);
    }
    let ghost all = items@;
    let mut items = items;
    let rest = items.split_off(start);
    let r = take_page(rest, limit);
    proof {
        let end = if keys.len() - start > limit { start + limit } else { keys.len() as int };
        assert(key_texts(r.items@) =~= keys.subrange(start as int, end));
        assert(r.items@ =~= all.subrange(start as int, start + r.items@.len()));
    }
    r
}

/// The page of the keys of a table.
pub fn page_of<V>(t: &Table<String, V>, last: Option<&str>, limit: usize) -> (r: Page<String>)
    requires
        t.wf(),
    ensures
        is_page(texts(r.items@), r.more, t.map().dom(), opt_text(last), limit as nat),
{
    let mut start: usize = 0;
    if let Some(l) = last {
        let key = l.to_owned();
        start = t.seek(&key);
        if start < t.len() && same(t.key_at(start).as_str(), l) {
            start += 1;
        }
        proof {
            let rows = t.rows();
            assert forall|i: int| #![trigger rows[i]] 0 <= i < start implies !text_lt(
                l@,
                rows[i].0@,
            ) by {
                text_lt_irreflexive(l@);
                if text_lt(l@, rows[i].0@) && text_lt(rows[i].0@, l@) {
                    text_lt_transitive(l@, rows[i].0@, l@);
                }
            }
            assert forall|i: int| #![trigger rows[i]] start <= i < rows.len() implies text_lt(
                l@,
                rows[i].0@,
            ) by {
                text_lt_total(l@, rows[i].0@);
                if rows[i].0@ == l@ {
                    let s = t.rows()[start - 1];
                }
            }
        }
    }
    let ghost rows = t.rows();
    let ghost keys = Seq::new(rows.len(), |i: int| rows[i].0@);
    proof {
        assert(increasing(keys)) by {
            assert forall|i: int, j: int|
                #![trigger keys[i], keys[j]]
                0 <= i < j < keys.len() implies text_lt(keys[i], keys[j]) by {
                assert(text_lt(rows[i].0.deep_view(), rows[j].0.deep_view()));
            }
        }
        assert(is_start(keys, opt_text(last), start as int)) by {
            assert forall|i: int| #![trigger keys[i]] 0 <= i < start implies !after_cursor(
                keys[i],
                opt_text(last),
            ) by {
                assert(rows[i].0@ == keys[i]);
            }
            assert forall|i: int|
                #![trigger keys[i]]
                start <= i < keys.len() implies after_cursor(keys[i], opt_text(last)) by {
                assert(rows[i].0@ == keys[i]);
            }
        }
        lemma_cut_is_page(keys, opt_text(last), start as int, limit as nat);
        assert(keys.to_set() =~= t.map().dom()) by {
            assert forall|k: Text| keys.to_set().contains(k) <==> t.map().contains_key(k) by {
                if keys.to_set().contains(k) {
                    let i = choose|i: int| 0 <= i < keys.len() && keys[i] == k;
                    lemma_row_at(rows, i);
                }
                if t.map().contains_key(k) {
                    let i = lemma_row_of(rows, k);
                    assert(keys[i] == k);
                }
            }
        }
    }
    let mut items: Vec<String> = Vec::new();
    let mut i: usize = start;
    while i < t.len() && items.len() < limit
        invariant
            rows == t.rows(),
            keys == Seq::new(rows.len(), |i: int| rows[i].0@),
            start <= i <= rows.len(),
            items@.len() == i - start,
            items@.len() <= limit,
            texts(items@) == keys.subrange(start as int, i as int),
        decreases rows.len() - i,
    {
        items.push(t.key_at(i).clone());
        i += 1;
        assert(texts(items@) =~= keys.subrange(start as int, i as int));
    }
    let more = i < t.len();
    Page { items, more }
}

/// The page of the second parts of a table's pairs that begin with `first`.
pub fn page_of_prefix<V>(
    t: &Table<(String, String), V>,
    first: &str,
    last: Option<&str>,
    limit: usize,
) -> (r: Page<String>)
    requires
        t.wf(),
    ensures
        is_page(
            texts(r.items@),
            r.more,
            seconds(t.map().dom(), first@),
            opt_text(last),
            limit as nat,
        ),
{
    let low = (first.to_owned(), start_after(last));
    proof {
        let keys = t.map().dom();
        let c = low.deep_view();
        assert forall|x: Text|
            tails::<(String, String)>(keys, c).contains(x) <==> seconds(keys, first@).contains(x) by {
            if tails::<(String, String)>(keys, c).contains(x) {
                let k = choose|k: (Text, Text)| is_tail::<(String, String)>(keys, c, k, x);
                assert(seq![k.0][0] == seq![c.0][0]);
                assert(k == (first@, x));
            }
            if keys.contains((first@, x)) {
                assert(is_tail::<(String, String)>(keys, c, (first@, x), x));
            }
        }
        assert(tails::<(String, String)>(keys, c) =~= seconds(keys, first@));
    }
    page_of_block(t, &low, last, limit)
}

} // verus!
