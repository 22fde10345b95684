//! Rows under a common key prefix: where they stand, and pages of their last
//! key part.

use crate::page::{after_cursor, increasing, is_page, left_over, opt_text, texts, Page};
use crate::table::{lemma_row_at, lemma_row_of, Table, TableKey};
use crate::text::{
    same, text_le, text_lt, text_lt_irreflexive, text_lt_total, text_lt_transitive, Text,
};
use vstd::prelude::*;

verus! {

broadcast use vstd::string::group_string_axioms;

/// A key made of a prefix and a last part, ordered by the prefix first.
pub trait BlockKey: TableKey {
    /// The parts before the last.
    spec fn prefix(k: <Self as DeepView>::V) -> Seq<Text>;

    /// The last part.
    spec fn tail(k: <Self as DeepView>::V) -> Text;

    proof fn tail_order(a: <Self as DeepView>::V, b: <Self as DeepView>::V)
        requires
            Self::prefix(a) == Self::prefix(b),
        ensures
            Self::key_lt(a, b) <==> text_lt(Self::tail(a), Self::tail(b)),
            Self::tail(a) == Self::tail(b) ==> a == b,
    ;

    proof fn blocks_are_whole(
        a: <Self as DeepView>::V,
        b: <Self as DeepView>::V,
        c: <Self as DeepView>::V,
    )
        requires
            Self::key_lt(a, b),
            Self::key_lt(b, c),
            Self::prefix(a) == Self::prefix(c),
        ensures
            Self::prefix(b) == Self::prefix(a),
    ;

    /// The last part.
    fn tail_text(&self) -> (r: &String)
        ensures
            r@ == Self::tail(self.deep_view()),
    ;

    /// Whether two keys share their prefix.
    fn same_prefix(&self, other: &Self) -> (r: bool)
        ensures
            r == (Self::prefix(self.deep_view()) == Self::prefix(other.deep_view())),
    ;
}

impl BlockKey for (String, String) {
    open spec fn prefix(k: (Text, Text)) -> Seq<Text> {
        seq![k.0]
    }

    open spec fn tail(k: (Text, Text)) -> Text {
        k.1
    }

    proof fn tail_order(a: (Text, Text), b: (Text, Text)) {
        assert(seq![a.0][0] == seq![b.0][0]);
        text_lt_irreflexive(a.0);
    }

    proof fn blocks_are_whole(a: (Text, Text), b: (Text, Text), c: (Text, Text)) {
        assert(seq![a.0][0] == seq![c.0][0]);
        if a.0 != b.0 {
            text_lt_irreflexive(a.0);
            text_lt_transitive(a.0, b.0, c.0);
        }
    }

    fn tail_text(&self) -> (r: &String) {
        &self.1
    }

    fn same_prefix(&self, other: &Self) -> (r: bool) {
        let r = same(self.0.as_str(), other.0.as_str());
        proof {
            let a = self.deep_view();
            let b = other.deep_view();
            assert(seq![a.0][0] == a.0 && seq![b.0][0] == b.0);
        }
        r
    }
}

impl BlockKey for (String, String, String) {
    open spec fn prefix(k: (Text, Text, Text)) -> Seq<Text> {
        seq![k.0, k.1]
    }

    open spec fn tail(k: (Text, Text, Text)) -> Text {
        k.2
    }

    proof fn tail_order(a: (Text, Text, Text), b: (Text, Text, Text)) {
        let p = seq![a.0, a.1];
        let q = seq![b.0, b.1];
        assert(p[0] == q[0] && p[1] == q[1]);
        text_lt_irreflexive(a.0);
        text_lt_irreflexive(a.1);
    }

    proof fn blocks_are_whole(
        a: (Text, Text, Text),
        b: (Text, Text, Text),
        c: (Text, Text, Text),
    ) {
        let p = seq![a.0, a.1];
        let q = seq![c.0, c.1];
        assert(p[0] == q[0] && p[1] == q[1]);
        text_lt_irreflexive(a.0);
        text_lt_irreflexive(a.1);
        if a.0 != b.0 {
            text_lt_transitive(a.0, b.0, c.0);
        } else if a.1 != b.1 {
            text_lt_transitive(a.1, b.1, c.1);
        }
    }

    fn tail_text(&self) -> (r: &String) {
        &self.2
    }

    fn same_prefix(&self, other: &Self) -> (r: bool) {
        let r = same(self.0.as_str(), other.0.as_str()) && same(self.1.as_str(), other.1.as_str());
        proof {
            let a = self.deep_view();
            let b = other.deep_view();
            let p = seq![a.0, a.1];
            let q = seq![b.0, b.1];
            assert(p[0] == a.0 && p[1] == a.1 && q[0] == b.0 && q[1] == b.1);
        }
        r
    }
}

impl BlockKey for (String, String, String, String) {
    open spec fn prefix(k: (Text, Text, Text, Text)) -> Seq<Text> {
        seq![k.0, k.1, k.2]
    }

    open spec fn tail(k: (Text, Text, Text, Text)) -> Text {
        k.3
    }

    proof fn tail_order(a: (Text, Text, Text, Text), b: (Text, Text, Text, Text)) {
        let p = seq![a.0, a.1, a.2];
        let q = seq![b.0, b.1, b.2];
        assert(p[0] == q[0] && p[1] == q[1] && p[2] == q[2]);
        text_lt_irreflexive(a.0);
        text_lt_irreflexive(a.1);
        text_lt_irreflexive(a.2);
    }

    proof fn blocks_are_whole(
        a: (Text, Text, Text, Text),
        b: (Text, Text, Text, Text),
        c: (Text, Text, Text, Text),
    ) {
        let p = seq![a.0, a.1, a.2];
        let q = seq![c.0, c.1, c.2];
        assert(p[0] == q[0] && p[1] == q[1] && p[2] == q[2]);
        text_lt_irreflexive(a.0);
        text_lt_irreflexive(a.1);
        text_lt_irreflexive(a.2);
        if a.0 != b.0 {
            text_lt_transitive(a.0, b.0, c.0);
        } else if a.1 != b.1 {
            text_lt_transitive(a.1, b.1, c.1);
        } else if a.2 != b.2 {
            text_lt_transitive(a.2, b.2, c.2);
        }
    }

    fn tail_text(&self) -> (r: &String) {
        &self.3
    }

    fn same_prefix(&self, other: &Self) -> (r: bool) {
        let r = same(self.0.as_str(), other.0.as_str()) && same(self.1.as_str(), other.1.as_str())
            && same(self.2.as_str(), other.2.as_str());
        proof {
            let a = self.deep_view();
            let b = other.deep_view();
            let p = seq![a.0, a.1, a.2];
            let q = seq![b.0, b.1, b.2];
            assert(p[0] == a.0 && p[1] == a.1 && p[2] == a.2);
            assert(q[0] == b.0 && q[1] == b.1 && q[2] == b.2);
        }
        r
    }
}

/// `k` is a key of `keys` under the prefix of `low`, with last part `x`.
pub open spec fn is_tail<K: BlockKey>(
    keys: Set<<K as DeepView>::V>,
    low: <K as DeepView>::V,
    k: <K as DeepView>::V,
    x: Text,
) -> bool {
    keys.contains(k) && K::prefix(k) == K::prefix(low) && K::tail(k) == x
}

/// The last parts of the keys that share the prefix of `low`.
pub open spec fn tails<K: BlockKey>(
    keys: Set<<K as DeepView>::V>,
    low: <K as DeepView>::V,
) -> Set<Text> {
    Set::new(|x: Text| exists|k: <K as DeepView>::V| is_tail::<K>(keys, low, k, x))
}

/// The text that sorts immediately after `s`.
pub open spec fn next_text(s: Text) -> Text {
    s.push('\0')
}

/// The text that sorts immediately after `s`: `s` and a zero character.
pub fn next_prefix(s: &str) -> (r: String)
    ensures
        r@ == next_text(s@),
{
    let mut r = s.to_owned();
    r.append("\0");
    proof {
        reveal_strlit("\0");
        assert("\0"@ =~= seq!['\0']);
        assert(r@ =~= s@.push('\0'));
    }
    r
}

/// The zero character sorts first.
proof fn lemma_lowest_char(c: char)
    ensures
        c == '\0' || '\0' < c,
{
}

/// Nothing stands between a text and the next: what sorts after `s` is the next
/// text or sorts after it.
pub proof fn next_prefix_is_next(s: Text, k: Text)
    ensures
        text_lt(s, next_text(s)),
        text_lt(s, k) <==> text_le(next_text(s), k),
    decreases s.len(),
{
    let n = next_text(s);
    if s.len() == 0 {
        assert(n.drop_first() =~= Seq::<char>::empty());
        reveal_with_fuel(text_lt, 2);
        if k.len() > 0 {
            let first = k[0];
            assert(n[0] == '\0');
            if first == '\0' {
                if k.len() == 1 {
                    assert(k =~= n);
                }
            } else {
                lemma_lowest_char(first);
            }
        }
    } else {
        assert(n.drop_first() =~= next_text(s.drop_first()));
        assert(n[0] == s[0]);
        next_prefix_is_next(s.drop_first(), if k.len() > 0 { k.drop_first() } else { k });
        if k.len() > 0 && k[0] == s[0] {
            if k.drop_first() == n.drop_first() {
                assert(k =~= seq![k[0]] + k.drop_first());
                assert(n =~= seq![n[0]] + n.drop_first());
            }
            if k == n {
                assert(k.drop_first() == n.drop_first());
            }
        }
    }
}

/// The last part that a page after `last` begins at.
pub open spec fn first_after(last: Option<Text>) -> Text {
    match last {
        Some(l) => next_text(l),
        None => Seq::empty(),
    }
}

/// The last part that a page after `last` begins at.
pub fn start_after(last: Option<&str>) -> (r: String)
    ensures
        r@ == first_after(opt_text(last)),
{
    match last {
        Some(l) => next_prefix(l),
        None => String::new(),
    }
}

/// The empty text sorts first.
proof fn lemma_empty_first(k: Text)
    ensures
        text_le(Seq::empty(), k),
{
    if k.len() == 0 {
        assert(k =~= Seq::empty());
    }
}

/// The page of the last parts under the prefix of `low`, whose own last part is
/// where the page begins.
pub fn page_of_block<K: BlockKey, V>(
    t: &Table<K, V>,
    low: &K,
    last: Option<&str>,
    limit: usize,
) -> (r: Page<String>)
    requires
        t.wf(),
        K::tail(low.deep_view()) == first_after(opt_text(last)),
    ensures
        is_page(
            texts(r.items@),
            r.more,
            tails::<K>(t.map().dom(), low.deep_view()),
            opt_text(last),
            limit as nat,
        ),
        r.more ==> r.items@.len() < t.rows().len(),
{
    let ghost rows = t.rows();
    let ghost c = low.deep_view();
    let ghost cur = opt_text(last);
    let start: usize = t.seek(low);
    let mut items: Vec<String> = Vec::new();
    let mut i: usize = start;
    while i < t.len() && items.len() < limit && t.key_at(i).same_prefix(low)
        invariant
            t.wf(),
            rows == t.rows(),
            c == low.deep_view(),
            start <= i <= rows.len(),
            items@.len() == i - start,
            items@.len() <= limit,
            forall|j: int|
                #![trigger items@[j]]
                0 <= j < items@.len() ==> items@[j]@ == K::tail(rows[start + j].0.deep_view())
                    && K::prefix(rows[start + j].0.deep_view()) == K::prefix(c),
        decreases rows.len() - i,
    {
        items.push(t.key_at(i).tail_text().clone());
        i += 1;
    }
    let more = i < t.len() && t.key_at(i).same_prefix(low);
    proof {
        let out = texts(items@);
        let keys = tails::<K>(t.map().dom(), c);
        let n = i as int;
        assert forall|j: int|
            #![trigger rows[j]]
            0 <= j < rows.len() && K::prefix(rows[j].0.deep_view()) == K::prefix(c) implies (start
            <= j <==> after_cursor(K::tail(rows[j].0.deep_view()), cur)) by {
            let k = rows[j].0.deep_view();
            K::tail_order(k, c);
            text_lt_total(K::tail(k), K::tail(c));
            text_lt_irreflexive(K::tail(c));
            if text_lt(K::tail(k), K::tail(c)) && text_lt(K::tail(c), K::tail(k)) {
                text_lt_transitive(K::tail(k), K::tail(c), K::tail(k));
                text_lt_irreflexive(K::tail(k));
            }
            match cur {
                Some(l) => {
                    next_prefix_is_next(l, K::tail(k));
                },
                None => {
                    lemma_empty_first(K::tail(k));
                },
            }
        }
        assert forall|a: int, b: int|
            #![trigger out[a], out[b]]
            0 <= a < b < out.len() implies text_lt(out[a], out[b]) by {
            assert(items@[a]@ == out[a] && items@[b]@ == out[b]);
            let ka = rows[start + a].0.deep_view();
            let kb = rows[start + b].0.deep_view();
            assert(K::key_lt(ka, kb));
            K::tail_order(ka, kb);
        }
        assert forall|a: int| #![trigger out[a]] 0 <= a < out.len() implies keys.contains(out[a])
            && after_cursor(out[a], cur) by {
            assert(items@[a]@ == out[a]);
            lemma_row_at(rows, start + a);
            assert(is_tail::<K>(t.map().dom(), c, rows[start + a].0.deep_view(), out[a]));
        }
        assert forall|k: Text| #[trigger] left_over(k, out, keys, cur) implies exists|j: int|
            n <= j < rows.len() && K::prefix((#[trigger] rows[j]).0.deep_view()) == K::prefix(c)
                && K::tail(rows[j].0.deep_view()) == k by {
            let full = choose|full: <K as DeepView>::V| is_tail::<K>(t.map().dom(), c, full, k);
            let j = lemma_row_of(rows, full);
            if start <= j < n {
                assert(items@[j - start]@ == k);
                assert(out[j - start] == k);
            }
        }
        assert forall|k: Text| #[trigger] left_over(k, out, keys, cur) implies more && out.len()
            == limit && forall|a: int| #![trigger out[a]] 0 <= a < out.len() ==> text_lt(out[a], k) by {
            let j = choose|j: int|
                n <= j < rows.len() && K::prefix((#[trigger] rows[j]).0.deep_view()) == K::prefix(
                    c,
                ) && K::tail(rows[j].0.deep_view()) == k;
            let kj = rows[j].0.deep_view();
            let kn = rows[n].0.deep_view();
            if K::prefix(kn) != K::prefix(c) {
                assert(K::key_lt(kn, kj));
                assert(!K::key_lt(kn, c));
                K::key_lt_total(c, kn);
                K::blocks_are_whole(c, kn, kj);
            }
            assert forall|a: int| #![trigger out[a]] 0 <= a < out.len() implies text_lt(out[a], k) by {
                assert(items@[a]@ == out[a]);
                let ka = rows[start + a].0.deep_view();
                assert(K::key_lt(ka, kj));
                K::tail_order(ka, kj);
            }
        }
        if more {
            let kn = rows[n].0.deep_view();
            let k = K::tail(kn);
            lemma_row_at(rows, n);
            assert(is_tail::<K>(t.map().dom(), c, kn, k));
            if out.contains(k) {
                let a = choose|a: int| 0 <= a < out.len() && out[a] == k;
                assert(items@[a]@ == out[a]);
                let ka = rows[start + a].0.deep_view();
                assert(K::key_lt(ka, kn));
                K::tail_order(ka, kn);
                text_lt_irreflexive(k);
            }
            assert(left_over(k, out, keys, cur));
        }
    }
    Page { items, more }
}

/// Every last part under the prefix of `low`, in order; the last part of `low`
/// is empty.
pub fn tails_of_block<K: BlockKey, V>(t: &Table<K, V>, low: &K) -> (r: Vec<String>)
    requires
        t.wf(),
        K::tail(low.deep_view()) == Seq::<char>::empty(),
    ensures
        increasing(texts(r@)),
        texts(r@).to_set() == tails::<K>(t.map().dom(), low.deep_view()),
{
    let page = page_of_block(t, low, None, t.len());
    proof {
        let keys = tails::<K>(t.map().dom(), low.deep_view());
        let out = texts(page.items@);
        assert forall|x: Text| keys.contains(x) <==> out.to_set().contains(x) by {
            if out.to_set().contains(x) {
                let i = choose|i: int| 0 <= i < out.len() && out[i] == x;
                assert(keys.contains(out[i]));
            }
            if keys.contains(x) && !out.contains(x) {
                assert(left_over(x, out, keys, None));
            }
        }
        assert(out.to_set() =~= keys);
    }
    page.items
}

/// A page after a cursor begins at the first text behind it: what is not before
/// that place is what stands strictly after the cursor, and everything is without
/// one.
pub proof fn page_begins_behind_the_cursor(l: Text, x: Text)
    ensures
        !text_lt(x, first_after(Some(l))) <==> text_lt(l, x),
        !text_lt(x, first_after(None)),
{
    next_prefix_is_next(l, x);
    let n = next_text(l);
    text_lt_total(x, n);
    text_lt_irreflexive(x);
    if text_lt(x, n) && text_lt(n, x) {
        text_lt_transitive(x, n, x);
    }
}

} // verus!
