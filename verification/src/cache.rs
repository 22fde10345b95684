//! A byte-bounded cache of small blob contents, least recently used out first.

use crate::text::Text;
use vstd::prelude::*;

verus! {

broadcast use vstd::string::group_string_axioms;

/// Blobs larger than this are not cached by default.
pub const DEFAULT_SMALL_BLOB_THRESHOLD: usize = 102400;

/// How many bytes of content are cached by default.
pub const DEFAULT_CACHE_CAPACITY: usize = 268435456;

/// `lru::LruCache`.
#[verifier::external_type_specification]
#[verifier::external_body]
#[verifier::reject_recursive_types(K)]
#[verifier::reject_recursive_types(V)]
#[verifier::reject_recursive_types(S)]
pub struct ExLruCache<K, V, S>(lru::LruCache<K, V, S>);

/// `lru::DefaultHasher`.
#[verifier::external_type_specification]
#[verifier::external_body]
pub struct ExLruHasher(lru::DefaultHasher);

/// The entries of an `lru::LruCache`, least recently used first.
pub uninterp spec fn lru_entries(c: lru::LruCache<String, Vec<u8>, lru::DefaultHasher>) -> Seq<
    (Seq<char>, Seq<u8>),
>;

/// How many entries an `lru::LruCache` was made to hold at most.
pub uninterp spec fn lru_bound(c: lru::LruCache<String, Vec<u8>, lru::DefaultHasher>) -> usize;

/// Whether some entry has key `k`.
pub open spec fn has_key(s: Seq<(Text, Seq<u8>)>, k: Text) -> bool {
    exists|i: int| #![trigger s[i]] 0 <= i < s.len() && s[i].0 == k
}

/// The content under `k`.
pub open spec fn content_at(s: Seq<(Text, Seq<u8>)>, k: Text) -> Option<Seq<u8>> {
    if has_key(s, k) {
        Some(s[choose|i: int| #![trigger s[i]] 0 <= i < s.len() && s[i].0 == k].1)
    } else {
        None
    }
}

/// The entries with another key than `k`.
pub open spec fn without_key(s: Seq<(Text, Seq<u8>)>, k: Text) -> Seq<(Text, Seq<u8>)> {
    s.filter(|e: (Text, Seq<u8>)| e.0 != k)
}

/// The model of an optional content.
pub open spec fn opt_bytes(v: Option<Vec<u8>>) -> Option<Seq<u8>> {
    match v {
        Some(b) => Some(b@),
        None => None,
    }
}

/// `lru::LruCache::unbounded`. Claimed: the cache holds nothing, and is bounded
/// by the largest length there is.
#[verifier::external_body]
fn lru_unbounded() -> (r: lru::LruCache<String, Vec<u8>, lru::DefaultHasher>)
    ensures
        lru_entries(r) == Seq::<(Seq<char>, Seq<u8>)>::empty(),
        lru_bound(r) == usize::MAX,
{
    lru::LruCache::unbounded()
}

/// `lru::LruCache::get`. Claimed: it gives the content under the key, and the
/// entry becomes the most recently used; without one nothing changes.
#[verifier::external_body]
fn lru_get(c: &mut lru::LruCache<String, Vec<u8>, lru::DefaultHasher>, k: &String) -> (r: Option<
    Vec<u8>,
>)
    ensures
        opt_bytes(r) == content_at(lru_entries(*old(c)), k@),
        lru_entries(*final(c)) == (match content_at(lru_entries(*old(c)), k@) {
            Some(v) => without_key(lru_entries(*old(c)), k@).push((k@, v)),
            None => lru_entries(*old(c)),
        }),
        lru_bound(*final(c)) == lru_bound(*old(c)),
{
    c.get(k).map(|v| v.to_vec())
}

/// `lru::LruCache::pop`. Claimed: it takes the entry with the key out and gives
/// its content.
#[verifier::external_body]
fn lru_pop(c: &mut lru::LruCache<String, Vec<u8>, lru::DefaultHasher>, k: &String) -> (r: Option<
    Vec<u8>,
>)
    ensures
        opt_bytes(r) == content_at(lru_entries(*old(c)), k@),
        lru_entries(*final(c)) == without_key(lru_entries(*old(c)), k@),
        lru_bound(*final(c)) == lru_bound(*old(c)),
{
    c.pop(k)
}

/// `lru::LruCache::len`. Claimed: the number of entries.
#[verifier::external_body]
fn lru_len(c: &lru::LruCache<String, Vec<u8>, lru::DefaultHasher>) -> (r: usize)
    ensures
        r == lru_entries(*c).len(),
{
    c.len()
}

/// `lru::LruCache::put` on a cache with room for one more entry. Claimed: the
/// entry is the most recently used, in place of one with its key, and no other
/// entry leaves.
#[verifier::external_body]
fn lru_put(c: &mut lru::LruCache<String, Vec<u8>, lru::DefaultHasher>, k: String, v: Vec<u8>)
    requires
        lru_entries(*old(c)).len() < lru_bound(*old(c)),
    ensures
        lru_entries(*final(c)) == without_key(lru_entries(*old(c)), k@).push((k@, v@)),
        lru_bound(*final(c)) == lru_bound(*old(c)),
{
    c.put(k, v);
}

/// `lru::LruCache::pop_lru`. Claimed: it takes the least recently used entry
/// out and gives it; an empty cache gives nothing.
#[verifier::external_body]
fn lru_pop_lru(c: &mut lru::LruCache<String, Vec<u8>, lru::DefaultHasher>) -> (r: Option<
    (String, Vec<u8>),
>)
    ensures
        r is Some <==> lru_entries(*old(c)).len() > 0,
        r matches Some(e) ==> (e.0@, e.1@) == lru_entries(*old(c))[0] && lru_entries(*final(c))
            == lru_entries(*old(c)).drop_first(),
        r is None ==> lru_entries(*final(c)) == lru_entries(*old(c)),
        lru_bound(*final(c)) == lru_bound(*old(c)),
{
    c.pop_lru()
}

/// How many bytes of content there are.
pub open spec fn total(s: Seq<(Text, Seq<u8>)>) -> nat
    decreases s.len(),
{
    if s.len() == 0 {
        0
    } else {
        s[0].1.len() + total(s.drop_first())
    }
}

/// No key occurs twice.
pub open spec fn distinct_keys(s: Seq<(Text, Seq<u8>)>) -> bool {
    forall|i: int, j: int| #![trigger s[i], s[j]] 0 <= i < j < s.len() ==> s[i].0 != s[j].0
}

/// The most recent entries that fit a budget together, and leave a place.
pub open spec fn fitting(s: Seq<(Text, Seq<u8>)>, budget: int) -> Seq<(Text, Seq<u8>)>
    decreases s.len(),
{
    if s.len() == 0 || (total(s) <= budget && s.len() < usize::MAX) {
        s
    } else {
        fitting(s.drop_first(), budget)
    }
}

/// The key of a blob: repository and digest, with a zero character between.
pub open spec fn blob_key(repo: Text, digest: Text) -> Text {
    repo.push('\0') + digest
}

/// The key of a blob.
pub fn key(repo: &str, digest: &str) -> (r: String)
    ensures
        r@ == blob_key(repo@, digest@),
{
    let mut k = repo.to_owned();
    k.append("\0");
    k.append(digest);
    proof {
        reveal_strlit("\0");
        assert("\0"@ =~= seq!['\0']);
        assert(k@ =~= blob_key(repo@, digest@));
    }
    k
}

/// Blobs of different repositories, or with different digests, have different
/// keys, as long as no repository name holds a zero character.
pub proof fn keys_are_distinct(repo: Text, digest: Text, repo2: Text, digest2: Text)
    requires
        !repo.contains('\0'),
        !repo2.contains('\0'),
        blob_key(repo, digest) == blob_key(repo2, digest2),
    ensures
        repo == repo2,
        digest == digest2,
{
    let a = blob_key(repo, digest);
    let b = blob_key(repo2, digest2);
    assert(a[repo.len() as int] == '\0');
    assert(b[repo2.len() as int] == '\0');
    if repo.len() < repo2.len() {
        assert(b[repo.len() as int] == repo2[repo.len() as int]);
        assert(repo2.contains('\0'));
    }
    if repo2.len() < repo.len() {
        assert(a[repo2.len() as int] == repo[repo2.len() as int]);
        assert(repo.contains('\0'));
    }
    assert(repo =~= repo2) by {
        assert forall|i: int| 0 <= i < repo.len() implies repo[i] == repo2[i] by {
            assert(a[i] == repo[i] && b[i] == repo2[i]);
        }
    }
    assert(digest =~= digest2) by {
        let n = repo.len() + 1;
        assert(digest.len() == a.len() - n);
        assert forall|i: int| 0 <= i < digest.len() implies digest[i] == digest2[i] by {
            assert(a[n + i] == digest[i] && b[n + i] == digest2[i]);
        }
    }
}

/// A key that occurs once is found where it stands.
proof fn lemma_content(s: Seq<(Text, Seq<u8>)>, i: int)
    requires
        distinct_keys(s),
        0 <= i < s.len(),
    ensures
        content_at(s, s[i].0) == Some(s[i].1),
{
    let k = s[i].0;
    assert(has_key(s, k));
    let j = choose|j: int| #![trigger s[j]] 0 <= j < s.len() && s[j].0 == k;
    if i < j {
        assert(s[i].0 != s[j].0);
    } else if j < i {
        assert(s[j].0 != s[i].0);
    }
}

/// What is left without a key.
proof fn lemma_without(s: Seq<(Text, Seq<u8>)>, k: Text)
    requires
        distinct_keys(s),
    ensures
        distinct_keys(without_key(s, k)),
        !has_key(without_key(s, k), k),
        !has_key(s, k) ==> without_key(s, k) == s,
        total(s) == total(without_key(s, k)) + (match content_at(s, k) {
            Some(v) => v.len(),
            None => 0,
        }),
        forall|x: Text| x != k ==> #[trigger] content_at(without_key(s, k), x) == content_at(s, x),
        forall|x: Text| #[trigger] has_key(without_key(s, k), x) ==> has_key(s, x),
    decreases s.len(),
{
    reveal(Seq::filter);
    let w = without_key(s, k);
    if s.len() == 0 {
        assert(w =~= s);
        assert(!has_key(s, k));
    } else {
        let init = s.drop_last();
        let last = s.last();
        assert forall|i: int, j: int|
            #![trigger init[i], init[j]]
            0 <= i < j < init.len() implies init[i].0 != init[j].0 by {
            assert(s[i].0 != s[j].0);
        }
        lemma_without(init, k);
        let wi = without_key(init, k);
        lemma_total_last(s);
        assert(s =~= init.push(last));
        lemma_pushed(init, last);
        if last.0 == k {
            assert(w == wi);
            lemma_content(s, s.len() - 1);
            assert(s[s.len() - 1].0 == k);
            if has_key(init, k) {
                let i = choose|i: int| #![trigger init[i]] 0 <= i < init.len() && init[i].0 == k;
                assert(s[i].0 != s[s.len() - 1].0);
            }
        } else {
            assert(w == wi.push(last));
            assert(w.drop_last() =~= wi);
            assert(w.last() == last);
            lemma_total_last(w);
            assert(!has_key(wi, last.0)) by {
                if has_key(wi, last.0) {
                    assert(has_key(init, last.0));
                    let i = choose|i: int|
                        #![trigger init[i]]
                        0 <= i < init.len() && init[i].0 == last.0;
                    assert(s[i].0 != s[s.len() - 1].0);
                }
            }
            lemma_pushed(wi, last);
            if !has_key(s, k) {
                assert(!has_key(init, k)) by {
                    if has_key(init, k) {
                        let i = choose|i: int|
                            #![trigger init[i]]
                            0 <= i < init.len() && init[i].0 == k;
                        assert(s[i].0 == k);
                    }
                }
                assert(w =~= s);
            }
        }
    }
}

/// The total, last entry first.
proof fn lemma_total_last(s: Seq<(Text, Seq<u8>)>)
    requires
        s.len() > 0,
    ensures
        total(s) == total(s.drop_last()) + s.last().1.len(),
    decreases s.len(),
{
    if s.len() == 1 {
        assert(s.drop_first() =~= Seq::empty());
        assert(s.drop_last() =~= Seq::empty());
    } else {
        lemma_total_last(s.drop_first());
        assert(s.drop_first().drop_last() =~= s.drop_last().drop_first());
        assert(s.drop_first().last() == s.last());
        assert(s.drop_last()[0] == s[0]);
    }
}

/// What one more entry, with a new key, adds.
proof fn lemma_pushed(s: Seq<(Text, Seq<u8>)>, e: (Text, Seq<u8>))
    ensures
        forall|x: Text| #[trigger] has_key(s.push(e), x) <==> has_key(s, x) || x == e.0,
        distinct_keys(s) && !has_key(s, e.0) ==> distinct_keys(s.push(e)) && (forall|x: Text|
            #[trigger]
            content_at(s.push(e), x) == (if x == e.0 {
                Some(e.1)
            } else {
                content_at(s, x)
            })),
{
    let l = s.push(e);
    assert(l[s.len() as int] == e);
    assert forall|x: Text| #[trigger] has_key(l, x) <==> has_key(s, x) || x == e.0 by {
        if has_key(l, x) {
            let i = choose|i: int| #![trigger l[i]] 0 <= i < l.len() && l[i].0 == x;
            if i < s.len() {
                assert(s[i].0 == x);
            }
        }
        if has_key(s, x) {
            let i = choose|i: int| #![trigger s[i]] 0 <= i < s.len() && s[i].0 == x;
            assert(l[i].0 == x);
        }
    }
    if distinct_keys(s) && !has_key(s, e.0) {
        assert forall|i: int, j: int|
            #![trigger l[i], l[j]]
            0 <= i < j < l.len() implies l[i].0 != l[j].0 by {
            assert(l[i] == s[i]);
            if j < s.len() {
                assert(l[j] == s[j]);
            }
        }
        assert forall|x: Text| #[trigger] content_at(l, x) == (if x == e.0 {
            Some(e.1)
        } else {
            content_at(s, x)
        }) by {
            if has_key(l, x) {
                let i = choose|i: int| #![trigger l[i]] 0 <= i < l.len() && l[i].0 == x;
                lemma_content(l, i);
                if i < s.len() {
                    lemma_content(s, i);
                    assert(s[i].0 == x);
                }
            }
        }
    }
}

/// The first entry out.
proof fn lemma_first_out(s: Seq<(Text, Seq<u8>)>)
    requires
        distinct_keys(s),
        s.len() > 0,
    ensures
        distinct_keys(s.drop_first()),
        total(s) == s[0].1.len() + total(s.drop_first()),
        forall|x: Text| #[trigger] has_key(s.drop_first(), x) ==> has_key(s, x),
{
    let r = s.drop_first();
    assert forall|i: int, j: int| #![trigger r[i], r[j]] 0 <= i < j < r.len() implies r[i].0
        != r[j].0 by {
        assert(r[i] == s[i + 1] && r[j] == s[j + 1]);
    }
    assert forall|x: Text| #[trigger] has_key(r, x) implies has_key(s, x) by {
        let i = choose|i: int| #![trigger r[i]] 0 <= i < r.len() && r[i].0 == x;
        assert(s[i + 1].0 == x);
    }
}

/// The contents by key once one was used.
pub open spec fn used(s: Seq<(Text, Seq<u8>)>, k: Text) -> Seq<(Text, Seq<u8>)> {
    match content_at(s, k) {
        Some(v) => without_key(s, k).push((k, v)),
        None => s,
    }
}

/// The contents by key once one was put, under a limit per content and a budget
/// for all.
pub open spec fn kept_with(
    s: Seq<(Text, Seq<u8>)>,
    limit: usize,
    budget: usize,
    k: Text,
    data: Seq<u8>,
) -> Seq<(Text, Seq<u8>)> {
    if data.len() > limit || data.len() > budget {
        s
    } else {
        fitting(without_key(s, k), budget - data.len()).push((k, data))
    }
}

/// A byte-bounded cache of small blob contents.
pub struct SmallBlobCache {
    map: lru::LruCache<String, Vec<u8>, lru::DefaultHasher>,
    total_bytes: usize,
    threshold: usize,
    capacity: usize,
}

impl SmallBlobCache {
    /// The accounting is right and within the budget, and keys occur once.
    pub closed spec fn wf(&self) -> bool {
        &&& distinct_keys(self.entries())
        &&& self.total_bytes == total(self.entries())
        &&& self.total_bytes <= self.capacity
        &&& lru_bound(self.map) == usize::MAX
    }

    /// The cached contents by key, least recently used first.
    pub closed spec fn entries(&self) -> Seq<(Text, Seq<u8>)> {
        lru_entries(self.map)
    }

    /// The largest content that is cached.
    pub closed spec fn limit(&self) -> usize {
        self.threshold
    }

    /// How many bytes are cached at most.
    pub closed spec fn budget(&self) -> usize {
        self.capacity
    }

    /// A cache with the default limits.
    pub fn new() -> (r: SmallBlobCache)
        ensures
            r.wf(),
            r.entries() == Seq::<(Text, Seq<u8>)>::empty(),
            r.limit() == DEFAULT_SMALL_BLOB_THRESHOLD,
            r.limit() == 102400,
            r.budget() == DEFAULT_CACHE_CAPACITY,
            r.budget() == 268435456,
    {
        SmallBlobCache::with_limits(DEFAULT_SMALL_BLOB_THRESHOLD, DEFAULT_CACHE_CAPACITY)
    }

    /// A cache of contents up to `threshold` bytes each and `capacity` together.
    pub fn with_limits(threshold: usize, capacity: usize) -> (r: SmallBlobCache)
        ensures
            r.wf(),
            r.entries() == Seq::<(Text, Seq<u8>)>::empty(),
            r.limit() == threshold,
            r.budget() == capacity,
    {
        SmallBlobCache { map: lru_unbounded(), total_bytes: 0, threshold, capacity }
    }

    /// The largest content that is cached.
    pub fn threshold(&self) -> (r: usize)
        ensures
            r == self.limit(),
    {
        self.threshold
    }

    /// The cached content of a blob, which becomes the most recently used.
    pub fn get(&mut self, repo: &str, digest: &str) -> (r: Option<Vec<u8>>)
        requires
            old(self).wf(),
        ensures
            final(self).wf(),
            final(self).limit() == old(self).limit(),
            final(self).budget() == old(self).budget(),
            opt_bytes(r) == content_at(old(self).entries(), blob_key(repo@, digest@)),
            final(self).entries() == used(old(self).entries(), blob_key(repo@, digest@)),
            forall|x: Text| #[trigger]
                content_at(final(self).entries(), x) == content_at(old(self).entries(), x),
    {
        let k = key(repo, digest);
        let ghost s = self.entries();
        let r = lru_get(&mut self.map, &k);
        proof {
            lemma_without(s, k@);
            if let Some(v) = content_at(s, k@) {
                let w = without_key(s, k@);
                lemma_pushed(w, (k@, v));
                lemma_total_last(w.push((k@, v)));
                assert(w.push((k@, v)).drop_last() =~= w);
            }
        }
        r
    }

    /// Caches a content, unless it is larger than the limit or the whole
    /// budget. The least recently used contents make room.
    pub fn put(&mut self, repo: &str, digest: &str, data: &[u8])
        requires
            old(self).wf(),
        ensures
            final(self).wf(),
            final(self).limit() == old(self).limit(),
            final(self).budget() == old(self).budget(),
            final(self).entries() == kept_with(
                old(self).entries(),
                old(self).limit(),
                old(self).budget(),
                blob_key(repo@, digest@),
                data@,
            ),
    {
        if data.len() > self.threshold || data.len() > self.capacity {
            return;
        }
        let k = key(repo, digest);
        let ghost s = self.entries();
        let ghost w = without_key(s, k@);
        proof {
            lemma_without(s, k@);
        }
        if let Some(old_content) = lru_pop(&mut self.map, &k) {
            self.total_bytes = self.total_bytes - old_content.len();
        }
        let room: usize = self.capacity - data.len();
        while self.total_bytes > room || lru_len(&self.map) == usize::MAX
            invariant
                lru_bound(self.map) == usize::MAX,
                distinct_keys(self.entries()),
                !has_key(self.entries(), k@),
                self.total_bytes == total(self.entries()),
                self.total_bytes <= self.capacity,
                fitting(w, room as int) == fitting(self.entries(), room as int),
                self.threshold == old(self).threshold,
                self.capacity == old(self).capacity,
            decreases self.entries().len(),
        {
            let ghost e = self.entries();
            proof {
                if e.len() > 0 {
                    lemma_first_out(e);
                }
            }
            if let Some((_, evicted)) = lru_pop_lru(&mut self.map) {
                self.total_bytes = self.total_bytes - evicted.len();
            }
        }
        let bytes = vstd::slice::slice_to_vec(data);
        self.total_bytes = self.total_bytes + bytes.len();
        let ghost e = self.entries();
        proof {
            lemma_without(e, k@);
            lemma_pushed(e, (k@, data@));
            lemma_total_last(e.push((k@, data@)));
            assert(e.push((k@, data@)).drop_last() =~= e);
        }
        lru_put(&mut self.map, k, bytes);
    }

    /// Drops the content of a blob.
    pub fn invalidate(&mut self, repo: &str, digest: &str)
        requires
            old(self).wf(),
        ensures
            final(self).wf(),
            final(self).limit() == old(self).limit(),
            final(self).budget() == old(self).budget(),
            final(self).entries() == without_key(old(self).entries(), blob_key(repo@, digest@)),
            content_at(final(self).entries(), blob_key(repo@, digest@)) is None,
    {
        let k = key(repo, digest);
        proof {
            lemma_without(self.entries(), k@);
        }
        if let Some(old_content) = lru_pop(&mut self.map, &k) {
            self.total_bytes = self.total_bytes - old_content.len();
        }
    }
}

impl Default for SmallBlobCache {
    fn default() -> (r: SmallBlobCache)
        ensures
            r.wf(),
            r.entries() == Seq::<(Text, Seq<u8>)>::empty(),
            r.limit() == DEFAULT_SMALL_BLOB_THRESHOLD,
            r.limit() == 102400,
            r.budget() == DEFAULT_CACHE_CAPACITY,
            r.budget() == 268435456,
    {
        SmallBlobCache::new()
    }
}

/// What was put is found under its key, with its bytes.
pub proof fn put_content_is_found(s: Seq<(Text, Seq<u8>)>, k: Text, data: Seq<u8>, budget: int)
    ensures
        content_at(fitting(without_key(s, k), budget).push((k, data)), k) == Some(data),
{
    let rest = without_key(s, k);
    assert(!has_key(rest, k)) by {
        if has_key(rest, k) {
            let i = choose|i: int| #![trigger rest[i]] 0 <= i < rest.len() && rest[i].0 == k;
            s.lemma_filter_pred(|e: (Text, Seq<u8>)| e.0 != k, i);
        }
    }
    lemma_fitting_keys(rest, budget, k);
    let fit = fitting(rest, budget);
    let l = fit.push((k, data));
    assert(l[fit.len() as int] == (k, data));
    let i = choose|i: int| #![trigger l[i]] 0 <= i < l.len() && l[i].0 == k;
    if i < fit.len() {
        assert(fit[i].0 == k);
    }
}

/// What fits has no key that was not there.
proof fn lemma_fitting_keys(s: Seq<(Text, Seq<u8>)>, budget: int, k: Text)
    requires
        !has_key(s, k),
    ensures
        !has_key(fitting(s, budget), k),
    decreases s.len(),
{
    if !(s.len() == 0 || (total(s) <= budget && s.len() < usize::MAX)) {
        let rest = s.drop_first();
        assert(!has_key(rest, k)) by {
            if has_key(rest, k) {
                let i = choose|i: int| #![trigger rest[i]] 0 <= i < rest.len() && rest[i].0 == k;
                assert(s[i + 1].0 == k);
            }
        }
        lemma_fitting_keys(rest, budget, k);
    }
}

/// What fits is within the budget and was there, each content unchanged.
pub proof fn lemma_fitting(s: Seq<(Text, Seq<u8>)>, budget: int)
    requires
        distinct_keys(s),
    ensures
        distinct_keys(fitting(s, budget)),
        budget >= 0 ==> total(fitting(s, budget)) <= budget,
        forall|x: Text| #[trigger] has_key(fitting(s, budget), x) ==> has_key(s, x),
        forall|x: Text| #[trigger]
            has_key(fitting(s, budget), x) ==> content_at(fitting(s, budget), x) == content_at(s, x),
    decreases s.len(),
{
    if s.len() > 0 && !(total(s) <= budget && s.len() < usize::MAX) {
        let r = s.drop_first();
        lemma_first_out(s);
        lemma_fitting(r, budget);
        let f = fitting(s, budget);
        assert forall|x: Text| #[trigger] has_key(f, x) implies content_at(f, x) == content_at(
            s,
            x,
        ) by {
            assert(has_key(r, x));
            let i = choose|i: int| #![trigger r[i]] 0 <= i < r.len() && r[i].0 == x;
            lemma_content(r, i);
            assert(s[i + 1] == r[i]);
            lemma_content(s, i + 1);
        }
    }
}

/// A key is found with the content it stands with, and with none where it does not
/// stand; the bytes cached are those of the contents together.
pub proof fn contents_are_found_by_key(s: Seq<(Text, Seq<u8>)>, i: int, k: Text, e: (Text, Seq<u8>))
    requires
        distinct_keys(s),
    ensures
        0 <= i < s.len() ==> content_at(s, s[i].0) == Some(s[i].1),
        (forall|j: int| #![trigger s[j]] 0 <= j < s.len() ==> s[j].0 != k) ==> content_at(s, k)
            is None,
        total(Seq::empty()) == 0,
        total(s.push(e)) == total(s) + e.1.len(),
{
    if 0 <= i < s.len() {
        lemma_content(s, i);
    }
    lemma_total_last(s.push(e));
    assert(s.push(e).drop_last() =~= s);
}

/// A content that is larger than the limit, or than the whole budget, changes
/// nothing; every other one is found afterwards with its bytes, and all together
/// stay within the budget.
pub proof fn contents_within_the_limits_are_cached(
    s: Seq<(Text, Seq<u8>)>,
    limit: usize,
    budget: usize,
    k: Text,
    data: Seq<u8>,
)
    requires
        distinct_keys(s),
    ensures
        data.len() > limit || data.len() > budget ==> kept_with(s, limit, budget, k, data) == s,
        data.len() <= limit && data.len() <= budget ==> content_at(
            kept_with(s, limit, budget, k, data),
            k,
        ) == Some(data) && total(kept_with(s, limit, budget, k, data)) <= budget,
{
    if data.len() <= limit && data.len() <= budget {
        put_content_is_found(s, k, data, budget - data.len());
        lemma_without(s, k);
        lemma_fitting(without_key(s, k), budget - data.len());
        let fit = fitting(without_key(s, k), budget - data.len());
        lemma_total_last(fit.push((k, data)));
        assert(fit.push((k, data)).drop_last() =~= fit);
    }
}

/// What fits is what is left once the first few are out, and no more are out than
/// has to be.
proof fn lemma_fitting_cut(s: Seq<(Text, Seq<u8>)>, budget: int) -> (n: int)
    ensures
        0 <= n <= s.len(),
        fitting(s, budget) == s.skip(n),
        n > 0 ==> total(s.skip(n - 1)) > budget || s.len() - (n - 1) >= usize::MAX,
    decreases s.len(),
{
    if s.len() == 0 || (total(s) <= budget && s.len() < usize::MAX) {
        assert(s.skip(0) =~= s);
        0
    } else {
        let n = lemma_fitting_cut(s.drop_first(), budget);
        assert(s.drop_first().skip(n) =~= s.skip(n + 1));
        if n > 0 {
            assert(s.drop_first().skip(n - 1) =~= s.skip(n));
        } else {
            assert(s.skip(0) =~= s);
        }
        n + 1
    }
}

/// The entries without a key are those with another, in order.
pub proof fn other_contents_stay_in_order(s: Seq<(Text, Seq<u8>)>, k: Text)
    ensures
        without_key(s, k) == s.filter(|e: (Text, Seq<u8>)| e.0 != k),
    decreases s.len(),
{
    reveal(Seq::filter);
    if s.len() > 0 {
        other_contents_stay_in_order(s.drop_last(), k);
    }
}

/// To make room, contents go in the order of their last use, the least recent
/// first, and none goes that could have stayed; what stays keeps its order, and
/// what was put is the most recent.
pub proof fn least_recently_used_contents_make_room(
    s: Seq<(Text, Seq<u8>)>,
    limit: usize,
    budget: usize,
    k: Text,
    data: Seq<u8>,
) -> (n: int)
    requires
        data.len() <= limit,
        data.len() <= budget,
    ensures
        ({
            let others = s.filter(|e: (Text, Seq<u8>)| e.0 != k);
            &&& 0 <= n <= others.len()
            &&& kept_with(s, limit, budget, k, data) == others.skip(n).push((k, data))
            &&& n > 0 ==> total(others.skip(n - 1)) + data.len() > budget || others.len() - (n - 1)
                >= usize::MAX
        }),
{
    other_contents_stay_in_order(s, k);
    lemma_fitting_cut(without_key(s, k), budget - data.len())
}

/// A content that is used becomes the most recent; the others keep their order, and
/// what is cached stays the same.
pub proof fn used_content_is_the_most_recent(s: Seq<(Text, Seq<u8>)>, k: Text, x: Text)
    requires
        distinct_keys(s),
    ensures
        content_at(s, k) is None ==> used(s, k) == s,
        content_at(s, k) matches Some(v) ==> used(s, k).len() > 0 && used(s, k).last() == (k, v)
            && used(s, k).drop_last() == s.filter(|e: (Text, Seq<u8>)| e.0 != k),
        content_at(used(s, k), x) == content_at(s, x),
{
    other_contents_stay_in_order(s, k);
    if let Some(v) = content_at(s, k) {
        let w = without_key(s, k);
        lemma_without(s, k);
        lemma_pushed(w, (k, v));
        assert(w.push((k, v)).drop_last() =~= w);
        if x != k {
            assert(content_at(w, x) == content_at(s, x));
        }
    }
}

/// A dropped content is not found any more, and every other one is as it was.
pub proof fn dropped_content_is_gone(s: Seq<(Text, Seq<u8>)>, k: Text, x: Text)
    requires
        distinct_keys(s),
    ensures
        content_at(without_key(s, k), k) is None,
        x != k ==> content_at(without_key(s, k), x) == content_at(s, x),
        without_key(s, k).len() <= s.len(),
{
    lemma_without(s, k);
    s.lemma_filter_len(|e: (Text, Seq<u8>)| e.0 != k);
}

} // verus!
