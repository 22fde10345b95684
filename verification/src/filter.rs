//! An approximate membership filter in front of the blob store. It only ever
//! answers a definite absence; a hit has to be verified on disk.

use crate::cache::{blob_key, key};
use crate::text::Text;
use std::collections::hash_map::DefaultHasher;
use vstd::arithmetic::power2::is_pow2;
use vstd::multiset::Multiset;
use vstd::prelude::*;

verus! {

/// `cuckoofilter::CuckooFilter`.
#[verifier::external_type_specification]
#[verifier::external_body]
#[verifier::reject_recursive_types(H)]
pub struct ExCuckooFilter<H>(cuckoofilter::CuckooFilter<H>);

/// The entries of a `cuckoofilter::CuckooFilter`: its occupied slots, each by the
/// number of its class, which is its fingerprint and the pair of buckets that it
/// may stand in.
pub uninterp spec fn filter_entries(f: cuckoofilter::CuckooFilter<DefaultHasher>) -> Multiset<int>;

/// The class of the entry that stands for each key in a
/// `cuckoofilter::CuckooFilter`. Keys of one class cannot be told apart.
pub uninterp spec fn filter_classes(f: cuckoofilter::CuckooFilter<DefaultHasher>) -> Map<
    Seq<char>,
    int,
>;

/// The number of slots of a `cuckoofilter::CuckooFilter`, four to a bucket.
pub uninterp spec fn filter_slots(f: cuckoofilter::CuckooFilter<DefaultHasher>) -> nat;

/// `n`, doubled until it is at least `least`.
pub open spec fn doubled(n: nat, least: nat) -> nat
    decreases (if n < least { least - n } else { 0 }),
{
    if n == 0 || n >= least {
        n
    } else {
        doubled(2 * n, least)
    }
}

/// How many slots a filter sized for `capacity` entries has: the least power of
/// two that holds them, and one bucket of four at least.
pub open spec fn slots_for(capacity: nat) -> nat {
    doubled(4, capacity)
}

/// Whether a number of slots makes a number of buckets that is a power of two.
pub open spec fn is_regular(slots: nat) -> bool {
    slots >= 4 && is_pow2(slots as int)
}

/// Doubling keeps a power of two one.
proof fn lemma_doubled(n: nat, least: nat)
    requires
        is_regular(n),
    ensures
        is_regular(doubled(n, least)),
        doubled(n, least) >= least,
    decreases (if n < least { least - n } else { 0 }),
{
    if n < least {
        reveal_with_fuel(is_pow2, 2);
        assert(is_pow2((2 * n) as int));
        lemma_doubled(2 * n, least);
    }
}

/// Four slots are regular.
proof fn lemma_four()
    ensures
        is_regular(4),
{
    reveal_with_fuel(is_pow2, 4);
}

/// `cuckoofilter::CuckooFilter::new`. Claimed: no slot is occupied, and there are
/// as many slots as the capacity 2^20 - 1 asks for.
#[verifier::external_body]
fn cuckoo_new() -> (r: cuckoofilter::CuckooFilter<DefaultHasher>)
    ensures
        filter_entries(r) == Multiset::<int>::empty(),
        filter_slots(r) == slots_for(1048575),
{
    cuckoofilter::CuckooFilter::new()
}

/// `cuckoofilter::CuckooFilter::with_capacity`. Claimed: no slot is occupied, and
/// there are as many slots as the capacity asks for.
#[verifier::external_body]
fn cuckoo_with_capacity(capacity: usize) -> (r: cuckoofilter::CuckooFilter<DefaultHasher>)
    requires
        capacity <= usize::MAX / 4 + 1,
    ensures
        filter_entries(r) == Multiset::<int>::empty(),
        filter_slots(r) == slots_for(capacity as nat),
{
    cuckoofilter::CuckooFilter::with_capacity(capacity)
}

/// `cuckoofilter::CuckooFilter::contains`. Claimed: it tells whether there is an
/// entry of the key's class.
#[verifier::external_body]
fn cuckoo_contains(f: &cuckoofilter::CuckooFilter<DefaultHasher>, k: &String) -> (r: bool)
    ensures
        r == filter_entries(*f).contains(filter_classes(*f)[k@]),
{
    f.contains(k)
}

/// `cuckoofilter::CuckooFilter::add`. Claimed: where it succeeds, one entry of the
/// key's class is added; what makes room for it moves within its own class. It
/// fails where every slot is occupied, and only where the four of one bucket are.
/// Left unsaid: whether it succeeds in between, and which entry is lost where it
/// fails, which are both up to chance.
#[verifier::external_body]
fn cuckoo_add(f: &mut cuckoofilter::CuckooFilter<DefaultHasher>, k: &String) -> (r: bool)
    requires
        is_regular(filter_slots(*old(f))),
    ensures
        r ==> filter_entries(*final(f)) == filter_entries(*old(f)).insert(
            filter_classes(*old(f))[k@],
        ),
        r ==> filter_entries(*old(f)).len() < filter_slots(*old(f)),
        !r ==> filter_entries(*old(f)).len() >= 4,
        filter_classes(*final(f)) == filter_classes(*old(f)),
        filter_slots(*final(f)) == filter_slots(*old(f)),
{
    f.add(k).is_ok()
}

/// `cuckoofilter::CuckooFilter::delete`. Claimed: it tells whether there was an
/// entry of the key's class; one such entry is removed, if there was any.
#[verifier::external_body]
fn cuckoo_delete(f: &mut cuckoofilter::CuckooFilter<DefaultHasher>, k: &String) -> (r: bool)
    requires
        is_regular(filter_slots(*old(f))),
    ensures
        r == filter_entries(*old(f)).contains(filter_classes(*old(f))[k@]),
        filter_entries(*final(f)) == (if r {
            filter_entries(*old(f)).remove(filter_classes(*old(f))[k@])
        } else {
            filter_entries(*old(f))
        }),
        filter_classes(*final(f)) == filter_classes(*old(f)),
        filter_slots(*final(f)) == filter_slots(*old(f)),
{
    f.delete(k)
}

/// A mutable blob-presence filter. Once an insertion has failed it is disabled,
/// and every blob may be present.
pub struct BlobPresenceFilter {
    filter: Option<cuckoofilter::CuckooFilter<DefaultHasher>>,
}

/// The filter after an insertion: given up if it failed.
pub fn settle(filter: cuckoofilter::CuckooFilter<DefaultHasher>, added: bool) -> (r: Option<
    cuckoofilter::CuckooFilter<DefaultHasher>,
>)
    ensures
        r == (if added {
            Some(filter)
        } else {
            None
        }),
{
    if added {
        Some(filter)
    } else {
        None
    }
}

impl BlobPresenceFilter {
    /// The filter, while there is one, is of the kind that loses no key when it
    /// makes room, and holds no more than it has room for.
    pub closed spec fn wf(&self) -> bool {
        self.filter matches Some(f) ==> is_regular(filter_slots(f)) && filter_entries(f).len()
            <= filter_slots(f)
    }

    /// Whether the filter has been given up.
    pub closed spec fn is_disabled(&self) -> bool {
        self.filter is None
    }

    /// The entries of the filter, by their classes.
    pub closed spec fn held(&self) -> Multiset<int> {
        match self.filter {
            Some(f) => filter_entries(f),
            None => Multiset::empty(),
        }
    }

    /// The class of the entry that stands for a key. Keys of one class are not
    /// told apart.
    pub closed spec fn entry_of(&self, k: Text) -> int {
        match self.filter {
            Some(f) => filter_classes(f)[k],
            None => 0,
        }
    }

    /// How many entries there is room for.
    pub closed spec fn room(&self) -> nat {
        match self.filter {
            Some(f) => filter_slots(f),
            None => 0,
        }
    }

    /// Whether the blob with this key may be present.
    pub open spec fn may_hold(&self, k: Text) -> bool {
        self.is_disabled() || self.held().contains(self.entry_of(k))
    }

    /// The room is that of `before`, and so is the entry of every key.
    pub open spec fn is_shaped_like(&self, before: &BlobPresenceFilter) -> bool {
        &&& self.room() == before.room()
        &&& forall|k: Text| #[trigger] self.entry_of(k) == before.entry_of(k)
    }

    /// This is `before` with an entry more for the key.
    pub open spec fn has_added(&self, before: &BlobPresenceFilter, k: Text) -> bool {
        &&& self.is_shaped_like(before)
        &&& self.held() == before.held().insert(before.entry_of(k))
    }

    /// A blob was recorded in `before`: there is an entry more for it, or the
    /// filter was given up.
    pub open spec fn has_recorded(&self, before: &BlobPresenceFilter, k: Text) -> bool {
        self.is_disabled() || !before.is_disabled() && self.has_added(before, k)
    }

    /// The entries of some keys, one after the other.
    pub open spec fn entries_of(&self, keys: Seq<Text>) -> Multiset<int>
        decreases keys.len(),
    {
        if keys.len() == 0 {
            Multiset::empty()
        } else {
            self.entries_of(keys.drop_last()).insert(self.entry_of(keys.last()))
        }
    }

    /// All of `keys` were recorded in `before`: there is an entry more for each,
    /// or the filter was given up.
    pub open spec fn has_recorded_all(&self, before: &BlobPresenceFilter, keys: Seq<Text>) -> bool {
        self.is_disabled() || !before.is_disabled() && self.is_shaped_like(before) && self.held()
            == before.held().add(before.entries_of(keys))
    }

    /// This is `before` with an entry less for the key, if there was any.
    pub open spec fn has_dropped(&self, before: &BlobPresenceFilter, k: Text) -> bool {
        &&& self.is_shaped_like(before)
        &&& self.held() == (if before.held().contains(before.entry_of(k)) {
            before.held().remove(before.entry_of(k))
        } else {
            before.held()
        })
    }

    /// Each of `keys`, as often as it occurs, has an entry of its own.
    pub open spec fn covers(&self, keys: Multiset<Text>) -> bool {
        self.is_disabled() || forall|e: int|
            keys.filter(|k: Text| self.entry_of(k) == e).len() <= #[trigger] self.held().count(e)
    }

    /// An enabled filter that holds nothing.
    pub fn new() -> (r: BlobPresenceFilter)
        ensures
            r.wf(),
            !r.is_disabled(),
            r.held() == Multiset::<int>::empty(),
            r.room() == slots_for(1048575),
            forall|k: Text| !#[trigger] r.may_hold(k),
    {
        proof {
            lemma_four();
            lemma_doubled(4, 1048575);
        }
        BlobPresenceFilter { filter: Some(cuckoo_new()) }
    }

    /// An enabled filter that holds nothing, sized for `capacity` entries.
    pub fn with_capacity(capacity: usize) -> (r: BlobPresenceFilter)
        requires
            capacity <= usize::MAX / 4 + 1,
        ensures
            r.wf(),
            !r.is_disabled(),
            r.held() == Multiset::<int>::empty(),
            r.room() == slots_for(capacity as nat),
            forall|k: Text| !#[trigger] r.may_hold(k),
    {
        proof {
            lemma_four();
            lemma_doubled(4, capacity as nat);
        }
        BlobPresenceFilter { filter: Some(cuckoo_with_capacity(capacity)) }
    }

    /// A filter that has been given up: every blob may be present.
    pub fn disabled() -> (r: BlobPresenceFilter)
        ensures
            r.wf(),
            r.is_disabled(),
            forall|k: Text| #[trigger] r.may_hold(k),
    {
        BlobPresenceFilter { filter: None }
    }

    /// Records a blob as present. No blob that may have been present is denied
    /// afterwards. A filter without room is given up; one with less than a bucket
    /// of entries is not.
    pub fn insert(&mut self, repo: &str, digest: &str)
        requires
            old(self).wf(),
        ensures
            final(self).wf(),
            final(self).may_hold(blob_key(repo@, digest@)),
            forall|k: Text| old(self).may_hold(k) ==> #[trigger] final(self).may_hold(k),
            final(self).has_recorded(old(self), blob_key(repo@, digest@)),
            old(self).held().len() == old(self).room() ==> final(self).is_disabled(),
            !old(self).is_disabled() && old(self).held().len() < 4 ==> !final(self).is_disabled(),
    {
        let mut current: Option<cuckoofilter::CuckooFilter<DefaultHasher>> = None;
        std::mem::swap(&mut current, &mut self.filter);
        if let Some(mut f) = current {
            let k = key(repo, digest);
            let added = cuckoo_add(&mut f, &k);
            self.filter = settle(f, added);
        }
    }

    /// Drops a blob's membership, as far as it had any: one entry of the blob's
    /// class goes. The filter tells blobs apart by their class alone, so only a
    /// blob that was recorded is dropped without loss to another of its class.
    pub fn remove(&mut self, repo: &str, digest: &str)
        requires
            old(self).wf(),
        ensures
            final(self).wf(),
            final(self).is_disabled() == old(self).is_disabled(),
            final(self).has_dropped(old(self), blob_key(repo@, digest@)),
            forall|k: Text| #[trigger] final(self).may_hold(k) ==> old(self).may_hold(k),
            !old(self).may_hold(blob_key(repo@, digest@)) ==> forall|k: Text|
                #[trigger]
                final(self).may_hold(k) == old(self).may_hold(k),
    {
        let mut current: Option<cuckoofilter::CuckooFilter<DefaultHasher>> = None;
        std::mem::swap(&mut current, &mut self.filter);
        if let Some(mut f) = current {
            let k = key(repo, digest);
            let _ = cuckoo_delete(&mut f, &k);
            self.filter = Some(f);
        }
    }

    /// Whether the blob may be present. `false` is definite; `true` has to be
    /// verified. A disabled filter always says `true`.
    pub fn maybe_present(&self, repo: &str, digest: &str) -> (r: bool)
        ensures
            r == self.may_hold(blob_key(repo@, digest@)),
            self.is_disabled() ==> r,
    {
        match &self.filter {
            Some(f) => {
                let k = key(repo, digest);
                cuckoo_contains(f, &k)
            },
            None => true,
        }
    }
}

/// A blob that was recorded, and not dropped as often as it was recorded, is never
/// denied, whatever else is recorded, and whatever recorded blob is dropped.
pub proof fn recorded_blobs_are_never_denied(
    before: &BlobPresenceFilter,
    after: &BlobPresenceFilter,
    keys: Multiset<Text>,
    k: Text,
)
    requires
        before.covers(keys),
    ensures
        forall|x: Text| keys.contains(x) ==> #[trigger] before.may_hold(x),
        after.has_recorded(before, k) ==> after.covers(keys.insert(k)),
        keys.contains(k) && after.is_disabled() == before.is_disabled() && after.has_dropped(
            before,
            k,
        ) ==> after.covers(keys.remove(k)),
{
    if !before.is_disabled() {
        assert forall|x: Text| keys.contains(x) implies #[trigger] before.may_hold(x) by {
            let e = before.entry_of(x);
            let same = keys.filter(|y: Text| before.entry_of(y) == e);
            assert(same.count(x) == keys.count(x));
            assert(before.held().count(e) >= same.len());
        }
        if after.has_added(before, k) {
            assert forall|e: int|
                keys.insert(k).filter(|y: Text| after.entry_of(y) == e).len()
                    <= #[trigger] after.held().count(e) by {
                let was = keys.filter(|y: Text| before.entry_of(y) == e);
                let now = keys.insert(k).filter(|y: Text| after.entry_of(y) == e);
                assert(before.held().count(e) >= was.len());
                assert(after.entry_of(k) == before.entry_of(k));
                assert forall|y: Text| now.count(y) == (if before.entry_of(k) == e {
                    was.insert(k)
                } else {
                    was
                }).count(y) by {
                    assert(after.entry_of(y) == before.entry_of(y));
                }
                if before.entry_of(k) == e {
                    assert(now =~= was.insert(k));
                } else {
                    assert(now =~= was);
                }
            }
        }
        if keys.contains(k) && after.has_dropped(before, k) {
            assert(before.may_hold(k));
            assert forall|e: int|
                keys.remove(k).filter(|y: Text| after.entry_of(y) == e).len()
                    <= #[trigger] after.held().count(e) by {
                let was = keys.filter(|y: Text| before.entry_of(y) == e);
                let now = keys.remove(k).filter(|y: Text| after.entry_of(y) == e);
                assert(before.held().count(e) >= was.len());
                assert(after.entry_of(k) == before.entry_of(k));
                assert forall|y: Text| now.count(y) == (if before.entry_of(k) == e {
                    was.remove(k)
                } else {
                    was
                }).count(y) by {
                    assert(after.entry_of(y) == before.entry_of(y));
                }
                if before.entry_of(k) == e {
                    assert(now =~= was.remove(k));
                } else {
                    assert(now =~= was);
                }
            }
        }
    }
}

/// One key more is recorded.
pub proof fn lemma_one_more_recorded(
    before: &BlobPresenceFilter,
    mid: &BlobPresenceFilter,
    after: &BlobPresenceFilter,
    keys: Seq<Text>,
    k: Text,
)
    requires
        mid.has_recorded_all(before, keys),
        after.has_recorded(mid, k),
    ensures
        after.has_recorded_all(before, keys.push(k)),
{
    if !after.is_disabled() {
        assert(keys.push(k).drop_last() =~= keys);
        assert(mid.entry_of(k) == before.entry_of(k));
        assert(after.held() =~= before.held().add(before.entries_of(keys.push(k))));
        assert forall|x: Text| #[trigger] after.entry_of(x) == before.entry_of(x) by {
            assert(mid.entry_of(x) == before.entry_of(x));
        }
    }
}

/// `keys` with some more.
pub open spec fn with_keys(keys: Multiset<Text>, more: Seq<Text>) -> Multiset<Text>
    decreases more.len(),
{
    if more.len() == 0 {
        keys
    } else {
        with_keys(keys, more.drop_last()).insert(more.last())
    }
}

/// As many keys of a class join as entries of it.
proof fn lemma_classes_join(
    before: &BlobPresenceFilter,
    keys: Multiset<Text>,
    more: Seq<Text>,
    e: int,
)
    ensures
        with_keys(keys, more).filter(|y: Text| before.entry_of(y) == e).len() == keys.filter(
            |y: Text| before.entry_of(y) == e,
        ).len() + before.entries_of(more).count(e),
    decreases more.len(),
{
    if more.len() > 0 {
        let k = more.last();
        lemma_classes_join(before, keys, more.drop_last(), e);
        let was = with_keys(keys, more.drop_last()).filter(|y: Text| before.entry_of(y) == e);
        let now = with_keys(keys, more).filter(|y: Text| before.entry_of(y) == e);
        if before.entry_of(k) == e {
            assert(now =~= was.insert(k));
        } else {
            assert(now =~= was);
        }
    }
}

/// Blobs that are recorded together are never denied either.
pub proof fn blobs_recorded_together_are_never_denied(
    before: &BlobPresenceFilter,
    after: &BlobPresenceFilter,
    keys: Multiset<Text>,
    more: Seq<Text>,
)
    requires
        before.covers(keys),
        after.has_recorded_all(before, more),
    ensures
        after.covers(with_keys(keys, more)),
{
    if !after.is_disabled() {
        let all = with_keys(keys, more);
        assert forall|e: int|
            all.filter(|y: Text| after.entry_of(y) == e).len() <= #[trigger] after.held().count(
                e,
            ) by {
            lemma_classes_join(before, keys, more, e);
            let was = keys.filter(|y: Text| before.entry_of(y) == e);
            assert(before.held().count(e) >= was.len());
            let now = all.filter(|y: Text| after.entry_of(y) == e);
            let same = all.filter(|y: Text| before.entry_of(y) == e);
            assert forall|y: Text| #[trigger] now.count(y) == same.count(y) by {
                assert(after.entry_of(y) == before.entry_of(y));
            }
            assert(now =~= same);
        }
    }
}

impl Default for BlobPresenceFilter {
    fn default() -> (r: BlobPresenceFilter)
        ensures
            r.wf(),
            !r.is_disabled(),
            r.held() == Multiset::<int>::empty(),
            r.room() == slots_for(1048575),
            forall|k: Text| !#[trigger] r.may_hold(k),
    {
        BlobPresenceFilter::new()
    }
}

/// A filter that was not given up denies every blob of whose class it holds no
/// entry: one that holds nothing denies them all.
pub proof fn blobs_without_an_entry_are_denied(f: &BlobPresenceFilter, k: Text)
    ensures
        !f.is_disabled() && f.held().count(f.entry_of(k)) == 0 ==> !f.may_hold(k),
        !f.is_disabled() && f.held() == Multiset::<int>::empty() ==> !f.may_hold(k),
        !f.is_disabled() && f.may_hold(k) ==> f.held().count(f.entry_of(k)) > 0,
        f.is_disabled() ==> f.may_hold(k),
{
}

/// A recorded blob gains one entry and no other class gains any; a dropped one loses
/// one. Once its last entry is gone, a blob is denied.
pub proof fn entries_are_counted(
    before: &BlobPresenceFilter,
    after: &BlobPresenceFilter,
    k: Text,
    e: int,
)
    requires
        !before.is_disabled(),
        !after.is_disabled(),
    ensures
        after.has_recorded(before, k) ==> after.room() == before.room() && after.held().count(e)
            == before.held().count(e) + (if e == before.entry_of(k) {
            1int
        } else {
            0int
        }),
        after.has_dropped(before, k) && e != before.entry_of(k) ==> after.held().count(e)
            == before.held().count(e),
        after.has_dropped(before, k) && before.held().count(before.entry_of(k)) > 0
            ==> after.held().count(before.entry_of(k)) == before.held().count(before.entry_of(k))
            - 1,
        after.has_dropped(before, k) && before.held().count(before.entry_of(k)) <= 1
            ==> !after.may_hold(k),
        after.has_dropped(before, k) ==> after.room() == before.room(),
{
    if after.has_dropped(before, k) {
        assert(after.entry_of(k) == before.entry_of(k));
    }
}

/// A filter has room for what it is sized for, and less than twice that, beyond one
/// bucket.
pub proof fn room_is_what_was_asked_for(capacity: nat)
    ensures
        slots_for(capacity) >= capacity,
        slots_for(capacity) >= 4,
        slots_for(capacity) > 4 ==> slots_for(capacity) < 2 * capacity,
        is_pow2(slots_for(capacity) as int),
{
    lemma_four();
    lemma_doubled(4, capacity);
    lemma_least(4, capacity);
}

/// Doubling stops as soon as it can.
proof fn lemma_least(n: nat, least: nat)
    requires
        n > 0,
    ensures
        doubled(n, least) >= n,
        doubled(n, least) > n ==> doubled(n, least) < 2 * least,
    decreases (if n < least { least - n } else { 0 }),
{
    if n < least {
        lemma_least(2 * n, least);
    }
}

/// A filter covers no blobs at all from the start.
pub proof fn nothing_is_covered_from_the_start(f: &BlobPresenceFilter)
    ensures
        f.covers(Multiset::empty()),
{
    assert forall|e: int|
        Multiset::<Text>::empty().filter(|k: Text| f.entry_of(k) == e).len()
            <= #[trigger] f.held().count(e) by {
        assert(Multiset::<Text>::empty().filter(|k: Text| f.entry_of(k) == e)
            =~= Multiset::empty());
    }
}

/// Each of the blobs that are recorded together may be present from then on, and so
/// may each that might have been before.
pub proof fn blobs_recorded_together_may_be_present(
    before: &BlobPresenceFilter,
    after: &BlobPresenceFilter,
    keys: Seq<Text>,
    k: Text,
)
    requires
        after.has_recorded_all(before, keys),
    ensures
        keys.contains(k) || before.may_hold(k) ==> after.may_hold(k),
{
    if !after.is_disabled() {
        assert(after.entry_of(k) == before.entry_of(k));
        if keys.contains(k) {
            lemma_entry_among(before, keys, k);
        }
    }
}

/// The entry of a key is among those of the keys.
proof fn lemma_entry_among(f: &BlobPresenceFilter, keys: Seq<Text>, k: Text)
    requires
        keys.contains(k),
    ensures
        f.entries_of(keys).count(f.entry_of(k)) > 0,
    decreases keys.len(),
{
    if keys.last() != k {
        let i = choose|i: int| 0 <= i < keys.len() && keys[i] == k;
        assert(keys.drop_last()[i] == k);
        lemma_entry_among(f, keys.drop_last(), k);
    }
}

} // verus!
