//! Garbage collection bookkeeping: the unreferenced blobs with the last time
//! each was wanted, the manifests that are roots, and the repositories that no
//! sweep may touch. Times are counted in nanoseconds from one fixed start.

use crate::metadata::state::pair;
use crate::page::texts;
use crate::table::{key_views, lemma_row_at, lemma_row_of, lemma_rows_len, Table};
use crate::text::Text;
use vstd::prelude::*;

verus! {

broadcast use vstd::string::group_string_axioms;

/// A `(repo, digest)` candidate key.
pub type BlobKey = (String, String);

/// How long `t` lies before `now`; nothing when it does not.
pub open spec fn elapsed(now: u64, t: u64) -> int {
    if now >= t {
        now - t
    } else {
        0
    }
}

/// The models of some keys.
pub open spec fn key_pairs(s: Seq<BlobKey>) -> Seq<(Text, Text)> {
    Seq::new(s.len(), |i: int| (s[i].0@, s[i].1@))
}

/// The candidate set.
#[derive(Debug)]
pub struct GcTracker {
    enabled: bool,
    delay: u64,
    candidates: Table<(String, String), u64>,
    ready: bool,
    roots: Table<(String, String), ()>,
    unsafe_repos: Table<String, ()>,
}

/// What a tracker holds.
#[verifier::ext_equal]
pub struct GcModel {
    pub enabled: bool,
    pub delay: u64,
    /// `(repo, digest)` to the last time the blob was wanted.
    pub candidates: Map<(Text, Text), u64>,
    /// The startup check has completed.
    pub ready: bool,
    pub roots: Set<(Text, Text)>,
    pub unsafe_repos: Set<Text>,
}

/// `k` is a candidate whose grace period has elapsed.
pub open spec fn due_at(m: GcModel, k: (Text, Text), now: u64) -> bool {
    m.candidates.contains_key(k) && elapsed(now, m.candidates[k]) >= m.delay
}

/// `k` is a candidate as of `at`.
pub open spec fn stamped(m: GcModel, k: (Text, Text), at: u64) -> GcModel {
    if m.enabled {
        GcModel { candidates: m.candidates.insert(k, at), ..m }
    } else {
        m
    }
}

/// `k`, if it is a candidate, was wanted at `now`.
pub open spec fn touched(m: GcModel, k: (Text, Text), now: u64) -> GcModel {
    if m.candidates.contains_key(k) {
        stamped(m, k, now)
    } else {
        m
    }
}

/// `k` is no candidate.
pub open spec fn cleared(m: GcModel, k: (Text, Text)) -> GcModel {
    if m.enabled {
        GcModel { candidates: m.candidates.remove(k), ..m }
    } else {
        m
    }
}

/// `k` is a root.
pub open spec fn rooted(m: GcModel, k: (Text, Text)) -> GcModel {
    if m.enabled {
        GcModel { roots: m.roots.insert(k), ..m }
    } else {
        m
    }
}

/// Sweeps skip `repo`.
pub open spec fn avoided(m: GcModel, repo: Text) -> GcModel {
    if m.enabled {
        GcModel { unsafe_repos: m.unsafe_repos.insert(repo), ..m }
    } else {
        m
    }
}

/// The tracker once `keys` are candidates as of `now`.
pub open spec fn with_candidates(m: GcModel, keys: Set<(Text, Text)>, now: u64) -> GcModel {
    if m.enabled {
        GcModel {
            candidates: Map::new(
                |k: (Text, Text)| keys.contains(k) || m.candidates.contains_key(k),
                |k: (Text, Text)|
                    if keys.contains(k) {
                        now
                    } else {
                        m.candidates[k]
                    },
            ),
            ..m
        }
    } else {
        m
    }
}

/// The tracker once none of `keys` is a candidate.
pub open spec fn without_candidates(m: GcModel, keys: Set<(Text, Text)>) -> GcModel {
    if m.enabled {
        GcModel { candidates: m.candidates.remove_keys(keys), ..m }
    } else {
        m
    }
}

impl View for GcTracker {
    type V = GcModel;

    closed spec fn view(&self) -> GcModel {
        GcModel {
            enabled: self.enabled,
            delay: self.delay,
            candidates: self.candidates.map(),
            ready: self.ready,
            roots: self.roots.map().dom(),
            unsafe_repos: self.unsafe_repos.map().dom(),
        }
    }
}

impl GcTracker {
    #[verifier::type_invariant]
    spec fn in_order(&self) -> bool {
        &&& self.candidates.wf()
        &&& self.roots.wf()
        &&& self.unsafe_repos.wf()
    }

    /// A tracker without candidates, roots or unsafe repositories.
    pub fn new(enabled: bool, delay: u64) -> (r: GcTracker)
        ensures
            r@ == (GcModel {
                enabled,
                delay,
                candidates: Map::empty(),
                ready: false,
                roots: Set::empty(),
                unsafe_repos: Set::empty(),
            }),
    {
        let r = GcTracker {
            enabled,
            delay,
            candidates: Table::new(),
            ready: false,
            roots: Table::new(),
            unsafe_repos: Table::new(),
        };
        assert(r@.roots =~= Set::empty());
        assert(r@.unsafe_repos =~= Set::empty());
        r
    }

    /// A tracker that records nothing and never sweeps.
    pub fn disabled() -> (r: GcTracker)
        ensures
            r@ == (GcModel {
                enabled: false,
                delay: 0,
                candidates: Map::empty(),
                ready: false,
                roots: Set::empty(),
                unsafe_repos: Set::empty(),
            }),
    {
        GcTracker::new(false, 0)
    }

    pub fn enabled(&self) -> (r: bool)
        ensures
            r == self@.enabled,
    {
        self.enabled
    }

    /// How long an unreferenced blob must stay untouched.
    pub fn delay(&self) -> (r: u64)
        ensures
            r == self@.delay,
    {
        self.delay
    }

    /// The blob is unreferenced as of `at`: stamps it a candidate.
    pub fn mark_at(&mut self, repo: &str, digest: &str, at: u64)
        ensures
            final(self)@ == stamped(old(self)@, (repo@, digest@), at),
    {
        proof {
            use_type_invariant(&*self);
        }
        if self.enabled {
            let mut table: Table<(String, String), u64> = Table::new();
            std::mem::swap(&mut table, &mut self.candidates);
            table.insert(pair(repo, digest), at);
            self.candidates = table;
        }
    }

    /// The blob is unreferenced as of `now`: stamps it a candidate, again if it
    /// was one.
    pub fn mark(&mut self, repo: &str, digest: &str, now: u64)
        ensures
            final(self)@ == stamped(old(self)@, (repo@, digest@), now),
    {
        self.mark_at(repo, digest, now);
    }

    /// Something wants the blob: refreshes its stamp if it is a candidate.
    pub fn touch(&mut self, repo: &str, digest: &str, now: u64)
        ensures
            final(self)@ == touched(old(self)@, (repo@, digest@), now),
    {
        proof {
            use_type_invariant(&*self);
        }
        if self.enabled && self.candidates.contains(&pair(repo, digest)) {
            self.mark_at(repo, digest, now);
        }
    }

    /// The blob is referenced, or gone: it is no candidate any more.
    pub fn clear(&mut self, repo: &str, digest: &str)
        ensures
            final(self)@ == cleared(old(self)@, (repo@, digest@)),
    {
        proof {
            use_type_invariant(&*self);
        }
        if self.enabled {
            let mut table: Table<(String, String), u64> = Table::new();
            std::mem::swap(&mut table, &mut self.candidates);
            let _ = table.remove(&pair(repo, digest));
            self.candidates = table;
        }
    }

    /// The candidates whose grace period has elapsed at `now`, each once.
    pub fn due(&self, now: u64) -> (r: Vec<BlobKey>)
        ensures
            key_pairs(r@).no_duplicates(),
            forall|k: (Text, Text)|
                #![trigger key_pairs(r@).contains(k)]
                key_pairs(r@).contains(k) <==> due_at(self@, k, now),
            forall|k: (Text, Text)|
                #![trigger self@.candidates[k]]
                self@.candidates.contains_key(k) && now >= self@.candidates[k] + self@.delay
                    ==> key_pairs(r@).contains(k),
    {
        proof {
            use_type_invariant(self);
        }
        let ghost rows = self.candidates.rows();
        let ghost model = self@;
        let mut out: Vec<BlobKey> = Vec::new();
        let mut i: usize = 0;
        while i < self.candidates.len()
            invariant
                self.candidates.wf(),
                rows == self.candidates.rows(),
                model == self@,
                model.candidates == self.candidates.map(),
                model.delay == self.delay,
                i <= rows.len(),
                key_pairs(out@).no_duplicates(),
                forall|k: (Text, Text)|
                    #![trigger key_pairs(out@).contains(k)]
                    key_pairs(out@).contains(k) <==> exists|j: int|
                        #![trigger rows[j]]
                        0 <= j < i && rows[j].0.deep_view() == k && elapsed(now, rows[j].1)
                            >= model.delay,
            decreases rows.len() - i,
        {
            let ghost had = key_pairs(out@);
            let k = self.candidates.key_at(i);
            let t: u64 = *self.candidates.value_at(i);
            let ghost view = rows[i as int].0.deep_view();
            let age: u64 = if now >= t {
                now - t
            } else {
                0
            };
            if age >= self.delay {
                out.push((k.0.clone(), k.1.clone()));
                proof {
                    assert(key_pairs(out@) =~= had.push(view));
                    if had.contains(view) {
                        let j = choose|j: int|
                            #![trigger rows[j]]
                            0 <= j < i && rows[j].0.deep_view() == view && elapsed(now, rows[j].1)
                                >= model.delay;
                        crate::table::lemma_row_unique(rows, j, i as int);
                    }
                }
            }
            proof {
                assert forall|x: (Text, Text)|
                    #![trigger key_pairs(out@).contains(x)]
                    key_pairs(out@).contains(x) <==> exists|j: int|
                        #![trigger rows[j]]
                        0 <= j < i + 1 && rows[j].0.deep_view() == x && elapsed(now, rows[j].1)
                            >= model.delay by {
                    if had.contains(x) {
                        let j = choose|j: int|
                            #![trigger rows[j]]
                            0 <= j < i && rows[j].0.deep_view() == x && elapsed(now, rows[j].1)
                                >= model.delay;
                        assert(rows[j].0.deep_view() == x);
                        let n = choose|n: int| 0 <= n < had.len() && had[n] == x;
                        assert(key_pairs(out@)[n] == x);
                    }
                    if key_pairs(out@).contains(x) && !had.contains(x) {
                        let n = choose|n: int|
                            0 <= n < key_pairs(out@).len() && key_pairs(out@)[n] == x;
                        if n < had.len() {
                            assert(had[n] == x);
                        }
                        assert(rows[i as int].0.deep_view() == x);
                    }
                    if age >= model.delay && x == view {
                        assert(key_pairs(out@)[had.len() as int] == x);
                    }
                    if (exists|j: int|
                        #![trigger rows[j]]
                        0 <= j < i + 1 && rows[j].0.deep_view() == x && elapsed(now, rows[j].1)
                            >= model.delay) && !had.contains(x) {
                        let j = choose|j: int|
                            #![trigger rows[j]]
                            0 <= j < i + 1 && rows[j].0.deep_view() == x && elapsed(
                                now,
                                rows[j].1,
                            ) >= model.delay;
                        if j < i {
                            assert(had.contains(x));
                        }
                        assert(x == view);
                    }
                }
            }
            i += 1;
        }
        proof {
            assert forall|k: (Text, Text)|
                #![trigger key_pairs(out@).contains(k)]
                key_pairs(out@).contains(k) <==> due_at(self@, k, now) by {
                if key_pairs(out@).contains(k) {
                    let j = choose|j: int|
                        #![trigger rows[j]]
                        0 <= j < rows.len() && rows[j].0.deep_view() == k && elapsed(
                            now,
                            rows[j].1,
                        ) >= model.delay;
                    lemma_row_at(rows, j);
                }
                if due_at(self@, k, now) {
                    let j = lemma_row_of(rows, k);
                    assert(rows[j].0.deep_view() == k);
                }
            }
        }
        out
    }

    /// Whether the blob is still a due candidate at `now`.
    pub fn is_due(&self, repo: &str, digest: &str, now: u64) -> (r: bool)
        ensures
            r == due_at(self@, (repo@, digest@), now),
            r <==> self@.candidates.contains_key((repo@, digest@)) && (self@.delay == 0 || now
                >= self@.candidates[(repo@, digest@)] + self@.delay),
    {
        proof {
            use_type_invariant(self);
        }
        match self.candidates.get(&pair(repo, digest)) {
            Some(t) => {
                let age: u64 = if now >= *t {
                    now - *t
                } else {
                    0
                };
                age >= self.delay
            },
            None => false,
        }
    }

    /// Number of current candidates.
    pub fn len(&self) -> (r: usize)
        ensures
            self@.candidates.dom().finite(),
            r == self@.candidates.dom().len(),
    {
        proof {
            use_type_invariant(self);
            lemma_rows_len(self.candidates.rows());
        }
        self.candidates.len()
    }

    pub fn is_empty(&self) -> (r: bool)
        ensures
            r == (self@.candidates =~= Map::<(Text, Text), u64>::empty()),
    {
        proof {
            use_type_invariant(self);
            lemma_rows_len(self.candidates.rows());
            let d = self@.candidates.dom();
            if d.len() == 0 {
                assert(d =~= Set::empty());
                assert(self@.candidates =~= Map::<(Text, Text), u64>::empty());
            }
        }
        self.candidates.len() == 0
    }

    /// Opens the sweep gate after the startup check.
    pub fn set_ready(&mut self)
        ensures
            final(self)@ == (GcModel { ready: true, ..old(self)@ }),
    {
        proof {
            use_type_invariant(&*self);
        }
        self.ready = true;
    }

    /// Whether sweeps may run.
    pub fn is_ready(&self) -> (r: bool)
        ensures
            r == (self@.enabled && self@.ready),
    {
        self.enabled && self.ready
    }

    /// Records a manifest known from the layout, which no sweep may collect.
    pub fn add_root(&mut self, repo: &str, digest: &str)
        ensures
            final(self)@ == rooted(old(self)@, (repo@, digest@)),
    {
        proof {
            use_type_invariant(&*self);
        }
        let ghost was = self@;
        if self.enabled {
            let mut table: Table<(String, String), ()> = Table::new();
            std::mem::swap(&mut table, &mut self.roots);
            table.insert(pair(repo, digest), ());
            self.roots = table;
            assert(self@.roots =~= was.roots.insert((repo@, digest@)));
        }
    }

    /// Whether the manifest is a root.
    pub fn is_root(&self, repo: &str, digest: &str) -> (r: bool)
        ensures
            r == self@.roots.contains((repo@, digest@)),
    {
        proof {
            use_type_invariant(self);
        }
        self.roots.contains(&pair(repo, digest))
    }

    /// Has sweeps skip `repo` entirely.
    pub fn mark_unsafe(&mut self, repo: &str)
        ensures
            final(self)@ == avoided(old(self)@, repo@),
    {
        proof {
            use_type_invariant(&*self);
        }
        let ghost was = self@;
        if self.enabled {
            let mut table: Table<String, ()> = Table::new();
            std::mem::swap(&mut table, &mut self.unsafe_repos);
            table.insert(repo.to_owned(), ());
            self.unsafe_repos = table;
            assert(self@.unsafe_repos =~= was.unsafe_repos.insert(repo@));
        }
    }

    /// Whether sweeps skip `repo`.
    pub fn is_unsafe(&self, repo: &str) -> (r: bool)
        ensures
            r == self@.unsafe_repos.contains(repo@),
    {
        proof {
            use_type_invariant(self);
        }
        let key = repo.to_owned();
        self.unsafe_repos.contains(&key)
    }

    /// Number of roots.
    pub fn roots_len(&self) -> (r: usize)
        ensures
            self@.roots.finite(),
            r == self@.roots.len(),
    {
        proof {
            use_type_invariant(self);
            lemma_rows_len(self.roots.rows());
        }
        self.roots.len()
    }

    /// The candidates, each once.
    pub fn candidate_keys(&self) -> (r: Vec<BlobKey>)
        ensures
            key_pairs(r@).no_duplicates(),
            key_pairs(r@).to_set() == self@.candidates.dom(),
    {
        proof {
            use_type_invariant(self);
        }
        let r = self.candidates.keys();
        assert(key_pairs(r@) =~= key_views(r@));
        r
    }

    /// The roots, each once.
    pub fn root_keys(&self) -> (r: Vec<BlobKey>)
        ensures
            key_pairs(r@).no_duplicates(),
            key_pairs(r@).to_set() == self@.roots,
    {
        proof {
            use_type_invariant(self);
        }
        let r = self.roots.keys();
        assert(key_pairs(r@) =~= key_views(r@));
        r
    }

    /// The repositories that sweeps skip, each once.
    pub fn unsafe_repo_names(&self) -> (r: Vec<String>)
        ensures
            texts(r@).no_duplicates(),
            texts(r@).to_set() == self@.unsafe_repos,
    {
        proof {
            use_type_invariant(self);
        }
        let r = self.unsafe_repos.keys();
        assert(texts(r@) =~= key_views(r@));
        r
    }
}

/// A blob wanted at `t` is not due before `t` and the delay have passed: what is
/// wanted now stays out of every sweep for a full grace period.
pub proof fn wanted_blob_is_safe(m: GcModel, k: (Text, Text), t: u64, now: u64)
    requires
        m.candidates.contains_key(k),
        m.candidates[k] == t,
        now < t + m.delay,
        m.delay > 0,
    ensures
        !due_at(m, k, now),
{
}

/// A candidate is due from the moment its whole grace period has passed, however
/// long that is and however late the sweep comes, and not before; nothing but a
/// candidate is ever due.
pub proof fn candidate_is_due_once_its_grace_is_over(m: GcModel, k: (Text, Text), now: u64)
    ensures
        m.candidates.contains_key(k) && now >= m.candidates[k] + m.delay ==> due_at(m, k, now),
        m.candidates.contains_key(k) && m.delay == 0 ==> due_at(m, k, now),
        due_at(m, k, now) ==> m.candidates.contains_key(k),
        due_at(m, k, now) && m.delay > 0 ==> now >= m.candidates[k] + m.delay,
{
}

/// What is due stays due at every later time, as long as nothing wants it.
pub proof fn due_candidate_stays_due(m: GcModel, k: (Text, Text), now: u64, later: u64)
    requires
        due_at(m, k, now),
        now <= later,
    ensures
        due_at(m, k, later),
{
}

/// A longer grace period makes nothing due that a shorter one keeps.
pub proof fn longer_grace_keeps_more(m: GcModel, longer: u64, k: (Text, Text), now: u64)
    requires
        longer >= m.delay,
        due_at(GcModel { delay: longer, ..m }, k, now),
    ensures
        due_at(m, k, now),
{
}

/// Two models that differ in their candidates only.
pub open spec fn same_but_candidates(a: GcModel, b: GcModel) -> bool {
    a.enabled == b.enabled && a.delay == b.delay && a.ready == b.ready && a.roots == b.roots
        && a.unsafe_repos == b.unsafe_repos
}

/// A marked blob is a candidate as of the time it was marked at, again if it was
/// one, and no other blob is concerned; a tracker that is off records nothing.
pub proof fn marked_blob_is_a_candidate(m: GcModel, k: (Text, Text), at: u64, other: (Text, Text))
    ensures
        m.enabled ==> stamped(m, k, at).candidates.contains_key(k) && stamped(
            m,
            k,
            at,
        ).candidates[k] == at,
        other != k ==> (stamped(m, k, at).candidates.contains_key(other)
            <==> m.candidates.contains_key(other)),
        other != k && m.candidates.contains_key(other) ==> stamped(m, k, at).candidates[other]
            == m.candidates[other],
        same_but_candidates(stamped(m, k, at), m),
        !m.enabled ==> stamped(m, k, at) == m,
{
}

/// A wanted candidate counts its grace period anew; a blob that is no candidate
/// does not become one, and no other blob is concerned.
pub proof fn wanted_candidate_starts_over(m: GcModel, k: (Text, Text), now: u64, other: (Text, Text))
    ensures
        touched(m, k, now).candidates.dom() == m.candidates.dom(),
        m.enabled && m.candidates.contains_key(k) ==> touched(m, k, now).candidates[k] == now,
        other != k && m.candidates.contains_key(other) ==> touched(m, k, now).candidates[other]
            == m.candidates[other],
        same_but_candidates(touched(m, k, now), m),
        !m.enabled ==> touched(m, k, now) == m,
{
    assert(touched(m, k, now).candidates.dom() =~= m.candidates.dom());
}

/// A blob that is referenced again is no candidate; no other blob is concerned.
pub proof fn cleared_blob_is_no_candidate(m: GcModel, k: (Text, Text), other: (Text, Text), now: u64)
    ensures
        m.enabled ==> !cleared(m, k).candidates.contains_key(k) && !due_at(cleared(m, k), k, now),
        other != k ==> (cleared(m, k).candidates.contains_key(other)
            <==> m.candidates.contains_key(other)),
        other != k && m.candidates.contains_key(other) ==> cleared(m, k).candidates[other]
            == m.candidates[other],
        same_but_candidates(cleared(m, k), m),
        !m.enabled ==> cleared(m, k) == m,
{
}

/// Blobs marked together are candidates as of that time, blobs cleared together
/// are none, and no other blob is concerned.
pub proof fn blobs_are_marked_and_cleared_together(
    m: GcModel,
    keys: Set<(Text, Text)>,
    now: u64,
    k: (Text, Text),
)
    requires
        m.enabled,
    ensures
        keys.contains(k) ==> with_candidates(m, keys, now).candidates.contains_key(k)
            && with_candidates(m, keys, now).candidates[k] == now,
        keys.contains(k) ==> !without_candidates(m, keys).candidates.contains_key(k),
        !keys.contains(k) ==> (with_candidates(m, keys, now).candidates.contains_key(k)
            <==> m.candidates.contains_key(k)) && (without_candidates(
            m,
            keys,
        ).candidates.contains_key(k) <==> m.candidates.contains_key(k)),
        !keys.contains(k) && m.candidates.contains_key(k) ==> with_candidates(
            m,
            keys,
            now,
        ).candidates[k] == m.candidates[k] && without_candidates(m, keys).candidates[k]
            == m.candidates[k],
        same_but_candidates(with_candidates(m, keys, now), m),
        same_but_candidates(without_candidates(m, keys), m),
{
}

/// A root stays one and becomes no candidate; a repository that sweeps skip is
/// skipped from then on. A tracker that is off records neither.
pub proof fn roots_and_unsafe_repositories_are_kept(
    m: GcModel,
    k: (Text, Text),
    repo: Text,
    other: (Text, Text),
    name: Text,
)
    ensures
        m.enabled ==> (rooted(m, k).roots.contains(other) <==> other == k || m.roots.contains(
            other,
        )),
        rooted(m, k).candidates == m.candidates,
        rooted(m, k).unsafe_repos == m.unsafe_repos,
        rooted(m, k).ready == m.ready,
        rooted(m, k).enabled == m.enabled,
        rooted(m, k).delay == m.delay,
        m.enabled ==> (avoided(m, repo).unsafe_repos.contains(name) <==> name == repo
            || m.unsafe_repos.contains(name)),
        avoided(m, repo).roots == m.roots,
        avoided(m, repo).candidates == m.candidates,
        avoided(m, repo).ready == m.ready,
        avoided(m, repo).enabled == m.enabled,
        avoided(m, repo).delay == m.delay,
        !m.enabled ==> rooted(m, k) == m && avoided(m, repo) == m,
{
}

} // verus!
