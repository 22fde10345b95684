//! The dedupe cache: which repository holds the canonical copy of a digest.

use crate::gc::key_pairs;
use crate::table::{lemma_row_at, lemma_row_of, lemma_row_unique, Table};
use crate::text::{same, Text};
use vstd::prelude::*;

verus! {

broadcast use vstd::string::group_string_axioms;

/// One location per digest. It is never an authority for reads.
#[derive(Debug)]
pub struct DedupeIndex {
    enabled: bool,
    by_digest: Table<String, String>,
}

impl DedupeIndex {
    #[verifier::type_invariant]
    spec fn in_order(&self) -> bool {
        self.by_digest.wf()
    }

    /// The repository recorded for each digest.
    pub closed spec fn locations(&self) -> Map<Text, Text> {
        self.by_digest.map().map_values(|v: String| v@)
    }

    /// Whether anything is recorded or located.
    pub closed spec fn is_enabled(&self) -> bool {
        self.enabled
    }

    /// An index that knows no location.
    pub fn new(enabled: bool) -> (r: DedupeIndex)
        ensures
            r.is_enabled() == enabled,
            r.locations() == Map::<Text, Text>::empty(),
    {
        let r = DedupeIndex { enabled, by_digest: Table::new() };
        assert(r.locations() =~= Map::<Text, Text>::empty());
        r
    }

    /// Whether anything is recorded or located.
    pub fn enabled(&self) -> (r: bool)
        ensures
            r == self.is_enabled(),
    {
        self.enabled
    }

    /// Records that `repo` holds `digest`; kept only if no location is known.
    pub fn insert(&mut self, repo: &str, digest: &str)
        ensures
            final(self).is_enabled() == old(self).is_enabled(),
            final(self).locations() == (if old(self).is_enabled() && !old(
                self,
            ).locations().contains_key(digest@) {
                old(self).locations().insert(digest@, repo@)
            } else {
                old(self).locations()
            }),
    {
        proof {
            use_type_invariant(&*self);
        }
        if !self.enabled {
            return;
        }
        let key = digest.to_owned();
        let ghost was = self.locations();
        if !self.by_digest.contains(&key) {
            let mut table: Table<String, String> = Table::new();
            std::mem::swap(&mut table, &mut self.by_digest);
            table.insert(key, repo.to_owned());
            self.by_digest = table;
            assert(self.locations() =~= was.insert(digest@, repo@));
        }
    }

    /// `repo` no longer holds `digest`: forgets the location if it is there.
    pub fn remove(&mut self, repo: &str, digest: &str)
        ensures
            final(self).is_enabled() == old(self).is_enabled(),
            final(self).locations() == (if old(self).locations().contains_key(digest@) && old(
                self,
            ).locations()[digest@] == repo@ {
                old(self).locations().remove(digest@)
            } else {
                old(self).locations()
            }),
    {
        proof {
            use_type_invariant(&*self);
        }
        let key = digest.to_owned();
        let ghost was = self.locations();
        let held = match self.by_digest.get(&key) {
            Some(r) => same(r.as_str(), repo),
            None => false,
        };
        if held {
            let mut table: Table<String, String> = Table::new();
            std::mem::swap(&mut table, &mut self.by_digest);
            let _ = table.remove(&key);
            self.by_digest = table;
            assert(self.locations() =~= was.remove(digest@));
        }
    }

    /// A repository other than `repo` known to hold `digest`.
    pub fn locate(&self, digest: &str, repo: &str) -> (r: Option<String>)
        ensures
            r is Some <==> self.is_enabled() && self.locations().contains_key(digest@)
                && self.locations()[digest@] != repo@,
            r matches Some(found) ==> found@ == self.locations()[digest@],
    {
        proof {
            use_type_invariant(self);
        }
        if !self.enabled {
            return None;
        }
        let key = digest.to_owned();
        match self.by_digest.get(&key) {
            Some(r) => {
                if same(r.as_str(), repo) {
                    None
                } else {
                    Some(r.clone())
                }
            },
            None => None,
        }
    }

    /// The `(digest, repo)` locations, each digest once.
    pub fn entries(&self) -> (r: Vec<(String, String)>)
        ensures
            forall|i: int, j: int|
                #![trigger r@[i], r@[j]]
                0 <= i < j < r@.len() ==> r@[i].0@ != r@[j].0@,
            forall|digest: Text, repo: Text|
                #![trigger key_pairs(r@).contains((digest, repo))]
                key_pairs(r@).contains((digest, repo)) <==> self.locations().contains_key(digest)
                    && self.locations()[digest] == repo,
    {
        proof {
            use_type_invariant(self);
        }
        let ghost rows = self.by_digest.rows();
        let mut out: Vec<(String, String)> = Vec::new();
        let mut i: usize = 0;
        while i < self.by_digest.len()
            invariant
                rows == self.by_digest.rows(),
                i <= rows.len(),
                out@.len() == i,
                forall|j: int|
                    #![trigger out@[j]]
                    0 <= j < i ==> out@[j].0@ == rows[j].0@ && out@[j].1@ == rows[j].1@,
            decreases rows.len() - i,
        {
            out.push((self.by_digest.key_at(i).clone(), self.by_digest.value_at(i).clone()));
            i += 1;
        }
        proof {
            assert forall|a: int, b: int| 0 <= a < b < out@.len() implies #[trigger] out@[a].0@
                != #[trigger] out@[b].0@ by {
                if out@[a].0@ == out@[b].0@ {
                    lemma_row_unique(rows, a, b);
                }
            }
            assert forall|digest: Text, repo: Text| #[trigger] key_pairs(out@).contains(
                (digest, repo),
            ) <==> self.locations().contains_key(digest) && self.locations()[digest] == repo by {
                let pairs = key_pairs(out@);
                if pairs.contains((digest, repo)) {
                    let k = choose|k: int| 0 <= k < pairs.len() && pairs[k] == (digest, repo);
                    assert(out@[k].0@ == digest);
                    lemma_row_at(rows, k);
                }
                if self.locations().contains_key(digest) && self.locations()[digest] == repo {
                    let k = lemma_row_of(rows, digest);
                    assert(out@[k].0@ == digest);
                    assert(pairs[k] == (digest, repo));
                }
            }
        }
        out
    }
}

} // verus!
