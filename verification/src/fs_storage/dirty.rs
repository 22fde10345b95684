//! Which repositories' `index.json` lags the metadata store, each with a number
//! that every mutation changes.

use crate::table::{lemma_row_at, lemma_row_of, Table, TableKey};
use crate::text::Text;
use vstd::prelude::*;

verus! {

broadcast use vstd::string::group_string_axioms;

/// The number after `g`; the last one is followed by the first.
pub open spec fn next_generation(g: u64) -> u64 {
    if g == u64::MAX {
        0
    } else {
        (g + 1) as u64
    }
}

/// `repo` was mutated once more.
pub open spec fn marked(m: Map<Text, u64>, repo: Text) -> Map<Text, u64> {
    m.insert(
        repo,
        next_generation(
            if m.contains_key(repo) {
                m[repo]
            } else {
                0
            },
        ),
    )
}

/// The index of `repo`, rebuilt when its number was `g`, was written: the
/// repository is clean unless it was mutated since.
pub open spec fn written(m: Map<Text, u64>, repo: Text, g: u64) -> Map<Text, u64> {
    if m.contains_key(repo) && m[repo] == g {
        m.remove(repo)
    } else {
        m
    }
}

/// `repo` was mutated `n` times more.
pub open spec fn marked_times(m: Map<Text, u64>, repo: Text, n: nat) -> Map<Text, u64>
    decreases n,
{
    if n == 0 {
        m
    } else {
        marked(marked_times(m, repo, (n - 1) as nat), repo)
    }
}

/// The models of some rows.
pub open spec fn dirty_rows(s: Seq<(String, u64)>) -> Seq<(Text, u64)> {
    Seq::new(s.len(), |i: int| (s[i].0@, s[i].1))
}

/// The dirty repositories.
#[derive(Debug)]
pub struct IndexDirty {
    generations: Table<String, u64>,
}

impl View for IndexDirty {
    type V = Map<Text, u64>;

    /// The number of each dirty repository.
    closed spec fn view(&self) -> Map<Text, u64> {
        self.generations.map()
    }
}

impl IndexDirty {
    #[verifier::type_invariant]
    spec fn in_order(&self) -> bool {
        self.generations.wf()
    }

    /// Nothing is dirty.
    pub fn new() -> (r: IndexDirty)
        ensures
            r@ == Map::<Text, u64>::empty(),
    {
        IndexDirty { generations: Table::new() }
    }

    /// Marks `repo` dirty, under a new number.
    pub fn mark(&mut self, repo: &str)
        ensures
            final(self)@ == marked(old(self)@, repo@),
    {
        proof {
            use_type_invariant(&*self);
        }
        let key = repo.to_owned();
        let current: u64 = match self.generations.get(&key) {
            Some(g) => *g,
            None => 0,
        };
        let next: u64 = if current == u64::MAX {
            0
        } else {
            current + 1
        };
        let mut table: Table<String, u64> = Table::new();
        std::mem::swap(&mut table, &mut self.generations);
        table.insert(key, next);
        self.generations = table;
    }

    /// Whether `repo` is dirty.
    pub fn contains(&self, repo: &str) -> (r: bool)
        ensures
            r == self@.contains_key(repo@),
    {
        proof {
            use_type_invariant(self);
        }
        self.generations.contains(&repo.to_owned())
    }

    /// Whether nothing is dirty.
    pub fn is_empty(&self) -> (r: bool)
        ensures
            r == (self@ =~= Map::<Text, u64>::empty()),
    {
        proof {
            use_type_invariant(self);
            if self.generations.rows().len() > 0 {
                lemma_row_at(self.generations.rows(), 0);
            } else {
                assert forall|k: Text| !self@.contains_key(k) by {
                    if self@.contains_key(k) {
                        let i = lemma_row_of(self.generations.rows(), k);
                    }
                }
            }
        }
        self.generations.len() == 0
    }

    /// The dirty repositories with their numbers, each once.
    pub fn pending(&self) -> (r: Vec<(String, u64)>)
        ensures
            forall|i: int, j: int|
                #![trigger r@[i], r@[j]]
                0 <= i < j < r@.len() ==> r@[i].0@ != r@[j].0@,
            forall|repo: Text, g: u64|
                #![trigger dirty_rows(r@).contains((repo, g))]
                dirty_rows(r@).contains((repo, g)) <==> self@.contains_key(repo) && self@[repo]
                    == g,
    {
        proof {
            use_type_invariant(self);
        }
        let mut out: Vec<(String, u64)> = Vec::new();
        let mut i: usize = 0;
        let ghost rows = self.generations.rows();
        while i < self.generations.len()
            invariant
                rows == self.generations.rows(),
                i <= rows.len(),
                out@.len() == i,
                forall|j: int|
                    #![trigger out@[j]]
                    0 <= j < i ==> out@[j].0@ == rows[j].0@ && out@[j].1 == rows[j].1,
            decreases rows.len() - i,
        {
            out.push((self.generations.key_at(i).clone(), *self.generations.value_at(i)));
            i += 1;
        }
        proof {
            assert forall|a: int, b: int| 0 <= a < b < out@.len() implies #[trigger] out@[a].0@
                != #[trigger] out@[b].0@ by {
                assert(<String as TableKey>::key_lt(
                    rows[a].0.deep_view(),
                    rows[b].0.deep_view(),
                ));
                <String as TableKey>::key_lt_irreflexive(rows[a].0@);
            }
            assert forall|repo: Text, g: u64| #[trigger] dirty_rows(out@).contains(
                (repo, g),
            ) <==> self@.contains_key(repo) && self@[repo] == g by {
                if dirty_rows(out@).contains((repo, g)) {
                    let k = choose|k: int|
                        0 <= k < dirty_rows(out@).len() && dirty_rows(out@)[k] == (repo, g);
                    assert(out@[k].0@ == repo);
                    lemma_row_at(rows, k);
                }
                if self@.contains_key(repo) && self@[repo] == g {
                    let k = lemma_row_of(rows, repo);
                    assert(out@[k].0@ == repo);
                    assert(dirty_rows(out@)[k] == (repo, g));
                }
            }
        }
        out
    }

    /// Notes that the index of `repo`, rebuilt when its number was `generation`,
    /// was written.
    pub fn written(&mut self, repo: &str, generation: u64)
        ensures
            final(self)@ == written(old(self)@, repo@, generation),
    {
        proof {
            use_type_invariant(&*self);
        }
        let key = repo.to_owned();
        let unchanged = match self.generations.get(&key) {
            Some(g) => *g == generation,
            None => false,
        };
        if unchanged {
            let mut table: Table<String, u64> = Table::new();
            std::mem::swap(&mut table, &mut self.generations);
            table.remove(&key);
            self.generations = table;
        }
    }
}

/// The number after `n` more mutations.
proof fn lemma_marked_times(m: Map<Text, u64>, repo: Text, n: nat)
    requires
        m.contains_key(repo),
    ensures
        marked_times(m, repo, n).contains_key(repo),
        marked_times(m, repo, n)[repo] == (m[repo] + n) % 0x1_0000_0000_0000_0000,
    decreases n,
{
    if n > 0 {
        lemma_marked_times(m, repo, (n - 1) as nat);
        let x = m[repo] + n - 1;
        let top: int = 0x1_0000_0000_0000_0000;
        assert((x + 1) % top == (if x % top == top - 1 {
            0
        } else {
            x % top + 1
        }));
    }
}

/// A repository that was mutated while its index was being written stays dirty:
/// the write of what was there before does not clean it.
pub proof fn mutation_outlives_an_older_write(m: Map<Text, u64>, repo: Text, n: nat)
    requires
        m.contains_key(repo),
        0 < n < 0x1_0000_0000_0000_0000,
    ensures
        written(marked_times(m, repo, n), repo, m[repo]).contains_key(repo),
{
    lemma_marked_times(m, repo, n);
    let top: int = 0x1_0000_0000_0000_0000;
    let x = m[repo] + n;
    assert(x % top != m[repo]) by {
        if x < top {
            assert(x % top == x);
        } else {
            assert(x % top == x - top);
        }
    }
}

/// A repository that was not mutated since is clean once its index is written,
/// and no other repository is touched.
pub proof fn write_cleans_what_it_covers(m: Map<Text, u64>, repo: Text)
    requires
        m.contains_key(repo),
    ensures
        written(m, repo, m[repo]) == m.remove(repo),
{
}

} // verus!
