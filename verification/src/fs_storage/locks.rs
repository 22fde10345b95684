//! Locks by repository and name: one per upload session, and one per blob that
//! is being admitted.

use crate::error::StorageError;
use crate::fs_storage::paths::{is_safe, SafeComponent};
use crate::metadata::state::pair;
use crate::table::Table;
use crate::text::Text;
use vstd::prelude::*;

verus! {

broadcast use vstd::string::group_string_axioms;

/// The locks that are in use.
#[derive(Debug)]
pub struct LockTable<L> {
    locks: Table<(String, String), L>,
}

/// The locks once there is one for `k`; a new one only where there was none.
pub open spec fn with_lock<L>(m: Map<(Text, Text), L>, k: (Text, Text), fresh: L) -> Map<
    (Text, Text),
    L,
> {
    if m.contains_key(k) {
        m
    } else {
        m.insert(k, fresh)
    }
}

impl<L> LockTable<L> {
    /// The rows are in order.
    pub closed spec fn wf(&self) -> bool {
        self.locks.wf()
    }

    /// The locks by repository and name.
    pub closed spec fn map(&self) -> Map<(Text, Text), L> {
        self.locks.map()
    }

    /// No locks.
    pub fn new() -> (r: LockTable<L>)
        ensures
            r.wf(),
            r.map() == Map::<(Text, Text), L>::empty(),
    {
        LockTable { locks: Table::new() }
    }

    /// Makes sure that there is a lock for `(repo, name)`.
    fn ensure(&mut self, repo: &str, name: &str, fresh: L)
        requires
            old(self).wf(),
        ensures
            final(self).wf(),
            final(self).map() == with_lock(old(self).map(), (repo@, name@), fresh),
    {
        let key = pair(repo, name);
        if !self.locks.contains(&key) {
            self.locks.insert(key, fresh);
        }
    }

    /// The lock for `(repo, name)`.
    pub fn get(&self, repo: &str, name: &str) -> (r: Option<&L>)
        requires
            self.wf(),
        ensures
            r is Some <==> self.map().contains_key((repo@, name@)),
            r matches Some(l) ==> *l == self.map()[(repo@, name@)],
    {
        self.locks.get(&pair(repo, name))
    }

    /// The lock of an upload session, made on first use. The id is validated
    /// first, so that no lock is left behind for an id that no session can have.
    pub fn session_lock(&mut self, repo: &str, id: &str, fresh: L) -> (r: Result<
        &L,
        StorageError,
    >)
        requires
            old(self).wf(),
        ensures
            final(self).wf(),
            r is Ok <==> is_safe(id@),
            r matches Ok(l) ==> final(self).map() == with_lock(
                old(self).map(),
                (repo@, id@),
                fresh,
            ) && *l == final(self).map()[(repo@, id@)],
            r matches Err(e) ==> final(self).map() == old(self).map() && (
            e matches StorageError::BadPath(p) && p@ == id@),
    {
        match SafeComponent::new(id) {
            Ok(_) => {},
            Err(e) => {
                return Err(e);
            },
        }
        self.ensure(repo, id, fresh);
        match self.get(repo, id) {
            Some(l) => Ok(l),
            None => {
                assert(false);
                Err(StorageError::NotFound)
            },
        }
    }

    /// Drops the lock of a session that is over.
    pub fn drop_session_lock(&mut self, repo: &str, id: &str)
        requires
            old(self).wf(),
        ensures
            final(self).wf(),
            final(self).map() == old(self).map().remove((repo@, id@)),
    {
        let _ = self.locks.remove(&pair(repo, id));
    }

    /// The lock that serializes the admission of a blob, made on first use.
    pub fn blob_admit_lock(&mut self, repo: &str, digest: &str, fresh: L) -> (r: Option<&L>)
        requires
            old(self).wf(),
        ensures
            final(self).wf(),
            final(self).map() == with_lock(old(self).map(), (repo@, digest@), fresh),
            r == Some(&final(self).map()[(repo@, digest@)]),
    {
        self.ensure(repo, digest, fresh);
        self.get(repo, digest)
    }

    /// Drops the lock of a blob that was admitted, unless someone besides the
    /// table and the caller still holds it.
    pub fn drop_blob_admit_lock(&mut self, repo: &str, digest: &str, holders: usize)
        requires
            old(self).wf(),
        ensures
            final(self).wf(),
            final(self).map() == (if holders <= 2 {
                old(self).map().remove((repo@, digest@))
            } else {
                old(self).map()
            }),
    {
        if holders <= 2 {
            let _ = self.locks.remove(&pair(repo, digest));
        }
    }
}

/// Opening and closing a session leaves no lock of it behind, and touches no
/// other.
pub proof fn closed_session_leaves_no_lock<L>(m: Map<(Text, Text), L>, k: (Text, Text), fresh: L)
    ensures
        !with_lock(m, k, fresh).remove(k).contains_key(k),
        with_lock(m, k, fresh).remove(k) == m.remove(k),
{
    assert(with_lock(m, k, fresh).remove(k) =~= m.remove(k));
}

} // verus!
