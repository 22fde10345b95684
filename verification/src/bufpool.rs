//! Bounded pools of reusable buffers.

use vstd::prelude::*;

verus! {

/// `Vec::capacity`. Claimed: the capacity is at least the length.
#[verifier::external_body]
fn capacity_of(buf: &Vec<u8>) -> (r: usize)
    ensures
        r >= buf@.len(),
{
    buf.capacity()
}

/// A pool of one size class, holding at most `max` idle buffers.
#[derive(Debug)]
pub struct BufPool {
    capacity: usize,
    max: usize,
    idle: Vec<Vec<u8>>,
}

impl BufPool {
    #[verifier::type_invariant]
    spec fn bounded(&self) -> bool {
        &&& self.idle@.len() <= self.max
        &&& forall|i: int|
            #![trigger self.idle@[i]]
            0 <= i < self.idle@.len() ==> self.idle@[i]@.len() == 0
    }

    /// How many buffers are idle.
    pub closed spec fn idle_len(&self) -> nat {
        self.idle@.len()
    }

    /// The size class.
    pub closed spec fn class(&self) -> usize {
        self.capacity
    }

    /// How many idle buffers are kept.
    pub closed spec fn limit(&self) -> usize {
        self.max
    }

    /// A pool without buffers.
    pub fn new(capacity: usize, max: usize) -> (r: BufPool)
        ensures
            r.idle_len() == 0,
            r.class() == capacity,
            r.limit() == max,
    {
        BufPool { capacity, max, idle: Vec::new() }
    }

    /// How many buffers are idle.
    pub fn idle(&self) -> (r: usize)
        ensures
            r == self.idle_len(),
            r <= self.limit(),
    {
        proof {
            use_type_invariant(self);
        }
        self.idle.len()
    }

    /// An empty buffer: an idle one, or a new one of the size class.
    pub fn get(&mut self) -> (r: Vec<u8>)
        ensures
            r@.len() == 0,
            final(self).class() == old(self).class(),
            final(self).limit() == old(self).limit(),
            final(self).idle_len() == (if old(self).idle_len() > 0 {
                (old(self).idle_len() - 1) as nat
            } else {
                0
            }),
    {
        proof {
            use_type_invariant(&*self);
        }
        let mut idle: Vec<Vec<u8>> = Vec::new();
        std::mem::swap(&mut idle, &mut self.idle);
        let reused = idle.pop();
        self.idle = idle;
        match reused {
            Some(buf) => buf,
            None => Vec::with_capacity(self.capacity),
        }
    }

    /// Keeps a buffer of capacity `held` for reuse, emptied, unless it has
    /// shrunk below the size class or enough are idle.
    pub fn keep(&mut self, buf: Vec<u8>, held: usize)
        ensures
            final(self).class() == old(self).class(),
            final(self).limit() == old(self).limit(),
            final(self).idle_len() == (if held >= old(self).class() && old(self).idle_len()
                < old(self).limit() {
                old(self).idle_len() + 1
            } else {
                old(self).idle_len()
            }),
    {
        proof {
            use_type_invariant(&*self);
        }
        if held < self.capacity {
            return;
        }
        let mut buf = buf;
        buf.clear();
        if self.idle.len() < self.max {
            let mut idle: Vec<Vec<u8>> = Vec::new();
            std::mem::swap(&mut idle, &mut self.idle);
            idle.push(buf);
            self.idle = idle;
        }
    }

    /// Returns a buffer for reuse; it is dropped when enough are idle or it has
    /// shrunk below the size class.
    pub fn put(&mut self, buf: Vec<u8>)
        ensures
            final(self).class() == old(self).class(),
            final(self).limit() == old(self).limit(),
            final(self).idle_len() == old(self).idle_len() || final(self).idle_len() == old(
                self,
            ).idle_len() + 1,
            buf@.len() >= old(self).class() && old(self).idle_len() < old(self).limit()
                ==> final(self).idle_len() == old(self).idle_len() + 1,
            old(self).idle_len() >= old(self).limit() ==> final(self).idle_len() == old(
                self,
            ).idle_len(),
    {
        let held = capacity_of(&buf);
        self.keep(buf, held);
    }
}

} // verus!
