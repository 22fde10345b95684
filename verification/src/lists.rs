//! Lists of strings.

use crate::metadata::model::{joined, without};
use crate::page::texts;
use crate::text::{same, Text};
use vstd::prelude::*;

verus! {

/// Whether `x` is among `v`.
pub fn has_text(v: &Vec<String>, x: &str) -> (r: bool)
    ensures
        r == texts(v@).contains(x@),
{
    let mut i: usize = 0;
    while i < v.len()
        invariant
            i <= v@.len(),
            forall|j: int| 0 <= j < i ==> texts(v@)[j] != x@,
        decreases v@.len() - i,
    {
        if same(v[i].as_str(), x) {
            assert(texts(v@)[i as int] == x@);
            return true;
        }
        i += 1;
    }
    false
}

/// The same texts.
pub fn copy_texts(v: &Vec<String>) -> (r: Vec<String>)
    ensures
        texts(r@) == texts(v@),
{
    let mut out: Vec<String> = Vec::new();
    let mut i: usize = 0;
    while i < v.len()
        invariant
            i <= v@.len(),
            out@.len() == i,
            forall|j: int| 0 <= j < i ==> (#[trigger] out@[j])@ == v@[j]@,
        decreases v@.len() - i,
    {
        out.push(v[i].clone());
        i += 1;
    }
    assert(texts(out@) =~= texts(v@));
    out
}

/// The texts other than `x`, in order.
pub fn without_text(v: &Vec<String>, x: &str) -> (r: Vec<String>)
    ensures
        texts(r@) == without(texts(v@), x@),
{
    let ghost f = |m: Text| m != x@;
    let mut out: Vec<String> = Vec::new();
    let mut i: usize = 0;
    proof {
        reveal(Seq::filter);
        assert(texts(v@).take(0).filter(f) =~= texts(out@));
    }
    while i < v.len()
        invariant
            i <= v@.len(),
            f == (|m: Text| m != x@),
            texts(out@) == texts(v@).take(i as int).filter(f),
        decreases v@.len() - i,
    {
        let ghost next = texts(v@).take(i + 1);
        proof {
            reveal(Seq::filter);
            assert(next.drop_last() =~= texts(v@).take(i as int));
            assert(next.last() == v@[i as int]@);
        }
        let ghost out0 = out@;
        if !same(v[i].as_str(), x) {
            out.push(v[i].clone());
            assert(texts(out@) =~= texts(out0).push(v@[i as int]@));
        }
        i += 1;
    }
    assert(texts(v@).take(v@.len() as int) =~= texts(v@));
    out
}

/// Appends to `v` what `more` has and `v` lacks.
pub fn join_texts(v: &mut Vec<String>, more: &Vec<String>)
    ensures
        texts(final(v)@) == joined(texts(old(v)@), texts(more@)),
{
    let ghost base = texts(v@);
    let mut i: usize = 0;
    assert(joined(base, texts(more@).take(0)) =~= base);
    while i < more.len()
        invariant
            i <= more@.len(),
            texts(v@) == joined(base, texts(more@).take(i as int)),
        decreases more@.len() - i,
    {
        let ghost next = texts(more@).take(i + 1);
        let ghost v0 = v@;
        proof {
            assert(next.drop_last() =~= texts(more@).take(i as int));
            assert(next.last() == more@[i as int]@);
        }
        if !has_text(v, more[i].as_str()) {
            v.push(more[i].clone());
            assert(texts(v@) =~= texts(v0).push(more@[i as int]@));
        }
        i += 1;
    }
    assert(texts(more@).take(more@.len() as int) =~= texts(more@));
}

/// What a longer list contains.
pub proof fn lemma_pushed(s: Seq<Text>, x: Text, y: Text)
    ensures
        s.push(x).contains(y) <==> s.contains(y) || y == x,
{
    let l = s.push(x);
    assert(l[s.len() as int] == x);
    if l.contains(y) {
        let i = choose|i: int| 0 <= i < l.len() && l[i] == y;
        if i < s.len() {
            assert(s[i] == y);
        }
    }
    if s.contains(y) {
        let i = choose|i: int| 0 <= i < s.len() && s[i] == y;
        assert(l[i] == y);
    }
}

} // verus!
