//! Strings by their characters: taking them apart and building them.

use crate::text::Text;
use vstd::prelude::*;

verus! {

broadcast use vstd::string::group_string_axioms;

/// `String::push`. Claimed: the character is appended at the end.
pub assume_specification[ String::push ](s: &mut String, c: char)
    ensures
        final(s)@ == old(s)@.push(c),
;

/// The characters of a text.
pub fn chars_of(s: &str) -> (r: Vec<char>)
    ensures
        r@ == s@,
{
    let mut out: Vec<char> = Vec::new();
    let mut it = s.chars();
    assert(out@ + vstd::std_specs::iter::IteratorSpec::remaining(&it) =~= s@);
    loop
        invariant
            out@ + vstd::std_specs::iter::IteratorSpec::remaining(&it) == s@,
            vstd::std_specs::iter::IteratorSpec::decrease(&it) is Some,
        decreases vstd::std_specs::iter::IteratorSpec::decrease(&it)->0,
    {
        let ghost before = vstd::std_specs::iter::IteratorSpec::remaining(&it);
        match it.next() {
            None => {
                assert(out@ =~= s@);
                return out;
            },
            Some(c) => {
                let ghost had = out@;
                out.push(c);
                assert(had + before =~= out@ + before.drop_first());
            },
        }
    }
}

/// The string of the characters from `from` up to `to`.
pub fn text_between(v: &Vec<char>, from: usize, to: usize) -> (r: String)
    requires
        from <= to <= v@.len(),
    ensures
        r@ == v@.subrange(from as int, to as int),
{
    let mut out = String::new();
    let mut i: usize = from;
    assert(out@ =~= v@.subrange(from as int, from as int));
    while i < to
        invariant
            from <= i <= to <= v@.len(),
            out@ == v@.subrange(from as int, i as int),
        decreases to - i,
    {
        out.push(v[i]);
        i += 1;
        assert(out@ =~= v@.subrange(from as int, i as int));
    }
    out
}

/// The first place of `c` in `s`.
pub open spec fn is_first(s: Text, c: char, i: int) -> bool {
    &&& 0 <= i < s.len()
    &&& s[i] == c
    &&& forall|j: int| #![trigger s[j]] 0 <= j < i ==> s[j] != c
}

/// What stands before and after the first `c`.
pub open spec fn split_first(s: Text, c: char) -> Option<(Text, Text)> {
    if s.contains(c) {
        let i = choose|i: int| is_first(s, c, i);
        Some((s.take(i), s.skip(i + 1)))
    } else {
        None
    }
}

/// There is one first place.
pub proof fn lemma_split_first(s: Text, c: char, i: int)
    requires
        is_first(s, c, i),
    ensures
        split_first(s, c) == Some((s.take(i), s.skip(i + 1))),
{
    assert(s.contains(c));
    let j = choose|j: int| is_first(s, c, j);
    assert(is_first(s, c, j));
    assert(s[j] == c && s[i] == c);
    assert(i == j);
}

/// Splits at the first `c`.
pub fn split_once(s: &str, c: char) -> (r: Option<(String, String)>)
    ensures
        r is Some <==> split_first(s@, c) is Some,
        r matches Some(p) ==> split_first(s@, c) == Some((p.0@, p.1@)),
{
    let v = chars_of(s);
    let mut i: usize = 0;
    while i < v.len()
        invariant
            v@ == s@,
            i <= v@.len(),
            forall|j: int| #![trigger v@[j]] 0 <= j < i ==> v@[j] != c,
        decreases v@.len() - i,
    {
        if v[i] == c {
            proof {
                assert(is_first(s@, c, i as int));
                lemma_split_first(s@, c, i as int);
                assert(s@.subrange(0, i as int) =~= s@.take(i as int));
                assert(s@.subrange(i + 1, s@.len() as int) =~= s@.skip(i + 1));
            }
            let left = text_between(&v, 0, i);
            let right = text_between(&v, i + 1, v.len());
            return Some((left, right));
        }
        i += 1;
    }
    None
}

/// The pieces of `s` between the `c`s, in order; one piece where there is no `c`.
pub open spec fn pieces(s: Text, c: char) -> Seq<Text>
    decreases s.len(),
{
    if s.len() == 0 {
        seq![s]
    } else if s.last() == c {
        pieces(s.drop_last(), c).push(Seq::empty())
    } else {
        let init = pieces(s.drop_last(), c);
        init.drop_last().push(init.last().push(s.last()))
    }
}

/// There is always a piece.
pub proof fn lemma_pieces_some(s: Text, c: char)
    ensures
        pieces(s, c).len() > 0,
    decreases s.len(),
{
    if s.len() > 0 {
        lemma_pieces_some(s.drop_last(), c);
    }
}

/// Splits at every `c`.
pub fn split_all(s: &str, c: char) -> (r: Vec<String>)
    ensures
        crate::page::texts(r@) == pieces(s@, c),
{
    let v = chars_of(s);
    let mut done: Vec<String> = Vec::new();
    let mut current = String::new();
    let mut i: usize = 0;
    proof {
        assert(v@.take(0) =~= Seq::<char>::empty());
        assert(crate::page::texts(done@).push(current@) =~= pieces(v@.take(0), c));
    }
    while i < v.len()
        invariant
            v@ == s@,
            i <= v@.len(),
            crate::page::texts(done@).push(current@) == pieces(v@.take(i as int), c),
        decreases v@.len() - i,
    {
        let ghost before = pieces(v@.take(i as int), c);
        let ghost had = crate::page::texts(done@);
        let ghost word = current@;
        proof {
            let next = v@.take(i + 1);
            assert(next.drop_last() =~= v@.take(i as int));
            assert(next.last() == v@[i as int]);
            assert(before.last() == word);
            assert(before.drop_last() =~= had);
        }
        if v[i] == c {
            done.push(current);
            current = String::new();
            proof {
                assert(crate::page::texts(done@) =~= had.push(word));
                assert(current@ =~= Seq::<char>::empty());
            }
        } else {
            current.push(v[i]);
        }
        i += 1;
        assert(crate::page::texts(done@).push(current@) =~= pieces(v@.take(i as int), c));
    }
    let ghost had = crate::page::texts(done@);
    let ghost word = current@;
    done.push(current);
    proof {
        assert(v@.take(v@.len() as int) =~= s@);
        assert(crate::page::texts(done@) =~= had.push(word));
    }
    done
}

} // verus!
