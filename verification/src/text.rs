//! Text as a sequence of characters: equality, the lexical order every listing
//! uses, and small string builders.

use vstd::prelude::*;

verus! {

broadcast use vstd::string::group_string_axioms;

/// Text is modelled by its characters.
pub type Text = Seq<char>;

/// Lexical order by code point. On UTF-8 this is the order of the bytes.
pub open spec fn text_lt(a: Text, b: Text) -> bool
    decreases a.len(),
{
    if b.len() == 0 {
        false
    } else if a.len() == 0 {
        true
    } else if a[0] == b[0] {
        text_lt(a.drop_first(), b.drop_first())
    } else {
        a[0] < b[0]
    }
}

/// `a` is `b` or sorts before it.
pub open spec fn text_le(a: Text, b: Text) -> bool {
    a == b || text_lt(a, b)
}

/// Nothing sorts before itself.
pub proof fn text_lt_irreflexive(a: Text)
    ensures
        !text_lt(a, a),
    decreases a.len(),
{
    if a.len() > 0 {
        text_lt_irreflexive(a.drop_first());
    }
}

/// The order chains.
pub proof fn text_lt_transitive(a: Text, b: Text, c: Text)
    requires
        text_lt(a, b),
        text_lt(b, c),
    ensures
        text_lt(a, c),
    decreases a.len(),
{
    if a.len() > 0 && a[0] == b[0] && b[0] == c[0] {
        text_lt_transitive(a.drop_first(), b.drop_first(), c.drop_first());
    }
}

/// Two different texts are ordered one way or the other.
pub proof fn text_lt_total(a: Text, b: Text)
    ensures
        a == b || text_lt(a, b) || text_lt(b, a),
    decreases a.len(),
{
    if a.len() == 0 {
        if b.len() == 0 {
            assert(a =~= b);
        }
    } else if b.len() > 0 && a[0] == b[0] {
        text_lt_total(a.drop_first(), b.drop_first());
        if a.drop_first() == b.drop_first() {
            assert(a =~= seq![a[0]] + a.drop_first());
            assert(b =~= seq![b[0]] + b.drop_first());
        }
    }
}

/// Where one text stands relative to another.
#[derive(Debug, Clone, Copy, PartialEq, Eq, Structural)]
pub enum Rank {
    /// Sorts before.
    Below,
    /// The same text.
    Same,
    /// Sorts after.
    Above,
}

/// The rank of `a` relative to `b`.
pub open spec fn text_rank(a: Text, b: Text) -> Rank {
    if a == b {
        Rank::Same
    } else if text_lt(a, b) {
        Rank::Below
    } else {
        Rank::Above
    }
}

/// Compares two texts, character by character.
pub fn rank(a: &str, b: &str) -> (r: Rank)
    ensures
        r == text_rank(a@, b@),
{
    let mut left = a.chars();
    let mut right = b.chars();
    proof {
        text_lt_irreflexive(a@);
    }
    loop
        invariant
            text_rank(a@, b@) == text_rank(
                vstd::std_specs::iter::IteratorSpec::remaining(&left),
                vstd::std_specs::iter::IteratorSpec::remaining(&right),
            ),
            vstd::std_specs::iter::IteratorSpec::decrease(&left) is Some,
            vstd::std_specs::iter::IteratorSpec::decrease(&right) is Some,
        decreases vstd::std_specs::iter::IteratorSpec::decrease(&left)->0,
    {
        let ghost l = vstd::std_specs::iter::IteratorSpec::remaining(&left);
        let ghost r = vstd::std_specs::iter::IteratorSpec::remaining(&right);
        let x = left.next();
        let y = right.next();
        proof {
            text_lt_irreflexive(l);
        }
        match (x, y) {
            (None, None) => {
                assert(l =~= r);
                return Rank::Same;
            },
            (None, Some(_)) => {
                return Rank::Below;
            },
            (Some(_), None) => {
                return Rank::Above;
            },
            (Some(c), Some(d)) => {
                if c != d {
                    if c < d {
                        return Rank::Below;
                    }
                    return Rank::Above;
                }
                assert(l =~= seq![l[0]] + l.drop_first());
                assert(r =~= seq![r[0]] + r.drop_first());
                assert(l == r <==> l.drop_first() == r.drop_first());
            },
        }
    }
}

/// Whether two texts are the same.
pub fn same(a: &str, b: &str) -> (r: bool)
    ensures
        r == (a@ == b@),
{
    rank(a, b) == Rank::Same
}

/// Whether `a` sorts strictly before `b`.
pub fn before(a: &str, b: &str) -> (r: bool)
    ensures
        r == text_lt(a@, b@),
{
    proof {
        text_lt_irreflexive(a@);
    }
    rank(a, b) == Rank::Below
}

/// The decimal digit of a value below ten.
pub open spec fn digit(n: nat) -> char {
    (('0' as nat) + n) as char
}

/// A number in decimal, without leading zeros.
pub open spec fn decimal(n: nat) -> Text
    decreases n,
{
    if n < 10 {
        seq![digit(n)]
    } else {
        decimal(n / 10).push(digit(n % 10))
    }
}

/// The string of one decimal digit.
fn digit_str(d: u64) -> (r: &'static str)
    requires
        d < 10,
    ensures
        r@ == seq![digit(d as nat)],
{
    proof {
        reveal_strlit("0");
        reveal_strlit("1");
        reveal_strlit("2");
        reveal_strlit("3");
        reveal_strlit("4");
        reveal_strlit("5");
        reveal_strlit("6");
        reveal_strlit("7");
        reveal_strlit("8");
        reveal_strlit("9");
        assert(forall|c: char| seq![c].len() == 1 && seq![c][0] == c);
    }
    let r = match d {
        0 => "0",
        1 => "1",
        2 => "2",
        3 => "3",
        4 => "4",
        5 => "5",
        6 => "6",
        7 => "7",
        8 => "8",
        _ => "9",
    };
    assert(r@ =~= seq![digit(d as nat)]);
    r
}

/// A number in decimal.
pub fn decimal_text(n: u64) -> (r: String)
    ensures
        r@ == decimal(n as nat),
    decreases n,
{
    if n < 10 {
        return digit_str(n).to_owned();
    }
    let mut r = decimal_text(n / 10);
    let last = digit_str(n % 10);
    r.append(last);
    assert(r@ =~= decimal(n as nat / 10).push(digit(n as nat % 10)));
    r
}

/// A text followed by another.
pub fn and(mut s: String, more: &str) -> (r: String)
    ensures
        r@ == s@ + more@,
{
    s.append(more);
    s
}

/// The texts joined, in order.
pub fn concat3(a: &str, b: &str, c: &str) -> (r: String)
    ensures
        r@ == a@ + b@ + c@,
{
    let mut r = a.to_owned();
    r.append(b);
    r.append(c);
    r
}

} // verus!
