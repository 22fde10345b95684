//! What holds of texts, digests, pages and documents, over their characters, items
//! and fields.

use crate::chars::{is_first, lemma_pieces_some, lemma_split_first, pieces, split_first};
use crate::digest::{digest_parts, digest_text, digest_under, is_hex, lower};
use crate::hashing::{hex_text, sha256_bytes, sha512_bytes};
use crate::json::{Json, JsonModel, JsonNumber, JsonNumberModel, Object};
use crate::page::{is_page, left_over, seconds};
use crate::text::{decimal, digit, text_le, text_lt, text_rank, Rank, Text};
use vstd::prelude::*;

verus! {

/// `a` and `b` agree on their first `n` characters.
pub open spec fn agree(a: Text, b: Text, n: int) -> bool {
    &&& 0 <= n <= a.len()
    &&& n <= b.len()
    &&& forall|i: int| #![trigger a[i]] 0 <= i < n ==> a[i] == b[i]
}

/// The first character in which two texts differ decides their order, and a text
/// stands before every longer one that it begins.
pub proof fn first_difference_decides_the_order(a: Text, b: Text, n: int)
    requires
        agree(a, b, n),
    ensures
        n < a.len() && n < b.len() && a[n] < b[n] ==> text_lt(a, b) && !text_lt(b, a),
        n == a.len() && a.len() < b.len() ==> text_lt(a, b) && !text_lt(b, a),
        n == a.len() && a.len() == b.len() ==> !text_lt(a, b) && a == b,
    decreases n,
{
    if n > 0 {
        let x = a.drop_first();
        let y = b.drop_first();
        assert forall|i: int| #![trigger x[i]] 0 <= i < n - 1 implies x[i] == y[i] by {
            assert(a[i + 1] == b[i + 1]);
        }
        first_difference_decides_the_order(x, y, n - 1);
        assert(a[0] == b[0]);
        if n == a.len() && a.len() == b.len() {
            assert(a =~= b);
        }
    } else if a.len() == 0 && b.len() == 0 {
        assert(a =~= b);
    }
}

/// Two texts are ranked the same only when they are the same, below when the first
/// sorts before, and above otherwise.
pub proof fn rank_follows_the_order(a: Text, b: Text)
    ensures
        text_rank(a, b) == Rank::Same <==> a == b,
        text_rank(a, b) == Rank::Below <==> text_lt(a, b),
        text_rank(a, b) == Rank::Above <==> text_lt(b, a),
        text_le(a, b) <==> !text_lt(b, a),
{
    crate::text::text_lt_irreflexive(a);
    crate::text::text_lt_total(a, b);
    if text_lt(a, b) && text_lt(b, a) {
        crate::text::text_lt_transitive(a, b, a);
    }
}

/// The number that decimal digits spell.
pub open spec fn spelled(s: Text) -> int
    decreases s.len(),
{
    if s.len() == 0 {
        0
    } else {
        spelled(s.drop_last()) * 10 + (s.last() as int - '0' as int)
    }
}

/// The decimal text of a number spells it, in digits alone and without a leading
/// zero.
pub proof fn decimal_spells_the_number(n: nat)
    ensures
        spelled(decimal(n)) == n,
        decimal(n).len() > 0,
        forall|i: int|
            #![trigger decimal(n)[i]]
            0 <= i < decimal(n).len() ==> '0' <= decimal(n)[i] && decimal(n)[i] <= '9',
        n > 0 ==> decimal(n)[0] != '0',
    decreases n,
{
    if n < 10 {
        assert(decimal(n).drop_last() =~= Seq::<char>::empty());
        assert(spelled(decimal(n).drop_last()) == 0);
        assert(decimal(n).last() == digit(n));
    } else {
        decimal_spells_the_number(n / 10);
        let init = decimal(n / 10);
        let all = decimal(n);
        assert(all.drop_last() =~= init);
        assert(all.last() == digit(n % 10));
        assert forall|i: int| #![trigger all[i]] 0 <= i < all.len() implies '0' <= all[i] && all[i]
            <= '9' by {
            if i < init.len() {
                assert(all[i] == init[i]);
            }
        }
        assert(all[0] == init[0]);
    }
}

/// Different numbers have different decimal texts.
pub proof fn decimal_texts_differ(a: nat, b: nat)
    requires
        decimal(a) == decimal(b),
    ensures
        a == b,
{
    decimal_spells_the_number(a);
    decimal_spells_the_number(b);
}

/// The value of a lower-case hexadecimal digit.
pub open spec fn hex_value(c: char) -> int {
    if c <= '9' {
        c as int - '0' as int
    } else {
        c as int - 'a' as int + 10
    }
}

/// Hexadecimal text has two digits per byte, the high half first.
pub proof fn hex_text_spells_the_bytes(data: Seq<u8>, i: int)
    requires
        0 <= i < data.len(),
    ensures
        hex_text(data).len() == 2 * data.len(),
        data[i] == 16 * hex_value(hex_text(data)[2 * i]) + hex_value(hex_text(data)[2 * i + 1]),
{
    let h = data[i] as int / 16;
    let l = data[i] as int % 16;
    assert((2 * i) / 2 == i && (2 * i + 1) / 2 == i && (2 * i) % 2 == 0 && (2 * i + 1) % 2 == 1);
    assert(hex_text(data)[2 * i] == crate::hashing::hex_digit(h));
    assert(hex_text(data)[2 * i + 1] == crate::hashing::hex_digit(l));
}

/// A hexadecimal digit, in either case.
pub open spec fn some_hex(c: char) -> bool {
    '0' <= c <= '9' || 'a' <= c <= 'f' || 'A' <= c <= 'F'
}

/// The number of digits that an algorithm has.
pub open spec fn digits_of(algorithm: Text, hex: Text) -> bool {
    (algorithm == "sha256"@ && hex.len() == 64) || (algorithm == "sha512"@ && hex.len() == 128)
}

/// A digest is well formed exactly when it is a known algorithm, a colon, and as
/// many hexadecimal digits as the algorithm has; it stands for these digits in
/// lower case.
pub proof fn digest_is_an_algorithm_and_its_digits(algorithm: Text, hex: Text)
    requires
        !algorithm.contains(':'),
    ensures
        ({
            let parts = digest_parts(algorithm + seq![':'] + hex);
            &&& parts is Some <==> digits_of(algorithm, hex) && forall|i: int|
                #![trigger hex[i]]
                0 <= i < hex.len() ==> some_hex(hex[i])
            &&& parts matches Some(p) ==> p.0 == algorithm && p.1.len() == hex.len() && forall|
                i: int,
            |
                #![trigger p.1[i]]
                0 <= i < hex.len() ==> if 'A' <= hex[i] <= 'F' {
                    p.1[i] as int == hex[i] as int + 32
                } else {
                    p.1[i] == hex[i]
                }
        }),
{
    reveal_strlit("sha256");
    reveal_strlit("sha512");
    assert("sha256"@[3] == '2' && "sha512"@[3] == '5');
    let s = algorithm + seq![':'] + hex;
    let n = algorithm.len() as int;
    assert(s[n] == ':');
    assert forall|j: int| #![trigger s[j]] 0 <= j < n implies s[j] != ':' by {
        assert(s[j] == algorithm[j]);
    }
    assert(is_first(s, ':', n));
    lemma_split_first(s, ':', n);
    assert(s.take(n) =~= algorithm);
    assert(s.skip(n + 1) =~= hex);
    assert forall|i: int| #![trigger hex[i]] 0 <= i < hex.len() implies is_hex(hex[i]) == some_hex(
        hex[i],
    ) by {}
    if digest_parts(s) is Some {
        let p = digest_parts(s)->0;
        assert forall|i: int| #![trigger p.1[i]] 0 <= i < hex.len() implies if 'A' <= hex[i] <= 'F' {
            p.1[i] as int == hex[i] as int + 32
        } else {
            p.1[i] == hex[i]
        } by {
            assert(p.1[i] == lower(hex[i]));
        }
    }
}

/// A text without a colon is no digest, and a digest reads back as it is written.
pub proof fn digest_needs_a_colon(s: Text)
    ensures
        !s.contains(':') ==> digest_parts(s) is None,
        digest_parts(s) matches Some(d) ==> digest_text(d) == d.0 + seq![':'] + d.1 && digest_parts(
            digest_text(d),
        ) == Some(d),
{
    reveal_strlit(":");
    assert(":"@ =~= seq![':']);
    if digest_parts(s) is Some {
        let d = digest_parts(s)->0;
        let p = split_first(s, ':')->0;
        assert forall|i: int| #![trigger d.1[i]] 0 <= i < d.1.len() implies
            crate::digest::is_lower_hex(d.1[i]) by {
            assert(is_hex(p.1[i]));
            assert(d.1[i] == lower(p.1[i]));
        }
        crate::digest::canonical_parses_back(d);
    }
}

/// Content is named by the hash of the algorithm that is asked for: sha512 by its
/// name, and sha256 otherwise.
pub proof fn content_is_named_by_its_hash(data: Seq<u8>, algorithm: Text)
    ensures
        digest_under(data, "sha512"@) == ("sha512"@, hex_text(sha512_bytes(data))),
        algorithm != "sha512"@ ==> digest_under(data, algorithm) == (
            "sha256"@,
            hex_text(sha256_bytes(data)),
        ),
{
}

/// The first separator splits a text in what stands before and what after it.
pub proof fn split_is_at_the_first_separator(before: Text, after: Text, c: char)
    requires
        !before.contains(c),
    ensures
        split_first(before + seq![c] + after, c) == Some((before, after)),
        split_first(before, c) is None,
{
    let s = before + seq![c] + after;
    let n = before.len() as int;
    assert(s[n] == c);
    assert forall|j: int| #![trigger s[j]] 0 <= j < n implies s[j] != c by {
        assert(s[j] == before[j]);
    }
    assert(is_first(s, c, n));
    lemma_split_first(s, c, n);
    assert(s.take(n) =~= before);
    assert(s.skip(n + 1) =~= after);
}

/// Pieces put together, with a separator between each two.
pub open spec fn put_together(s: Seq<Text>, c: char) -> Text
    decreases s.len(),
{
    if s.len() == 0 {
        Seq::empty()
    } else if s.len() == 1 {
        s[0]
    } else {
        put_together(s.drop_last(), c) + seq![c] + s.last()
    }
}

/// The pieces of a text, put together, are the text, and none holds a separator.
pub proof fn pieces_make_up_the_text(s: Text, c: char)
    ensures
        put_together(pieces(s, c), c) == s,
        forall|i: int|
            #![trigger pieces(s, c)[i]]
            0 <= i < pieces(s, c).len() ==> !pieces(s, c)[i].contains(c),
    decreases s.len(),
{
    let all = pieces(s, c);
    if s.len() == 0 {
        assert(all[0] == s);
    } else {
        let init = pieces(s.drop_last(), c);
        pieces_make_up_the_text(s.drop_last(), c);
        lemma_pieces_some(s.drop_last(), c);
        assert(s =~= s.drop_last().push(s.last()));
        if s.last() == c {
            assert(all.drop_last() =~= init);
            assert(all.last() =~= Seq::<char>::empty());
            assert(put_together(all, c) =~= s.drop_last() + seq![c] + Seq::<char>::empty());
            assert forall|i: int| #![trigger all[i]] 0 <= i < all.len() implies !all[i].contains(
                c,
            ) by {
                if i < init.len() {
                    assert(all[i] == init[i]);
                }
            }
        } else {
            let word = init.last().push(s.last());
            assert(all.last() == word);
            assert(all.drop_last() =~= init.drop_last());
            if init.len() == 1 {
                assert(init[0] == init.last());
                assert(all[0] == word);
                assert(put_together(all, c) =~= s);
            } else {
                assert(put_together(all, c) =~= put_together(init.drop_last(), c) + seq![c] + word);
                assert(put_together(all, c) =~= s);
            }
            assert forall|i: int| #![trigger all[i]] 0 <= i < all.len() implies !all[i].contains(
                c,
            ) by {
                if i < init.len() - 1 {
                    assert(all[i] == init[i]);
                } else {
                    assert(!init[init.len() - 1].contains(c));
                    if word.contains(c) {
                        let j = choose|j: int| 0 <= j < word.len() && word[j] == c;
                        if j < word.len() - 1 {
                            assert(init.last()[j] == c);
                        }
                    }
                }
            }
        }
    }
}

/// A page lists keys strictly after the cursor, in order, each once, and at most
/// `limit` of them. A key after the cursor is missing only where the page is full,
/// and then it stands after everything on it; that any is missing is what `more`
/// says.
pub proof fn page_lists_the_next_keys(
    items: Seq<Text>,
    more: bool,
    keys: Set<Text>,
    last: Option<Text>,
    limit: nat,
    k: Text,
)
    requires
        is_page(items, more, keys, last, limit),
    ensures
        items.len() <= limit,
        forall|i: int, j: int|
            #![trigger items[i], items[j]]
            0 <= i < j < items.len() ==> text_lt(items[i], items[j]),
        items.contains(k) ==> keys.contains(k) && (last matches Some(l) ==> text_lt(l, k)),
        keys.contains(k) && (last matches Some(l) ==> text_lt(l, k)) ==> items.contains(k) || (more
            && items.len() == limit && forall|i: int|
            #![trigger items[i]]
            0 <= i < items.len() ==> text_lt(items[i], k)),
        more ==> exists|x: Text|
            #![trigger keys.contains(x)]
            keys.contains(x) && (last matches Some(l) ==> text_lt(l, x)) && !items.contains(x),
{
    if keys.contains(k) && (last matches Some(l) ==> text_lt(l, k)) && !items.contains(k) {
        assert(left_over(k, items, keys, last));
    }
    if more {
        let x = choose|x: Text| left_over(x, items, keys, last);
        assert(keys.contains(x));
    }
}

/// The second parts of some pairs are those with the wanted first part.
pub proof fn seconds_are_those_of_the_first(keys: Set<(Text, Text)>, first: Text, second: Text)
    ensures
        seconds(keys, first).contains(second) <==> keys.contains((first, second)),
{
}

/// A field of a document is that of the object it is, and nothing else has fields;
/// a string field is read only where it is a string.
pub proof fn documents_are_read_by_their_fields(
    m: Map<Text, JsonModel>,
    v: JsonModel,
    name: Text,
    t: Text,
)
    ensures
        JsonModel::Object(m).field(name) == Some(v) <==> m.contains_key(name) && m[name] == v,
        JsonModel::Object(m).field(name) is None <==> !m.contains_key(name),
        !(v is Object) ==> v.field(name) is None && v.object() is None,
        JsonModel::Object(m).object() == Some(m),
        JsonModel::Object(m).text_field(name) == Some(t) <==> m.contains_key(name) && m[name]
            == JsonModel::Text(t),
        v.text() == Some(t) <==> v == JsonModel::Text(t),
        !(v is Text) ==> v.text() is None,
        !(v is List) ==> v.list() is None,
        v matches JsonModel::List(s) ==> v.list() == Some(s),
        v matches JsonModel::Number(JsonNumberModel::Natural(n)) ==> v.natural() == Some(n),
        !(v matches JsonModel::Number(JsonNumberModel::Natural(_))) ==> v.natural() is None,
{
}

/// A document stands for what it holds.
pub proof fn documents_stand_for_what_they_hold(
    s: String,
    n: u64,
    i: i64,
    b: bool,
    items: Vec<Json>,
    o: Object,
    at: int,
)
    ensures
        Json::Null.model() == JsonModel::Null,
        Json::Bool(b).model() == JsonModel::Bool(b),
        Json::Text(s).model() == JsonModel::Text(s@),
        Json::Number(JsonNumber::Natural(n)).model() == JsonModel::Number(
            JsonNumberModel::Natural(n),
        ),
        Json::Number(JsonNumber::Negative(i)).model() == JsonModel::Number(
            JsonNumberModel::Negative(i),
        ),
        Json::Number(JsonNumber::Other(s)).model() == JsonModel::Number(
            JsonNumberModel::Other(s@),
        ),
        Json::Object(o).model() == JsonModel::Object(o.model()),
        Json::List(items).model() matches JsonModel::List(l) && l.len() == items@.len() && (0 <= at
            < items@.len() ==> l[at] == items@[at].model()),
{
    Json::lemma_list(items);
}

/// A plain document is one of texts, truth values and integers, and of lists and
/// objects of plain documents that nest less deep.
pub proof fn plain_documents_hold_plain_documents(
    v: JsonModel,
    depth: nat,
    i: int,
    k: Text,
    n: i64,
    t: Text,
)
    ensures
        v.plain(depth) ==> (v matches JsonModel::List(s) ==> depth > 0 && (0 <= i < s.len()
            ==> s[i].plain((depth - 1) as nat))),
        v.plain(depth) ==> (v matches JsonModel::Object(m) ==> depth > 0 && (m.contains_key(k)
            ==> m[k].plain((depth - 1) as nat))),
        !JsonModel::Number(JsonNumberModel::Other(t)).plain(depth),
        n >= 0 ==> !JsonModel::Number(JsonNumberModel::Negative(n)).plain(depth),
{
}

} // verus!
