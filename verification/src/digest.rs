//! Content digests: `algorithm:hex`.

use crate::chars::{chars_of, is_first, lemma_split_first, split_first, split_once};
use crate::error::StorageError;
use crate::hashing::{
    fed_to_sha256, fed_to_sha512, hex_call, hex_digit, hex_text, sha256_bytes, sha256_call,
    sha256_end, sha512_bytes, sha512_call, sha512_end, RunningSha256, RunningSha512, SHA256_ROOM,
};
use crate::text::{concat3, same, Text};
use vstd::prelude::*;

verus! {

broadcast use vstd::string::group_string_axioms;

/// A hexadecimal digit of either case.
pub open spec fn is_hex(c: char) -> bool {
    ('0' <= c && c <= '9') || ('a' <= c && c <= 'f') || ('A' <= c && c <= 'F')
}

/// A hexadecimal digit in lower case.
pub open spec fn is_lower_hex(c: char) -> bool {
    ('0' <= c && c <= '9') || ('a' <= c && c <= 'f')
}

/// A hexadecimal digit in lower case; anything else as it is.
pub open spec fn lower(c: char) -> char {
    if c == 'A' {
        'a'
    } else if c == 'B' {
        'b'
    } else if c == 'C' {
        'c'
    } else if c == 'D' {
        'd'
    } else if c == 'E' {
        'e'
    } else if c == 'F' {
        'f'
    } else {
        c
    }
}

/// A hexadecimal text in lower case.
pub open spec fn lowered(s: Text) -> Text {
    Seq::new(s.len(), |i: int| lower(s[i]))
}

/// How many digits an algorithm has; only the registered ones have any.
pub open spec fn hex_len(algorithm: Text) -> Option<nat> {
    if algorithm == "sha256"@ {
        Some(64)
    } else if algorithm == "sha512"@ {
        Some(128)
    } else {
        None
    }
}

/// The algorithm and lower-case digits of a well-formed digest.
pub open spec fn digest_parts(s: Text) -> Option<(Text, Text)> {
    match split_first(s, ':') {
        Some(p) => if hex_len(p.0) == Some(p.1.len()) && (forall|i: int|
            #![trigger p.1[i]]
            0 <= i < p.1.len() ==> is_hex(p.1[i])) {
            Some((p.0, lowered(p.1)))
        } else {
            None
        },
        None => None,
    }
}

/// How a digest is written.
pub open spec fn digest_text(d: (Text, Text)) -> Text {
    d.0 + ":"@ + d.1
}

/// A registered algorithm with as many lower-case digits as it has.
pub open spec fn canonical(d: (Text, Text)) -> bool {
    &&& hex_len(d.0) == Some(d.1.len())
    &&& forall|i: int| #![trigger d.1[i]] 0 <= i < d.1.len() ==> is_lower_hex(d.1[i])
}

/// A parsed content digest.
#[derive(Debug, PartialEq, Eq, Hash)]
pub struct Digest {
    algorithm: String,
    hex: String,
}

impl View for Digest {
    type V = (Text, Text);

    /// The algorithm and the digits.
    closed spec fn view(&self) -> (Text, Text) {
        (self.algorithm@, self.hex@)
    }
}

impl Clone for Digest {
    fn clone(&self) -> (r: Digest)
        ensures
            r@ == self@,
    {
        proof {
            use_type_invariant(self);
        }
        Digest { algorithm: self.algorithm.clone(), hex: self.hex.clone() }
    }
}

impl Digest {
    #[verifier::type_invariant]
    spec fn well_formed(&self) -> bool {
        canonical(self@)
    }

    /// Parses a digest. Only sha256 and sha512 are accepted.
    pub fn parse(s: &str) -> (r: Result<Digest, StorageError>)
        ensures
            r is Ok <==> digest_parts(s@) is Some,
            r matches Ok(d) ==> digest_parts(s@) == Some(d@) && canonical(d@),
            r matches Err(e) ==> (e matches StorageError::BadDigest(t) && t@ == s@),
    {
        let (algorithm, hex) = match split_once(s, ':') {
            Some(p) => p,
            None => {
                return Err(StorageError::BadDigest(s.to_owned()));
            },
        };
        let want: usize = if same(algorithm.as_str(), "sha256") {
            64
        } else if same(algorithm.as_str(), "sha512") {
            128
        } else {
            return Err(StorageError::BadDigest(s.to_owned()));
        };
        let digits = chars_of(hex.as_str());
        if digits.len() != want {
            return Err(StorageError::BadDigest(s.to_owned()));
        }
        let mut out = String::new();
        let mut i: usize = 0;
        while i < digits.len()
            invariant
                digits@ == hex@,
                split_first(s@, ':') == Some((algorithm@, hex@)),
                i <= digits@.len(),
                out@.len() == i,
                forall|j: int| #![trigger digits@[j]] 0 <= j < i ==> is_hex(digits@[j]),
                forall|j: int|
                    #![trigger out@[j]]
                    0 <= j < i ==> out@[j] == lower(digits@[j]) && is_lower_hex(out@[j]),
            decreases digits@.len() - i,
        {
            match lower_hex(digits[i]) {
                Some(c) => {
                    out.push(c);
                },
                None => {
                    proof {
                        assert(!is_hex(hex@[i as int]));
                    }
                    return Err(StorageError::BadDigest(s.to_owned()));
                },
            }
            i += 1;
        }
        proof {
            assert(out@ =~= lowered(hex@));
            assert(canonical((algorithm@, out@)));
        }
        Ok(Digest { algorithm, hex: out })
    }

    /// The canonical `algorithm:hex` string.
    pub fn as_string(&self) -> (r: String)
        ensures
            r@ == digest_text(self@),
            digest_parts(r@) == Some(self@),
    {
        proof {
            use_type_invariant(self);
            canonical_parses_back(self@);
        }
        concat3(self.algorithm.as_str(), ":", self.hex.as_str())
    }

    /// The digits.
    pub fn hex(&self) -> (r: &str)
        ensures
            r@ == self@.1,
            canonical(self@),
    {
        proof {
            use_type_invariant(self);
        }
        self.hex.as_str()
    }

    /// The algorithm, `sha256` or `sha512`.
    pub fn algorithm(&self) -> (r: &str)
        ensures
            r@ == self@.0,
            canonical(self@),
    {
        proof {
            use_type_invariant(self);
        }
        self.algorithm.as_str()
    }

    /// Whether two digests are the same: every digit is looked at, whatever the
    /// ones before it gave.
    pub fn ct_eq(&self, other: &Digest) -> (r: bool)
        ensures
            r == (self@ == other@),
    {
        let a = chars_of(self.hex.as_str());
        let b = chars_of(other.hex.as_str());
        if !same(self.algorithm.as_str(), other.algorithm.as_str()) || a.len() != b.len() {
            return false;
        }
        let mut diff: u32 = 0;
        let mut i: usize = 0;
        while i < a.len()
            invariant
                a@.len() == b@.len(),
                i <= a@.len(),
                diff == 0 <==> forall|j: int| #![trigger a@[j]] 0 <= j < i ==> a@[j] == b@[j],
            decreases a@.len() - i,
        {
            let x: u32 = a[i] as u32;
            let y: u32 = b[i] as u32;
            assert((diff | (x ^ y)) == 0 <==> diff == 0 && x == y) by (bit_vector);
            diff = diff | (x ^ y);
            i += 1;
            assert(diff == 0 <==> forall|j: int| #![trigger a@[j]] 0 <= j < i ==> a@[j] == b@[j]) by {
                let last = i - 1;
                lemma_same_code(a@[last], b@[last]);
            }
        }
        proof {
            if diff == 0 {
                assert(a@ =~= b@);
            }
        }
        diff == 0
    }
}

/// Characters are the same when their codes are.
proof fn lemma_same_code(a: char, b: char)
    ensures
        a == b <==> a as u32 == b as u32,
{
}

/// A hexadecimal digit in lower case, if it is one.
fn lower_hex(c: char) -> (r: Option<char>)
    ensures
        r is Some <==> is_hex(c),
        r matches Some(l) ==> l == lower(c) && is_lower_hex(l),
{
    if '0' <= c && c <= '9' {
        return Some(c);
    }
    if 'a' <= c && c <= 'f' {
        return Some(c);
    }
    match c {
        'A' => Some('a'),
        'B' => Some('b'),
        'C' => Some('c'),
        'D' => Some('d'),
        'E' => Some('e'),
        'F' => Some('f'),
        _ => None,
    }
}

/// A canonical digest, written out and parsed, is itself.
pub proof fn canonical_parses_back(d: (Text, Text))
    requires
        canonical(d),
    ensures
        digest_parts(digest_text(d)) == Some(d),
{
    reveal_strlit(":");
    reveal_strlit("sha256");
    reveal_strlit("sha512");
    let s = digest_text(d);
    let n = d.0.len() as int;
    assert(s[n] == ':');
    assert forall|j: int| #![trigger s[j]] 0 <= j < n implies s[j] != ':' by {
        assert(s[j] == d.0[j]);
    }
    assert(is_first(s, ':', n));
    lemma_split_first(s, ':', n);
    assert(s.take(n) =~= d.0);
    assert(s.skip(n + 1) =~= d.1);
    assert(lowered(d.1) =~= d.1) by {
        assert forall|i: int| 0 <= i < d.1.len() implies lower(d.1[i]) == d.1[i] by {
            assert(is_lower_hex(d.1[i]));
        }
    }
    assert forall|i: int| #![trigger d.1[i]] 0 <= i < d.1.len() implies is_hex(d.1[i]) by {}
}

/// Hexadecimal encoding gives lower-case digits, two per byte.
pub proof fn hex_text_is_lower(data: Seq<u8>)
    ensures
        hex_text(data).len() == 2 * data.len(),
        forall|i: int|
            #![trigger hex_text(data)[i]]
            0 <= i < hex_text(data).len() ==> is_lower_hex(hex_text(data)[i]),
{
    let s = hex_text(data);
    assert forall|i: int| #![trigger s[i]] 0 <= i < s.len() implies is_lower_hex(s[i]) by {
        let n = if i % 2 == 0 {
            data[i / 2] as int / 16
        } else {
            data[i / 2] as int % 16
        };
        assert(0 <= n < 16);
        assert(s[i] == hex_digit(n));
    }
}

/// The digest with a sha256 hash.
fn sha256_digest(hash: &[u8]) -> (r: Digest)
    requires
        hash@.len() == 32,
    ensures
        r@ == ("sha256"@, hex_text(hash@)),
{
    proof {
        hex_text_is_lower(hash@);
    }
    Digest { algorithm: "sha256".to_owned(), hex: hex_call(hash) }
}

/// The digest with a sha512 hash.
fn sha512_digest(hash: &[u8]) -> (r: Digest)
    requires
        hash@.len() == 64,
    ensures
        r@ == ("sha512"@, hex_text(hash@)),
{
    proof {
        hex_text_is_lower(hash@);
        reveal_strlit("sha256");
        reveal_strlit("sha512");
        assert("sha256"@[3] != "sha512"@[3]);
    }
    Digest { algorithm: "sha512".to_owned(), hex: hex_call(hash) }
}

/// The sha256 digest of everything that a hash was fed.
pub(crate) fn finish_sha256(h: RunningSha256) -> (r: Digest)
    requires
        fed_to_sha256(h).len() <= SHA256_ROOM,
    ensures
        r@ == ("sha256"@, hex_text(sha256_bytes(fed_to_sha256(h)))),
{
    let hash = sha256_end(h);
    sha256_digest(hash.as_slice())
}

/// The sha512 digest of everything that a hash was fed.
pub(crate) fn finish_sha512(h: RunningSha512) -> (r: Digest)
    requires
        fed_to_sha512(h).len() <= u64::MAX,
    ensures
        r@ == ("sha512"@, hex_text(sha512_bytes(fed_to_sha512(h)))),
{
    let hash = sha512_end(h);
    sha512_digest(hash.as_slice())
}

/// The sha256 digest of `data`.
pub fn sha256_of(data: &[u8]) -> (r: Digest)
    ensures
        r@ == ("sha256"@, hex_text(sha256_bytes(data@))),
{
    let hash = sha256_call(data);
    sha256_digest(hash.as_slice())
}

/// What `data` hashes to under an algorithm: sha512 by name, sha256 otherwise.
pub open spec fn digest_under(data: Seq<u8>, algorithm: Text) -> (Text, Text) {
    if algorithm == "sha512"@ {
        ("sha512"@, hex_text(sha512_bytes(data)))
    } else {
        ("sha256"@, hex_text(sha256_bytes(data)))
    }
}

/// The digest of `data` under an algorithm.
pub fn digest_of(data: &[u8], algorithm: &str) -> (r: Digest)
    ensures
        r@ == digest_under(data@, algorithm@),
{
    if same(algorithm, "sha512") {
        let hash = sha512_call(data);
        sha512_digest(hash.as_slice())
    } else {
        sha256_of(data)
    }
}

} // verus!
