//! Paths beneath the store root, as lists of validated components: nothing that
//! was not checked reaches the filesystem.

use crate::chars::{chars_of, lemma_pieces_some, pieces, split_all};
use crate::digest::{canonical, is_lower_hex, Digest};
use crate::error::StorageError;
use crate::hashing::{hex_call, hex_text};
use crate::page::texts;
use crate::text::{and, concat3, same, Text};
use vstd::prelude::*;

verus! {

broadcast use vstd::string::group_string_axioms;

/// A name that stands for one entry of one directory: not empty, not `.` or
/// `..`, and without a separator or a zero character.
pub open spec fn is_safe(s: Text) -> bool {
    &&& s.len() > 0
    &&& s != "."@
    &&& s != ".."@
    &&& !s.contains('/')
    &&& !s.contains('\\')
    &&& !s.contains('\0')
}

/// A path component that was validated.
#[derive(Debug)]
pub struct SafeComponent<'a> {
    name: &'a str,
}

impl<'a> SafeComponent<'a> {
    #[verifier::type_invariant]
    spec fn validated(&self) -> bool {
        is_safe(self.name@)
    }

    /// The component's text.
    pub closed spec fn text(&self) -> Text {
        self.name@
    }

    /// Validates one untrusted path component.
    pub fn new(s: &'a str) -> (r: Result<SafeComponent<'a>, StorageError>)
        ensures
            r is Ok <==> is_safe(s@),
            r matches Ok(c) ==> c.text() == s@,
            r matches Err(e) ==> (e matches StorageError::BadPath(p) && p@ == s@),
    {
        let v = chars_of(s);
        if v.len() == 0 || same(s, ".") || same(s, "..") {
            return Err(StorageError::BadPath(s.to_owned()));
        }
        let mut i: usize = 0;
        while i < v.len()
            invariant
                v@ == s@,
                i <= v@.len(),
                forall|j: int|
                    #![trigger v@[j]]
                    0 <= j < i ==> v@[j] != '/' && v@[j] != '\\' && v@[j] != '\0',
            decreases v@.len() - i,
        {
            let c = v[i];
            if c == '/' || c == '\\' || c == '\0' {
                assert(s@[i as int] == c);
                return Err(StorageError::BadPath(s.to_owned()));
            }
            i += 1;
        }
        Ok(SafeComponent { name: s })
    }

    /// The component's text.
    pub fn as_str(&self) -> (r: &'a str)
        ensures
            r@ == self.text(),
            is_safe(r@),
    {
        proof {
            use_type_invariant(self);
        }
        self.name
    }
}

/// The first component that is not safe.
pub open spec fn first_unsafe(parts: Seq<Text>) -> Option<Text>
    decreases parts.len(),
{
    if parts.len() == 0 {
        None
    } else {
        match first_unsafe(parts.drop_last()) {
            Some(p) => Some(p),
            None => if is_safe(parts.last()) {
                None
            } else {
                Some(parts.last())
            },
        }
    }
}

/// Every component is safe.
pub open spec fn all_safe(parts: Seq<Text>) -> bool {
    forall|i: int| #![trigger parts[i]] 0 <= i < parts.len() ==> is_safe(parts[i])
}

/// There is no first unsafe component exactly when all are safe.
pub proof fn lemma_all_safe(parts: Seq<Text>)
    ensures
        first_unsafe(parts) is None <==> all_safe(parts),
        first_unsafe(parts) matches Some(p) ==> parts.contains(p) && !is_safe(p),
    decreases parts.len(),
{
    if parts.len() > 0 {
        let init = parts.drop_last();
        lemma_all_safe(init);
        assert forall|i: int| 0 <= i < init.len() implies init[i] == parts[i] by {}
        assert(parts.last() == parts[parts.len() - 1]);
        if all_safe(parts) {
            assert(all_safe(init));
        }
    }
}

/// The path of a repository: the parts of its name.
pub open spec fn repo_path(repo: Text) -> Seq<Text> {
    pieces(repo, '/')
}

/// The directory of a repository's blobs under one algorithm.
pub open spec fn blob_dir(repo: Text, algorithm: Text) -> Seq<Text> {
    repo_path(repo).push("blobs"@).push(algorithm)
}

/// The path of a blob.
pub open spec fn blob_path(repo: Text, d: (Text, Text)) -> Seq<Text> {
    blob_dir(repo, d.0).push(d.1)
}

/// The directory of a repository's staged uploads.
pub open spec fn upload_dir(repo: Text) -> Seq<Text> {
    repo_path(repo).push("uploads"@)
}

/// The path of a staged upload.
pub open spec fn upload_path(repo: Text, id: Text) -> Seq<Text> {
    upload_dir(repo).push(id)
}

/// The path of a repository, every component validated.
pub fn repo_rel(repo: &str) -> (r: Result<Vec<String>, StorageError>)
    ensures
        r is Ok <==> first_unsafe(repo_path(repo@)) is None,
        r matches Ok(v) ==> texts(v@) == repo_path(repo@) && all_safe(texts(v@)),
        r matches Err(e) ==> (e matches StorageError::BadPath(p) && first_unsafe(repo_path(repo@))
            == Some(p@)),
{
    let parts = split_all(repo, '/');
    let mut i: usize = 0;
    proof {
        assert(texts(parts@).take(0).len() == 0);
    }
    while i < parts.len()
        invariant
            i <= parts@.len(),
            texts(parts@) == repo_path(repo@),
            first_unsafe(texts(parts@).take(i as int)) is None,
        decreases parts@.len() - i,
    {
        let checked = SafeComponent::new(parts[i].as_str());
        proof {
            let next = texts(parts@).take(i + 1);
            assert(next.drop_last() =~= texts(parts@).take(i as int));
            assert(next.last() == parts@[i as int]@);
            lemma_first_unsafe_stays(texts(parts@), i + 1);
        }
        match checked {
            Err(e) => {
                return Err(e);
            },
            Ok(_) => {},
        }
        i += 1;
    }
    proof {
        assert(texts(parts@).take(parts@.len() as int) =~= texts(parts@));
        lemma_all_safe(texts(parts@));
    }
    Ok(parts)
}

/// More components do not change which one is the first unsafe one.
proof fn lemma_first_unsafe_stays(parts: Seq<Text>, n: int)
    requires
        0 <= n <= parts.len(),
    ensures
        first_unsafe(parts.take(n)) matches Some(p) ==> first_unsafe(parts) == Some(p),
    decreases parts.len() - n,
{
    if n < parts.len() {
        let next = parts.take(n + 1);
        assert(next.drop_last() =~= parts.take(n));
        lemma_first_unsafe_stays(parts, n + 1);
    } else {
        assert(parts.take(n) =~= parts);
    }
}

/// The digits of a digest are a safe component.
pub proof fn digits_are_safe(d: (Text, Text))
    requires
        canonical(d),
    ensures
        is_safe(d.1),
        is_safe(d.0),
{
    reveal_strlit(".");
    reveal_strlit("..");
    reveal_strlit("sha256");
    reveal_strlit("sha512");
    assert(d.1.len() >= 64);
    assert forall|i: int| 0 <= i < d.1.len() implies d.1[i] != '/' && d.1[i] != '\\' && d.1[i]
        != '\0' by {
        assert(is_lower_hex(d.1[i]));
    }
    assert(d.0.len() == 6);
}

/// The directory and the name of a blob, every component validated.
pub fn blob_dir_rel(repo: &str, d: &Digest) -> (r: Result<(Vec<String>, String), StorageError>)
    ensures
        r is Ok <==> first_unsafe(repo_path(repo@)) is None,
        r matches Ok(p) ==> texts(p.0@) == blob_dir(repo@, d@.0) && p.1@ == d@.1,
        r matches Ok(p) ==> all_safe(texts(p.0@)) && is_safe(p.1@),
        r matches Err(e) ==> (e matches StorageError::BadPath(p) && first_unsafe(repo_path(repo@))
            == Some(p@)),
{
    let mut dir = match repo_rel(repo) {
        Ok(dir) => dir,
        Err(e) => {
            return Err(e);
        },
    };
    let ghost base = texts(dir@);
    let algorithm = d.algorithm().to_owned();
    let hex = d.hex();
    proof {
        digits_are_safe(d@);
        reveal_strlit("blobs");
        reveal_strlit(".");
        reveal_strlit("..");
        assert("blobs"@.len() == 5);
        assert(forall|i: int| #![trigger "blobs"@[i]] 0 <= i < 5 ==> 'a' <= "blobs"@[i]);
        assert(is_safe("blobs"@));
    }
    dir.push("blobs".to_owned());
    assert(texts(dir@) =~= base.push("blobs"@));
    dir.push(algorithm);
    assert(texts(dir@) =~= base.push("blobs"@).push(d@.0));
    let leaf = match SafeComponent::new(hex) {
        Ok(leaf) => leaf,
        Err(e) => {
            return Err(e);
        },
    };
    Ok((dir, leaf.as_str().to_owned()))
}

/// The path of a blob, every component validated.
pub fn blob_rel(repo: &str, d: &Digest) -> (r: Result<Vec<String>, StorageError>)
    ensures
        r is Ok <==> first_unsafe(repo_path(repo@)) is None,
        r matches Ok(p) ==> texts(p@) == blob_path(repo@, d@) && all_safe(texts(p@)),
        r matches Err(e) ==> (e matches StorageError::BadPath(p) && first_unsafe(repo_path(repo@))
            == Some(p@)),
{
    match blob_dir_rel(repo, d) {
        Ok((mut dir, leaf)) => {
            let ghost base = texts(dir@);
            let ghost name = leaf@;
            dir.push(leaf);
            assert(texts(dir@) =~= base.push(name));
            Ok(dir)
        },
        Err(e) => Err(e),
    }
}

/// What an upload's path is refused for: the repository first, then the id.
pub open spec fn upload_refused(repo: Text, id: Text) -> Option<Text> {
    match first_unsafe(repo_path(repo)) {
        Some(p) => Some(p),
        None => if is_safe(id) {
            None
        } else {
            Some(id)
        },
    }
}

/// The name of the directory of staged uploads is a safe component.
proof fn lemma_uploads_is_safe()
    ensures
        is_safe("uploads"@),
{
    reveal_strlit("uploads");
    reveal_strlit(".");
    reveal_strlit("..");
    let s = "uploads"@;
    assert(s.len() == 7);
    assert forall|i: int| 0 <= i < s.len() implies s[i] != '/' && s[i] != '\\' && s[i] != '\0' by {
        assert(i == 0 || i == 1 || i == 2 || i == 3 || i == 4 || i == 5 || i == 6);
    }
}

/// The directory and the name of a staged upload, every component validated.
pub fn upload_dir_rel(repo: &str, id: &str) -> (r: Result<(Vec<String>, String), StorageError>)
    ensures
        r is Ok <==> upload_refused(repo@, id@) is None,
        r matches Ok(p) ==> texts(p.0@) == upload_dir(repo@) && p.1@ == id@,
        r matches Ok(p) ==> all_safe(texts(p.0@)) && is_safe(p.1@),
        r matches Err(e) ==> (e matches StorageError::BadPath(p) && upload_refused(repo@, id@)
            == Some(p@)),
{
    let mut dir = match repo_rel(repo) {
        Ok(dir) => dir,
        Err(e) => {
            return Err(e);
        },
    };
    let ghost base = texts(dir@);
    proof {
        lemma_uploads_is_safe();
    }
    dir.push("uploads".to_owned());
    assert(texts(dir@) =~= base.push("uploads"@));
    match SafeComponent::new(id) {
        Ok(leaf) => Ok((dir, leaf.as_str().to_owned())),
        Err(e) => Err(e),
    }
}

/// The path of a staged upload, every component validated.
pub fn upload_rel(repo: &str, id: &str) -> (r: Result<Vec<String>, StorageError>)
    ensures
        r is Ok <==> upload_refused(repo@, id@) is None,
        r matches Ok(p) ==> texts(p@) == upload_path(repo@, id@) && all_safe(texts(p@)),
        r matches Err(e) ==> (e matches StorageError::BadPath(p) && upload_refused(repo@, id@)
            == Some(p@)),
{
    match upload_dir_rel(repo, id) {
        Ok((mut dir, leaf)) => {
            let ghost base = texts(dir@);
            let ghost name = leaf@;
            dir.push(leaf);
            assert(texts(dir@) =~= base.push(name));
            Ok(dir)
        },
        Err(e) => Err(e),
    }
}

/// Names that split into the same parts are the same.
proof fn lemma_same_pieces(a: Text, b: Text, c: char)
    requires
        pieces(a, c) == pieces(b, c),
    ensures
        a == b,
    decreases a.len() + b.len(),
{
    lemma_pieces_some(a, c);
    lemma_pieces_some(b, c);
    let p = pieces(a, c);
    if a.len() == 0 && b.len() == 0 {
        assert(a =~= b);
    } else if a.len() == 0 {
        assert(a =~= Seq::<char>::empty());
        lemma_more_than_nothing(b, c);
    } else if b.len() == 0 {
        assert(b =~= Seq::<char>::empty());
        lemma_more_than_nothing(a, c);
    } else {
        let x = a.drop_last();
        let y = b.drop_last();
        lemma_pieces_some(x, c);
        lemma_pieces_some(y, c);
        assert(a =~= x.push(a.last()));
        assert(b =~= y.push(b.last()));
        if a.last() == c && b.last() == c {
            assert(pieces(x, c) =~= p.drop_last());
            assert(pieces(y, c) =~= p.drop_last());
            lemma_same_pieces(x, y, c);
        } else if a.last() == c {
            assert(p.last().len() == 0);
            assert(p.last() == pieces(y, c).last().push(b.last()));
        } else if b.last() == c {
            assert(p.last().len() == 0);
            assert(p.last() == pieces(x, c).last().push(a.last()));
        } else {
            let px = pieces(x, c);
            let py = pieces(y, c);
            assert(p.last() == px.last().push(a.last()));
            assert(p.last() == py.last().push(b.last()));
            assert(p.last().drop_last() =~= px.last());
            assert(p.last().drop_last() =~= py.last());
            assert(p.last().last() == a.last());
            assert(p.last().last() == b.last());
            assert(p.drop_last() =~= px.drop_last());
            assert(p.drop_last() =~= py.drop_last());
            assert(px =~= px.drop_last().push(px.last()));
            assert(py =~= py.drop_last().push(py.last()));
            lemma_same_pieces(x, y, c);
        }
    }
}

/// A name that is not empty does not split into one empty part.
proof fn lemma_more_than_nothing(a: Text, c: char)
    requires
        a.len() > 0,
    ensures
        pieces(a, c) != pieces(Seq::empty(), c),
{
    let x = a.drop_last();
    lemma_pieces_some(x, c);
    let nothing = pieces(Seq::<char>::empty(), c);
    assert(nothing.len() == 1 && nothing[0].len() == 0);
    let p = pieces(a, c);
    if a.last() == c {
        assert(p.len() > 1);
    } else {
        assert(p.last() == pieces(x, c).last().push(a.last()));
        assert(p.last().len() > 0);
    }
}

/// Two blobs share a path only if they are the same blob of the same repository.
pub proof fn blob_paths_are_distinct(repo: Text, d: (Text, Text), repo2: Text, d2: (Text, Text))
    requires
        blob_path(repo, d) == blob_path(repo2, d2),
    ensures
        repo == repo2,
        d == d2,
{
    let p = blob_path(repo, d);
    let n = p.len() as int;
    assert(p[n - 1] == d.1 && p[n - 1] == d2.1);
    assert(p[n - 2] == d.0 && p[n - 2] == d2.0);
    assert(p.take(n - 3) =~= repo_path(repo));
    assert(p.take(n - 3) =~= repo_path(repo2));
    lemma_same_pieces(repo, repo2, '/');
}

/// No staged upload has the path of a blob.
pub proof fn uploads_are_not_blobs(repo: Text, d: (Text, Text), repo2: Text, id: Text)
    requires
        canonical(d),
    ensures
        blob_path(repo, d) != upload_path(repo2, id),
{
    reveal_strlit("uploads");
    reveal_strlit("sha256");
    reveal_strlit("sha512");
    let p = blob_path(repo, d);
    let q = upload_path(repo2, id);
    assert(p[p.len() - 2] == d.0);
    assert(q[q.len() - 2] == "uploads"@);
    assert(d.0.len() == 6);
}

/// The name of a temporary file beside `leaf`: hidden, and told apart by random
/// bytes.
pub fn temp_name(leaf: &str, random: &[u8]) -> (r: String)
    ensures
        r@ == "."@ + leaf@ + "."@ + hex_text(random@) + ".tmp"@,
{
    and(and(concat3(".", leaf, "."), hex_call(random).as_str()), ".tmp")
}

} // verus!
