//! What a sweep collects, what a rebuild finds, and where blobs lie, over tables,
//! documents and the text of paths.

use crate::basic_laws::{pieces_make_up_the_text, put_together};
use crate::chars::{lemma_pieces_some, pieces};
use crate::digest::{digest_parts, digest_text};
use crate::fs_storage::gc::{
    children_in, edges_op, hides, is_garbage, is_settled, missing_edges, rebuild_finds_what_follows,
    roots_of, unrecorded, GcRebuild,
};
use crate::fs_storage::index::{readable, FileRead};
use crate::fs_storage::lifecycle::{
    checksum_op, gc_entered, located, removal_op, unlocated, unreferenced,
};
use crate::fs_storage::manifests::{keys_in, orphaned, references_in};
use crate::fs_storage::paths::{
    all_safe, blob_dir, blob_path, first_unsafe, is_safe, lemma_all_safe, repo_path, upload_dir,
    upload_path, upload_refused,
};
use crate::gc::{due_at, GcModel};
use crate::json::{parsed, JsonModel};
use crate::layout::reference_laws::{
    in_manifest, lists, manifest_references_what_it_names, says,
};
use crate::layout::{manifests_in, references_of};
use crate::metadata::model::{backrefs_at, Op, Tables};
use crate::metadata::BlobChecksum;
use crate::text::Text;
use vstd::prelude::*;

verus! {

/// A name is safe unless it is empty, `.` or `..`, or holds a separator or a zero
/// character.
pub proof fn unsafe_names_are_told(s: Text, i: int)
    ensures
        s.len() == 0 ==> !is_safe(s),
        !is_safe(seq!['.']),
        !is_safe(seq!['.', '.']),
        0 <= i < s.len() && (s[i] == '/' || s[i] == '\\' || s[i] == '\0') ==> !is_safe(s),
        s.len() > 0 && s != seq!['.'] && s != seq!['.', '.'] && (forall|j: int|
            #![trigger s[j]]
            0 <= j < s.len() ==> s[j] != '/' && s[j] != '\\' && s[j] != '\0') ==> is_safe(s),
{
    reveal_strlit(".");
    reveal_strlit("..");
    assert("."@ =~= seq!['.']);
    assert(".."@ =~= seq!['.', '.']);
}

/// Of the components of a path the first that is not safe is told, and none where
/// all are.
pub proof fn first_unsafe_component_is_told(parts: Seq<Text>, i: int)
    ensures
        (forall|j: int| #![trigger parts[j]] 0 <= j < parts.len() ==> is_safe(parts[j]))
            <==> first_unsafe(parts) is None,
        0 <= i < parts.len() && !is_safe(parts[i]) && (forall|j: int|
            #![trigger parts[j]]
            0 <= j < i ==> is_safe(parts[j])) ==> first_unsafe(parts) == Some(parts[i]),
    decreases parts.len(),
{
    lemma_all_safe(parts);
    if parts.len() > 0 {
        let init = parts.drop_last();
        first_unsafe_component_is_told(init, i);
        lemma_all_safe(init);
        assert forall|j: int| #![trigger init[j]] 0 <= j < init.len() implies init[j] == parts[j] by {}
        if i == parts.len() - 1 && (forall|j: int|
            #![trigger parts[j]]
            0 <= j < i ==> is_safe(parts[j])) {
            assert(all_safe(init));
        }
        if 0 <= i < init.len() {
            assert(init[i] == parts[i]);
        }
    }
}

/// One component more is put behind a separator.
proof fn lemma_put_more(s: Seq<Text>, x: Text, c: char)
    requires
        s.len() > 0,
    ensures
        put_together(s.push(x), c) == put_together(s, c) + seq![c] + x,
{
    assert(s.push(x).drop_last() =~= s);
}

/// The path of a blob is that of its repository, `blobs`, the algorithm and the
/// digits; that of a staged upload is that of its repository, `uploads` and its id.
pub proof fn paths_are_written_out(repo: Text, d: (Text, Text), id: Text)
    ensures
        put_together(repo_path(repo), '/') == repo,
        put_together(blob_dir(repo, d.0), '/') == repo + "/blobs/"@ + d.0,
        put_together(blob_path(repo, d), '/') == repo + "/blobs/"@ + d.0 + "/"@ + d.1,
        put_together(upload_dir(repo), '/') == repo + "/uploads"@,
        put_together(upload_path(repo, id), '/') == repo + "/uploads/"@ + id,
{
    reveal_strlit("/blobs/");
    reveal_strlit("/uploads");
    reveal_strlit("/uploads/");
    reveal_strlit("blobs");
    reveal_strlit("uploads");
    reveal_strlit("/");
    pieces_make_up_the_text(repo, '/');
    lemma_pieces_some(repo, '/');
    let p = repo_path(repo);
    lemma_put_more(p, "blobs"@, '/');
    lemma_put_more(p.push("blobs"@), d.0, '/');
    lemma_put_more(p.push("blobs"@).push(d.0), d.1, '/');
    lemma_put_more(p, "uploads"@, '/');
    lemma_put_more(p.push("uploads"@), id, '/');
    assert(seq!['/'] + "blobs"@ + seq!['/'] =~= "/blobs/"@);
    assert(seq!['/'] + "uploads"@ =~= "/uploads"@);
    assert(seq!['/'] + "uploads"@ + seq!['/'] =~= "/uploads/"@);
    assert("/"@ =~= seq!['/']);
    assert(put_together(blob_dir(repo, d.0), '/') =~= repo + "/blobs/"@ + d.0);
    assert(put_together(blob_path(repo, d), '/') =~= repo + "/blobs/"@ + d.0 + "/"@ + d.1);
    assert(put_together(upload_dir(repo), '/') =~= repo + "/uploads"@);
    assert(put_together(upload_path(repo, id), '/') =~= repo + "/uploads/"@ + id);
}

/// An upload is refused for the first unsafe part of its repository's name, or else
/// for its id.
pub proof fn upload_is_refused_for_its_path(repo: Text, id: Text, i: int)
    ensures
        ({
            let parts = pieces(repo, '/');
            let safe = forall|j: int| #![trigger parts[j]] 0 <= j < parts.len() ==> is_safe(parts[j]);
            &&& safe && is_safe(id) ==> upload_refused(repo, id) is None
            &&& safe && !is_safe(id) ==> upload_refused(repo, id) == Some(id)
            &&& 0 <= i < parts.len() && !is_safe(parts[i]) && (forall|j: int|
                #![trigger parts[j]]
                0 <= j < i ==> is_safe(parts[j])) ==> upload_refused(repo, id) == Some(parts[i])
        }),
{
    first_unsafe_component_is_told(pieces(repo, '/'), i);
}

/// A repository's name can be a path.
pub open spec fn has_path(repo: Text) -> bool {
    forall|j: int|
        #![trigger pieces(repo, '/')[j]]
        0 <= j < pieces(repo, '/').len() ==> is_safe(pieces(repo, '/')[j])
}

/// Nothing refers to a blob: no manifest of its repository lists it, and it is no
/// manifest on record.
pub open spec fn nothing_refers_to(t: Tables, k: (Text, Text)) -> bool {
    (forall|m: Text| !#[trigger] backrefs_at(t.backrefs, k).contains(m))
        && !t.media_types.contains_key(k)
}

/// A blob is unreferenced exactly when nothing refers to it.
pub proof fn unreferenced_means_nothing_refers(t: Tables, repo: Text, d: Text)
    ensures
        unreferenced(t, repo, d) <==> nothing_refers_to(t, (repo, d)),
{
    let s = backrefs_at(t.backrefs, (repo, d));
    if s.len() > 0 {
        assert(s.contains(s[0]));
    }
}

/// A candidate that nothing refers to, that is no root and whose repository may be
/// swept is collected once its whole grace period has passed, at whatever later
/// time; and nothing is collected of which one of these does not hold.
pub proof fn dead_blob_is_collected(m: GcModel, t: Tables, k: (Text, Text), now: u64)
    ensures
        is_garbage(m, t, k, now) <==> {
            &&& m.candidates.contains_key(k)
            &&& m.delay == 0 || now >= m.candidates[k] + m.delay
            &&& !m.roots.contains(k)
            &&& !m.unsafe_repos.contains(k.0)
            &&& nothing_refers_to(t, k)
            &&& digest_parts(k.1) is Some
            &&& has_path(k.0)
        },
{
    unreferenced_means_nothing_refers(t, k.0, k.1);
    first_unsafe_component_is_told(pieces(k.0, '/'), 0);
}

/// What is garbage at some time is garbage at every later time, as long as nothing
/// changes.
pub proof fn garbage_stays_garbage(m: GcModel, t: Tables, k: (Text, Text), now: u64, later: u64)
    requires
        is_garbage(m, t, k, now),
        now <= later,
    ensures
        is_garbage(m, t, k, later),
{
}

/// A candidate is settled when it is a root, or when its repository may be swept
/// and something refers to it or it has no path. One that is garbage is not.
pub proof fn settled_candidate_is_not_collected(m: GcModel, t: Tables, k: (Text, Text), now: u64)
    ensures
        m.roots.contains(k) ==> is_settled(m, t, k),
        !m.unsafe_repos.contains(k.0) && !nothing_refers_to(t, k) ==> is_settled(m, t, k),
        !m.unsafe_repos.contains(k.0) && (digest_parts(k.1) is None || !has_path(k.0))
            ==> is_settled(m, t, k),
        m.unsafe_repos.contains(k.0) && !m.roots.contains(k) ==> !is_settled(m, t, k),
        is_garbage(m, t, k, now) ==> !is_settled(m, t, k),
        due_at(m, k, now) && !is_garbage(m, t, k, now) && !m.unsafe_repos.contains(k.0)
            ==> is_settled(m, t, k),
{
    unreferenced_means_nothing_refers(t, k.0, k.1);
    first_unsafe_component_is_told(pieces(k.0, '/'), 0);
}

/// The children of a manifest are the digests of what its `manifests` list holds,
/// where its bytes are read at all.
pub proof fn children_are_those_listed(bytes: Seq<u8>, c: Text)
    ensures
        children_in(bytes).contains(c) <==> bytes.len() <= 4194304 && (parsed(bytes) matches Some(v)
            && exists|e: JsonModel| #[trigger]
            lists(v, "manifests"@, e) && says(e, "digest"@, c)),
{
    if let Some(v) = parsed(bytes) {
        let entries = manifests_in(v);
        if children_in(bytes).contains(c) {
            let i = choose|i: int|
                #![trigger entries[i]]
                0 <= i < entries.len() && crate::layout::digest_of(entries[i]) == Some(c);
            assert(entries.contains(entries[i]));
            assert(lists(v, "manifests"@, entries[i]));
        }
        if exists|e: JsonModel| #[trigger] lists(v, "manifests"@, e) && says(e, "digest"@, c) {
            let e = choose|e: JsonModel| #[trigger]
                lists(v, "manifests"@, e) && says(e, "digest"@, c);
            let i = choose|i: int| 0 <= i < entries.len() && entries[i] == e;
            assert(crate::layout::digest_of(entries[i]) == Some(c));
        }
    }
}

/// What a manifest's bytes reference, written out: the config, each layer, each
/// child and the subject, as far as their digests are well formed.
pub proof fn references_are_those_named(bytes: Seq<u8>, x: Text)
    ensures
        references_in(bytes).contains(x) <==> (parsed(bytes) matches Some(v) && exists|
            d: JsonModel,
            t: Text,
        |
            #![trigger says(d, "digest"@, t)]
            in_manifest(v, d) && says(d, "digest"@, t) && (digest_parts(t) matches Some(k) && x
                == k.0 + ":"@ + k.1)),
{
    if let Some(v) = parsed(bytes) {
        let refs = references_of(v);
        let all = references_in(bytes);
        if all.contains(x) {
            let i = choose|i: int| 0 <= i < all.len() && all[i] == x;
            let k = refs[i];
            assert(refs.contains(k));
            manifest_references_what_it_names(v, k);
            let (d, t) = choose|d: JsonModel, t: Text|
                #![trigger says(d, "digest"@, t)]
                in_manifest(v, d) && says(d, "digest"@, t) && digest_parts(t) == Some(k);
            assert(x == digest_text(k));
            assert(says(d, "digest"@, t));
        }
        if exists|d: JsonModel, t: Text|
            #![trigger says(d, "digest"@, t)]
            in_manifest(v, d) && says(d, "digest"@, t) && (digest_parts(t) matches Some(k) && x
                == k.0 + ":"@ + k.1) {
            let (d, t) = choose|d: JsonModel, t: Text|
                #![trigger says(d, "digest"@, t)]
                in_manifest(v, d) && says(d, "digest"@, t) && (digest_parts(t) matches Some(k) && x
                    == k.0 + ":"@ + k.1);
            let k = digest_parts(t)->0;
            manifest_references_what_it_names(v, k);
            let i = choose|i: int| 0 <= i < refs.len() && refs[i] == k;
            assert(all[i] == x);
        }
    }
}

/// The roots of a repository are its manifests on record and what its index lists.
pub proof fn roots_are_on_record_or_listed(
    t: Tables,
    repo: Text,
    index: Option<JsonModel>,
    d: Text,
)
    ensures
        roots_of(t, repo, index).contains(d) <==> t.media_types.contains_key((repo, d)) || (index
            matches Some(v) && exists|e: JsonModel| #[trigger]
            lists(v, "manifests"@, e) && says(e, "digest"@, d)),
{
    if let Some(v) = index {
        let entries = manifests_in(v);
        if crate::fs_storage::gc::child_digests(entries).contains(d) {
            let i = choose|i: int|
                #![trigger entries[i]]
                0 <= i < entries.len() && crate::layout::digest_of(entries[i]) == Some(d);
            assert(entries.contains(entries[i]));
            assert(lists(v, "manifests"@, entries[i]));
        }
        if exists|e: JsonModel| #[trigger] lists(v, "manifests"@, e) && says(e, "digest"@, d) {
            let e = choose|e: JsonModel| #[trigger]
                lists(v, "manifests"@, e) && says(e, "digest"@, d);
            let i = choose|i: int| 0 <= i < entries.len() && entries[i] == e;
            assert(crate::layout::digest_of(entries[i]) == Some(d));
        }
    }
}

/// An index that is there and cannot be read hides what it lists; one that is not
/// there, or is read, hides nothing.
pub proof fn unreadable_index_hides_what_it_lists(read: FileRead)
    ensures
        read is Missing ==> !hides(read) && readable(read) is None,
        read is Failed ==> hides(read) && readable(read) is None,
        read matches FileRead::Bytes(b) ==> (hides(read) <==> parsed(b@) is None) && readable(read)
            == parsed(b@),
{
}

/// The edges that are missing are those to what is referenced and does not list the
/// manifest yet; they are what is recorded, and nothing is where none is missing.
pub proof fn missing_edges_are_recorded(
    t: Tables,
    repo: Text,
    manifest: Text,
    bytes: Seq<u8>,
    x: Text,
)
    ensures
        missing_edges(t, repo, manifest, references_in(bytes)).contains(x) <==> references_in(
            bytes,
        ).contains(x) && !backrefs_at(t.backrefs, (repo, x)).contains(manifest),
        bytes.len() <= 4194304 && references_in(bytes).contains(x) && !backrefs_at(
            t.backrefs,
            (repo, x),
        ).contains(manifest) ==> (edges_op(t, repo, manifest, bytes) matches Some(
            Op::PutBackrefs { repo: r, manifest: m, blobs },
        ) && r == repo && m == manifest && blobs.contains(x)),
        edges_op(t, repo, manifest, bytes) matches Some(op) ==> (op matches Op::PutBackrefs {
            repo: r,
            manifest: m,
            blobs,
        } && r == repo && m == manifest && (blobs.contains(x) ==> references_in(bytes).contains(x)
            && !backrefs_at(t.backrefs, (repo, x)).contains(manifest))),
        bytes.len() > 4194304 || parsed(bytes) is None ==> edges_op(t, repo, manifest, bytes)
            is None,
{
    lemma_missing(t, repo, manifest, references_in(bytes), x);
}

/// Which edges are missing.
proof fn lemma_missing(t: Tables, repo: Text, manifest: Text, refs: Seq<Text>, x: Text)
    ensures
        missing_edges(t, repo, manifest, refs).contains(x) <==> refs.contains(x) && !backrefs_at(
            t.backrefs,
            (repo, x),
        ).contains(manifest),
    decreases refs.len(),
{
    if refs.len() > 0 {
        let init = refs.drop_last();
        lemma_missing(t, repo, manifest, init, x);
        assert(refs =~= init.push(refs.last()));
        crate::lists::lemma_pushed(init, refs.last(), x);
        crate::lists::lemma_pushed(
            missing_edges(t, repo, manifest, init),
            refs.last(),
            x,
        );
    }
}

/// The manifests that a rebuild found and that are not on record, and the keys of
/// some blobs of one repository.
pub proof fn found_manifests_are_told_apart(
    t: Tables,
    repo: Text,
    found: Set<Text>,
    s: Seq<Text>,
    k: (Text, Text),
)
    ensures
        unrecorded(t, repo, found).contains(k) <==> k.0 == repo && found.contains(k.1)
            && !t.media_types.contains_key(k),
        keys_in(repo, s).contains(k) <==> k.0 == repo && s.contains(k.1),
{
}

/// Once a manifest is gone, a blob that it referenced is an orphan when no manifest
/// lists it any more and it may be stored; a blob that another manifest lists never
/// is.
pub proof fn orphans_are_listed_by_nobody(
    t: Tables,
    held: spec_fn(Text) -> bool,
    repo: Text,
    refs: Seq<Text>,
    k: (Text, Text),
)
    ensures
        orphaned(t, held, repo, refs).contains(k) <==> k.0 == repo && refs.contains(k.1) && (forall|
            m: Text,
        |
            !#[trigger] backrefs_at(t.backrefs, k).contains(m)) && held(
            crate::cache::blob_key(k.0, k.1),
        ),
{
    let s = backrefs_at(t.backrefs, k);
    if s.len() > 0 {
        assert(s.contains(s[0]));
    }
}

/// A blob's checksum is recorded unless the very same is on record; without one
/// nothing is recorded. A blob that left is recorded when its checksum was.
pub proof fn checksums_are_recorded_when_they_change(
    t: Tables,
    repo: Text,
    digest: Text,
    c: BlobChecksum,
)
    ensures
        t.checksums.contains_key((repo, digest)) && t.checksums[(repo, digest)] == c ==> checksum_op(
            t,
            repo,
            digest,
            Some(c),
        ) is None,
        !(t.checksums.contains_key((repo, digest)) && t.checksums[(repo, digest)] == c)
            ==> checksum_op(t, repo, digest, Some(c)) == Some(
            Op::PutChecksum { repo, digest, checksum: c },
        ),
        checksum_op(t, repo, digest, None) is None,
        t.checksums.contains_key((repo, digest)) ==> removal_op(t, repo, digest) == Some(
            Op::DeleteBlob { repo, digest },
        ),
        !t.checksums.contains_key((repo, digest)) ==> removal_op(t, repo, digest) is None,
{
}

/// The first repository that holds a blob is where it is located, until it holds it
/// no more; nothing is located where this is off.
pub proof fn first_location_stays(m: Map<Text, Text>, repo: Text, digest: Text, other: Text)
    ensures
        !m.contains_key(digest) ==> located(m, true, repo, digest).contains_key(digest) && located(
            m,
            true,
            repo,
            digest,
        )[digest] == repo,
        m.contains_key(digest) ==> located(m, true, repo, digest) == m,
        located(m, false, repo, digest) == m,
        other != digest ==> (located(m, true, repo, digest).contains_key(other)
            <==> m.contains_key(other)) && (m.contains_key(other) ==> located(
            m,
            true,
            repo,
            digest,
        )[other] == m[other]),
        m.contains_key(digest) && m[digest] == repo ==> !unlocated(m, repo, digest).contains_key(
            digest,
        ),
        m.contains_key(digest) && m[digest] != repo ==> unlocated(m, repo, digest) == m,
        other != digest ==> (unlocated(m, repo, digest).contains_key(other) <==> m.contains_key(
            other,
        )) && (m.contains_key(other) ==> unlocated(m, repo, digest)[other] == m[other]),
{
}

/// A blob that enters while nothing refers to it is a candidate from then on; one
/// that something refers to changes nothing, and no other blob is concerned.
pub proof fn entering_blob_is_a_candidate_unless_referenced(
    m: GcModel,
    t: Tables,
    repo: Text,
    digest: Text,
    now: u64,
    other: (Text, Text),
)
    ensures
        m.enabled && nothing_refers_to(t, (repo, digest)) ==> gc_entered(
            m,
            t,
            repo,
            digest,
            now,
        ).candidates.contains_key((repo, digest)) && gc_entered(
            m,
            t,
            repo,
            digest,
            now,
        ).candidates[(repo, digest)] == now,
        !nothing_refers_to(t, (repo, digest)) || !m.enabled ==> gc_entered(m, t, repo, digest, now)
            == m,
        other != (repo, digest) ==> (gc_entered(m, t, repo, digest, now).candidates.contains_key(
            other,
        ) <==> m.candidates.contains_key(other)) && (m.candidates.contains_key(other)
            ==> gc_entered(m, t, repo, digest, now).candidates[other] == m.candidates[other]),
        crate::gc::same_but_candidates(gc_entered(m, t, repo, digest, now), m),
{
    unreferenced_means_nothing_refers(t, repo, digest);
}

/// A complete rebuild holds every root, and with a manifest that was read every
/// child of it, and their children in turn.
pub proof fn rebuild_reaches_every_child(found: GcRebuild, d: Text, bytes: Seq<u8>, c: Text)
    requires
        found.wf(),
        found.waiting().len() == 0,
    ensures
        found.roots().contains(d) ==> found.all().contains(d),
        found.all().contains(d) ==> found.seen().contains_key(d),
        found.all().contains(d) && found.seen()[d] == Some(bytes) && children_in(bytes).contains(c)
            ==> found.all().contains(c),
{
    rebuild_finds_what_follows(found, found.all());
}

/// A complete rebuild holds nothing else: whatever holds the roots, and with a
/// manifest that was read its children, holds everything that was found.
pub proof fn rebuild_finds_nothing_else(found: GcRebuild, s: Set<Text>, x: Text)
    requires
        found.wf(),
        found.waiting().len() == 0,
        forall|d: Text| #[trigger] found.roots().contains(d) ==> s.contains(d),
        forall|d: Text, c: Text|
            #![trigger found.seen()[d], s.contains(c)]
            s.contains(d) && found.seen().contains_key(d) && (found.seen()[d] matches Some(bytes)
                && children_in(bytes).contains(c)) ==> s.contains(c),
    ensures
        found.all().contains(x) ==> s.contains(x),
{
    rebuild_finds_what_follows(found, s);
    assert(crate::fs_storage::gc::is_closed(s, found.roots(), found.seen())) by {
        assert forall|d: Text, c: Text|
            #![trigger found.seen().contains_key(d), s.contains(c)]
            s.contains(d) && found.seen().contains_key(d) && found.seen()[d] is Some
                && children_in(found.seen()[d]->0).contains(c) implies s.contains(c) by {
            assert(found.seen()[d] matches Some(bytes) && children_in(bytes).contains(c));
        }
    }
}

} // verus!
