//! What holds of uploads, of dirty repositories and locks, and of a restart from a
//! stamp, step by step.

use crate::cache::blob_key;
use crate::error::{IoFailure, StorageError};
use crate::fs_storage::blobs::checksum_of;
use crate::fs_storage::dirty::{marked, next_generation, written};
use crate::fs_storage::fast_restart::{
    blob_keys, listed, located_all, reject_text, restored_gc, stamp_fate, stamp_fits, unwrapped,
    wrapped, Stamp, StampFate, StampReject,
};
use crate::fs_storage::locks::with_lock;
use crate::fs_storage::paths::{blob_dir, upload_dir};
use crate::fs_storage::staged::{hash_name, hash_room, StagedHash};
use crate::fs_storage::uploads::{
    answers_stage, finish_answer, is_covered, next_stage, stage_after, Cleanup, FinishAction,
    FinishEvent, FinishStage, FinishUpload, Staging,
};
use crate::gc::GcModel;
use crate::hashing::{crc_of, hex_text, sha256_bytes, sha512_bytes};
use crate::metadata::snapshot::integrity;
use crate::page::texts;
use crate::text::{decimal, Text};
use vstd::bytes::{
    lemma_auto_spec_u32_to_from_le_bytes, spec_u32_from_le_bytes, spec_u32_to_le_bytes,
};
use vstd::prelude::*;

verus! {

/// The record of a content is its checksum and its length.
pub proof fn record_of_a_content(data: Seq<u8>)
    ensures
        checksum_of(data).crc32c == crc_of(data),
        data.len() <= u64::MAX ==> checksum_of(data).size == data.len(),
{
}

/// A staged content is named by its hash, under the algorithm it was hashed with.
pub proof fn staged_content_is_named_by_its_hash(h: StagedHash)
    ensures
        h.wide() ==> h.digest() == ("sha512"@, hex_text(sha512_bytes(h.content()))),
        !h.wide() ==> h.digest() == ("sha256"@, hex_text(sha256_bytes(h.content()))),
        hash_name(true) == "sha512"@,
        hash_name(false) == "sha256"@,
        hash_room(true) == u64::MAX,
        hash_room(false) == u64::MAX / 8,
{
    reveal_strlit("sha256");
    reveal_strlit("sha512");
    assert("sha256"@[3] != "sha512"@[3]);
}

/// A hash kept while writing is taken for the content's only where it covers every
/// staged byte and the expected digest is a sha256.
pub proof fn kept_hash_covers_everything(size: u64, n: u64, expected: (Text, Text))
    ensures
        is_covered(size, Some(n), expected) <==> n == size && expected.0 == "sha256"@,
        !is_covered(size, None, expected),
{
}

/// Finishing goes from preparing to appending to verifying to landing, and each
/// step only on what it waits for: a regular staging file, a content within the
/// limit, the expected digest.
pub proof fn finishing_goes_step_by_step(
    stage: FinishStage,
    e: FinishEvent,
    expected: (Text, Text),
    max_size: u64,
)
    ensures
        ({
            let next = next_stage(stage, e, expected, max_size);
            &&& next is Appending <==> stage is Preparing && (e matches FinishEvent::Prepared(
                Staging::Ready(_),
            ))
            &&& next matches FinishStage::Verifying { size } ==> stage is Appending && (e
                matches FinishEvent::Appended { size: s, .. } && s == size && s <= max_size)
            &&& stage is Appending && (e matches FinishEvent::Appended { size: s, .. } && s
                <= max_size) ==> next is Verifying
            &&& next matches FinishStage::Landing { size, crc32c } ==> (stage
                matches FinishStage::Verifying { size: s } && s == size) && (e
                matches FinishEvent::Hashed(h) && h.digest() == expected && crc32c == crc_of(
                h.content(),
            ))
            &&& stage is Verifying && (e matches FinishEvent::Hashed(h) && h.digest() == expected)
                ==> next is Landing
            &&& !(next is Preparing)
        }),
        answers_stage(FinishStage::Preparing, e) <==> e is PrepareFailed || e is Prepared,
        answers_stage(FinishStage::Appending, e) <==> e is AppendFailed || e is Appended,
        stage is Verifying ==> (answers_stage(stage, e) <==> e is HashFailed || e is Hashed),
        stage is Landing ==> (answers_stage(stage, e) <==> e is LandRejected || e is LandFailed || e
            is Landed),
        !answers_stage(FinishStage::Over, e),
{
}

/// What is refused, and how: a missing session is not found and loses its lock; a
/// staging file that is none is discarded; so is a content over the limit, with the
/// limit and its size, and one that hashes to something else, with both digests,
/// and one that is refused a place. A failure leaves the session open, and gives
/// back what was charged.
pub proof fn uploads_are_refused_for_what_is_wrong(
    f: FinishUpload,
    e: FinishEvent,
    warm_limit: usize,
    a: FinishAction,
)
    requires
        finish_answer(f, e, warm_limit, a),
    ensures
        e matches FinishEvent::Prepared(Staging::Missing) ==> (a matches FinishAction::Fail {
            cleanup,
            error,
        } && cleanup == Cleanup::DropLock && error is NotFound),
        e matches FinishEvent::Prepared(Staging::NotRegular) ==> (a matches FinishAction::Fail {
            cleanup,
            error: StorageError::BadPath(p),
        } && cleanup == Cleanup::Discard && p@ == "upload "@ + f.id@ + " is not a regular file"@),
        e matches FinishEvent::Prepared(Staging::Ready(n)) ==> a == (FinishAction::Append {
            current: n,
        }),
        e matches FinishEvent::Appended { size, hashed } ==> (size > f.max_size ==> (a
            matches FinishAction::Fail { cleanup, error: StorageError::TooLarge { limit, actual } }
            && cleanup == Cleanup::Discard && limit == f.max_size && actual == size)),
        e matches FinishEvent::Appended { size, hashed } ==> (size <= f.max_size ==> (a
            matches FinishAction::Hash { rehash, sync } && sync == f.commit && (!rehash <==> hashed
            == Some(size) && f.expected@.0 == "sha256"@))),
        e matches FinishEvent::Hashed(h) ==> (h.digest() != f.expected@ ==> (a
            matches FinishAction::Fail {
            cleanup,
            error: StorageError::DigestMismatch { expected, actual },
        } && cleanup == Cleanup::Discard && expected@ == f.expected@.0 + ":"@ + f.expected@.1
            && actual@ == h.digest().0 + ":"@ + h.digest().1)),
        e matches FinishEvent::Hashed(h) && h.digest() == f.expected@ ==> (a
            matches FinishAction::Land(l) && texts(l.upload_dir@) == upload_dir(f.repo@)
            && l.upload_leaf@ == f.id@ && texts(l.blob_dir@) == blob_dir(f.repo@, f.expected@.0)
            && l.blob_leaf@ == f.expected@.1 && (f.stage matches FinishStage::Verifying { size }
            && l.size == size)),
        e matches FinishEvent::PrepareFailed(err) ==> (a matches FinishAction::Fail { cleanup, error }
            && cleanup == Cleanup::Nothing && (err.not_found ==> error is NotFound) && (
        !err.not_found ==> error == StorageError::Io(err))),
        e matches FinishEvent::HashFailed(err) ==> (a matches FinishAction::Fail { cleanup, error }
            && cleanup == Cleanup::Nothing && (err.not_found ==> error is NotFound) && (
        !err.not_found ==> error == StorageError::Io(err))),
        e matches FinishEvent::AppendFailed(error) ==> a == (FinishAction::Fail {
            cleanup: Cleanup::Nothing,
            error,
        }),
        e matches FinishEvent::LandRejected(error) ==> a == (FinishAction::Fail {
            cleanup: Cleanup::Discard,
            error,
        }),
        e matches FinishEvent::LandFailed { charged, error } ==> a == (FinishAction::Fail {
            cleanup: Cleanup::Release(charged),
            error,
        }),
        e is Landed ==> a is Complete,
{
}

/// A mutated repository is dirty, under the next number, and no other changes; a
/// write cleans it only under the number it had.
pub proof fn mutated_repository_is_dirty(m: Map<Text, u64>, repo: Text, g: u64, other: Text)
    ensures
        marked(m, repo).contains_key(repo),
        !m.contains_key(repo) ==> marked(m, repo)[repo] == 1,
        m.contains_key(repo) && m[repo] < u64::MAX ==> marked(m, repo)[repo] == m[repo] + 1,
        m.contains_key(repo) && m[repo] == u64::MAX ==> marked(m, repo)[repo] == 0,
        next_generation(u64::MAX) == 0,
        g < u64::MAX ==> next_generation(g) == g + 1,
        other != repo ==> (marked(m, repo).contains_key(other) <==> m.contains_key(other)) && (
        m.contains_key(other) ==> marked(m, repo)[other] == m[other]),
        m.contains_key(repo) && m[repo] == g ==> !written(m, repo, g).contains_key(repo),
        m.contains_key(repo) && m[repo] != g ==> written(m, repo, g) == m,
        other != repo ==> (written(m, repo, g).contains_key(other) <==> m.contains_key(other)) && (
        m.contains_key(other) ==> written(m, repo, g)[other] == m[other]),
{
}

/// A session has one lock: the first that was made stays, and no other session's is
/// touched.
pub proof fn first_lock_of_a_session_stays<L>(
    m: Map<(Text, Text), L>,
    k: (Text, Text),
    fresh: L,
    other: (Text, Text),
)
    ensures
        m.contains_key(k) ==> with_lock(m, k, fresh) == m,
        !m.contains_key(k) ==> with_lock(m, k, fresh).contains_key(k) && with_lock(m, k, fresh)[k]
            == fresh,
        other != k ==> (with_lock(m, k, fresh).contains_key(other) <==> m.contains_key(other)) && (
        m.contains_key(other) ==> with_lock(m, k, fresh)[other] == m[other]),
{
}

/// A stamp on disk is the length of its body in four bytes with the lowest first,
/// the body, and the integrity field over it.
pub proof fn stamp_layout(body: Seq<u8>, key: Option<Seq<u8>>)
    ensures
        ({
            let w = wrapped(body, key);
            let n = body.len() as int;
            &&& w.len() == 4 + n + integrity(body, key).len()
            &&& w.subrange(0, 4) == spec_u32_to_le_bytes(body.len() as u32)
            &&& w.subrange(4, 4 + n) == body
            &&& w.skip(4 + n) == integrity(body, key)
        }),
{
    lemma_auto_spec_u32_to_from_le_bytes();
    let w = wrapped(body, key);
    let n = body.len() as int;
    assert(spec_u32_to_le_bytes(body.len() as u32).len() == 4);
    assert(w.subrange(0, 4) =~= spec_u32_to_le_bytes(body.len() as u32));
    assert(w.subrange(4, 4 + n) =~= body);
    assert(w.skip(4 + n) =~= integrity(body, key));
}

/// A stamp is refused for the first thing that is wrong with it: too few bytes,
/// another length than it says, or an integrity field that does not vouch for its
/// body.
pub proof fn stamp_is_refused_for_what_is_wrong(data: Seq<u8>, key: Option<Seq<u8>>)
    ensures
        ({
            let n = spec_u32_from_le_bytes(data.subrange(0, 4));
            let body = data.subrange(4, 4 + n);
            let vouched = data.skip(4 + n) == integrity(body, key);
            &&& data.len() < 36 ==> unwrapped(data, key) == Err::<Seq<u8>, Text>("stamp too small"@)
            &&& data.len() >= 36 && data.len() != 36 + n ==> unwrapped(data, key) == Err::<
                Seq<u8>,
                Text,
            >("stamp length mismatch"@)
            &&& data.len() >= 36 && data.len() == 36 + n && vouched ==> unwrapped(data, key)
                == Ok::<Seq<u8>, Text>(body)
            &&& data.len() >= 36 && data.len() == 36 + n && !vouched && key is Some ==> unwrapped(
                data,
                key,
            ) == Err::<Seq<u8>, Text>("HMAC verification failed"@)
            &&& data.len() >= 36 && data.len() == 36 + n && !vouched && key is None ==> unwrapped(
                data,
                key,
            ) == Err::<Seq<u8>, Text>("CRC32C verification failed"@)
        }),
{
    assert(data.take(4) =~= data.subrange(0, 4));
}

/// A stamp fits only what wrote it: the same format, program and configuration, and
/// a metadata log that is the same in generation and length.
pub proof fn stamp_fits_only_what_wrote_it(
    s: Stamp,
    binary_version: Text,
    config_hash: Text,
    generation: u64,
    log_len: u64,
)
    ensures
        stamp_fits(s, binary_version, config_hash, generation, log_len) <==> s.format_version == 1
            && s.binary_version@ == binary_version && s.config_hash@ == config_hash
            && s.metadata_generation == generation && s.metadata_log_len == log_len,
{
}

/// No stamp is absent; one that cannot be removed is kept and not used, whatever it
/// holds.
pub proof fn stamp_is_removed_before_it_is_used(
    data: Seq<u8>,
    removable: bool,
    key: Option<Seq<u8>>,
    document: spec_fn(Seq<u8>) -> Option<Stamp>,
    binary_version: Text,
    config_hash: Text,
    generation: u64,
    log_len: u64,
)
    ensures
        ({
            let none = stamp_fate(
                None,
                removable,
                key,
                document,
                binary_version,
                config_hash,
                generation,
                log_len,
            );
            let kept = stamp_fate(
                Some(data),
                false,
                key,
                document,
                binary_version,
                config_hash,
                generation,
                log_len,
            );
            let fate = stamp_fate(
                Some(data),
                true,
                key,
                document,
                binary_version,
                config_hash,
                generation,
                log_len,
            );
            &&& none is Absent
            &&& kept is Kept
            &&& fate matches StampFate::Used(s) ==> (unwrapped(data, key) matches Ok(body)
                && document(body) == Some(s) && s.format_version == 1 && s.binary_version@
                == binary_version && s.config_hash@ == config_hash && s.metadata_generation
                == generation && s.metadata_log_len == log_len)
            &&& fate is Used || fate is Refused
        }),
{
}

/// A restart from a stamp gives every listed candidate a new grace period, keeps the
/// listed roots and unsafe repositories beside those that were known, and opens the
/// sweeps; a tracker that is off stays as it is.
pub proof fn restart_takes_over_what_is_listed(
    m: GcModel,
    candidates: Seq<(Text, Text)>,
    roots: Seq<(Text, Text)>,
    unsafe_repos: Seq<Text>,
    now: u64,
    k: (Text, Text),
    repo: Text,
)
    ensures
        ({
            let n = restored_gc(m, candidates, roots, unsafe_repos, now);
            &&& !m.enabled ==> n == m
            &&& m.enabled ==> {
                &&& n.ready
                &&& n.delay == m.delay
                &&& n.enabled
                &&& candidates.contains(k) ==> n.candidates.contains_key(k) && n.candidates[k] == now
                &&& !candidates.contains(k) ==> (n.candidates.contains_key(k)
                    <==> m.candidates.contains_key(k)) && (m.candidates.contains_key(k)
                    ==> n.candidates[k] == m.candidates[k])
                &&& n.roots.contains(k) <==> roots.contains(k) || m.roots.contains(k)
                &&& n.unsafe_repos.contains(repo) <==> unsafe_repos.contains(repo)
                    || m.unsafe_repos.contains(repo)
            }
        }),
{
    assert(candidates.to_set().contains(k) <==> candidates.contains(k));
    assert(roots.to_set().contains(k) <==> roots.contains(k));
    assert(unsafe_repos.to_set().contains(repo) <==> unsafe_repos.contains(repo));
}

/// Locations are taken over in order, the first of each digest staying; none where
/// this is off.
pub proof fn locations_are_taken_over_in_order(
    m: Map<Text, Text>,
    pairs: Seq<(Text, Text)>,
    digest: Text,
    repo: Text,
)
    ensures
        located_all(m, true, Seq::empty()) == m,
        located_all(m, true, pairs).contains_key(digest) ==> located_all(
            m,
            true,
            pairs.push((digest, repo)),
        ) == located_all(m, true, pairs),
        !located_all(m, true, pairs).contains_key(digest) ==> located_all(
            m,
            true,
            pairs.push((digest, repo)),
        ) == located_all(m, true, pairs).insert(digest, repo),
        located_all(m, false, pairs) == m,
    decreases pairs.len(),
{
    assert(pairs.push((digest, repo)).drop_last() =~= pairs);
    if pairs.len() > 0 {
        locations_are_taken_over_in_order(m, pairs.drop_last(), digest, repo);
    }
}

/// A listed blob stands under its key: the repository, a zero character and the
/// digest.
pub proof fn listed_blobs_stand_under_their_keys(s: Seq<(String, String)>, i: int)
    ensures
        blob_keys(s).len() == s.len(),
        0 <= i < s.len() ==> blob_keys(s)[i] == s[i].0@ + seq!['\0'] + s[i].1@,
{
    if 0 <= i < s.len() {
        assert(blob_keys(s)[i] =~= s[i].0@ + seq!['\0'] + s[i].1@);
    }
}

/// What is said of a stamp that is not used.
pub proof fn rejections_say_why(f: IoFailure, s: String, u: String, got: u32, expected: u32)
    ensures
        reject_text(StampReject::Absent) == "no stamp file"@,
        reject_text(StampReject::Io(f)) == "reading stamp: "@ + f.message@,
        reject_text(StampReject::Integrity(s)) == "integrity: "@ + s@,
        reject_text(StampReject::FormatVersion { got, expected }) == "format version "@ + decimal(
            got as nat,
        ) + ", expected "@ + decimal(expected as nat),
        reject_text(StampReject::BinaryVersion { got: s, expected: u }) == "binary version "@ + s@
            + ", expected "@ + u@,
        reject_text(StampReject::ConfigMismatch) == "config hash mismatch"@,
        reject_text(StampReject::Parse(s)) == "parsing stamp: "@ + s@,
        reject_text(StampReject::Consumed(f)) == "consuming stamp: "@ + f.message@,
{
}

/// An upload is where its events, one after the other, have brought it.
pub proof fn events_take_effect_in_order(
    events: Seq<FinishEvent>,
    e: FinishEvent,
    expected: (Text, Text),
    max_size: u64,
)
    ensures
        stage_after(Seq::empty(), expected, max_size) is Preparing,
        stage_after(events.push(e), expected, max_size) == next_stage(
            stage_after(events, expected, max_size),
            e,
            expected,
            max_size,
        ),
{
    assert(events.push(e).drop_last() =~= events);
}

/// Every blob on a stamp is listed under its key, and nothing else is.
pub proof fn stamp_lists_its_blobs(s: Seq<(String, String)>, i: int, n: int, k: Text)
    ensures
        0 <= i < n ==> listed(s, n, s[i].0@ + seq!['\0'] + s[i].1@),
        listed(s, n, k) ==> exists|j: int|
            #![trigger s[j]]
            0 <= j < n && k == s[j].0@ + seq!['\0'] + s[j].1@,
{
    if 0 <= i < n {
        assert(blob_key(s[i].0@, s[i].1@) =~= s[i].0@ + seq!['\0'] + s[i].1@);
    }
    if listed(s, n, k) {
        let j = choose|j: int| #![trigger s[j]] 0 <= j < n && k == blob_key(s[j].0@, s[j].1@);
        assert(k =~= s[j].0@ + seq!['\0'] + s[j].1@);
    }
}

} // verus!
