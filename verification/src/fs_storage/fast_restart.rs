//! The fast-restart stamp: derived state written on a graceful shutdown, so that
//! the next start need not walk the store. Any mismatch falls back to the walk.
//!
//! On disk a stamp is `[u32 LE body length] [body] [32 B integrity]`.

use crate::cache::blob_key;
use crate::error::IoFailure;
use crate::filter::lemma_one_more_recorded;
use crate::fs_storage::index::FileRead;
use crate::fs_storage::lifecycle::{located, FsStorage};
use crate::gc::{avoided, key_pairs, rooted, stamped, with_candidates, GcModel};
use crate::hashing::{
    changed_byte_changes_the_checksum, crc_of, hex_call, hex_text, sha256_bytes, sha256_call,
};
use crate::metadata::log::{extend, same_bytes};
use crate::metadata::snapshot::{integrity, integrity_of};
use crate::metadata::store::MetadataStore;
use crate::metadata::wal_hmac::{key_bytes, HmacKey};
use crate::page::texts;
use crate::text::{and, decimal, decimal_text, same, Text};
use vstd::bytes::{
    lemma_auto_spec_u32_to_from_le_bytes, spec_u32_from_le_bytes, spec_u32_to_le_bytes,
    u32_from_le_bytes, u32_to_le_bytes,
};
use vstd::prelude::*;
use vstd::slice::slice_subrange;

verus! {

broadcast use vstd::string::group_string_axioms;

/// Name of the stamp file under the store root.
pub const STAMP_FILE: &'static str = ".roci-fast-restart";

/// The version of the stamp format.
pub const FORMAT_VERSION: u32 = 1;

/// What a stamp holds.
#[derive(Debug)]
pub struct Stamp {
    pub format_version: u32,
    /// The version of the program that wrote the stamp.
    pub binary_version: String,
    /// The hash of the storage configuration.
    pub config_hash: String,
    /// The generation of the metadata log.
    pub metadata_generation: u64,
    /// The size of the metadata log when the stamp was written.
    pub metadata_log_len: u64,
    /// `(repo, digest)` of every stored blob.
    pub presence: Vec<(String, String)>,
    /// `(digest, repo)` of every known location.
    pub dedupe: Vec<(String, String)>,
    /// The bytes each repository uses.
    pub quota_per_repo: Vec<(String, u64)>,
    /// The bytes used altogether.
    pub quota_total: u64,
    /// Upload sessions open at shutdown.
    pub quota_sessions: usize,
    /// `(repo, digest)` of every candidate.
    pub gc_candidates: Vec<(String, String)>,
    /// `(repo, digest)` of every root.
    pub gc_roots: Vec<(String, String)>,
    /// The repositories that no sweep may touch.
    pub gc_unsafe_repos: Vec<String>,
}

/// What of a valid stamp is applied.
#[derive(Debug)]
pub struct ValidStamp {
    pub presence: Vec<(String, String)>,
    pub dedupe: Vec<(String, String)>,
    pub quota_per_repo: Vec<(String, u64)>,
    pub quota_sessions: usize,
    pub gc_candidates: Vec<(String, String)>,
    pub gc_roots: Vec<(String, String)>,
    pub gc_unsafe_repos: Vec<String>,
}

/// A stamp on disk over a body.
pub open spec fn wrapped(body: Seq<u8>, key: Option<Seq<u8>>) -> Seq<u8> {
    spec_u32_to_le_bytes(body.len() as u32) + body + integrity(body, key)
}

/// The body that a stamp on disk vouches for, or why it does not.
pub open spec fn unwrapped(data: Seq<u8>, key: Option<Seq<u8>>) -> Result<Seq<u8>, Text> {
    if data.len() < 36 {
        Err("stamp too small"@)
    } else {
        let len = spec_u32_from_le_bytes(data.take(4)) as int;
        if data.len() != 4 + len + 32 {
            Err("stamp length mismatch"@)
        } else {
            let body = data.subrange(4, 4 + len);
            if data.skip(4 + len) == integrity(body, key) {
                Ok(body)
            } else if key is Some {
                Err("HMAC verification failed"@)
            } else {
                Err("CRC32C verification failed"@)
            }
        }
    }
}

/// Wraps a body: its length before it, its integrity behind it.
pub fn wrap(body: &[u8], key: Option<&HmacKey>) -> (r: Vec<u8>)
    ensures
        r@ == wrapped(body@, key_bytes(key)),
        body@.len() <= u32::MAX ==> unwrapped(r@, key_bytes(key)) == Ok::<Seq<u8>, Text>(body@),
{
    let mut out = u32_to_le_bytes(body.len() as u32);
    extend(&mut out, body);
    let tag = integrity_of(body, key);
    extend(&mut out, tag.as_slice());
    proof {
        if body@.len() <= u32::MAX {
            wrapped_stamp_reads_back(body@, key_bytes(key));
        }
    }
    out
}

/// Checks a stamp on disk and hands its body out.
pub fn unwrap<'a>(data: &'a [u8], key: Option<&HmacKey>) -> (r: Result<&'a [u8], &'static str>)
    ensures
        (match r {
            Ok(body) => Ok::<Seq<u8>, Text>(body@),
            Err(reason) => Err::<Seq<u8>, Text>(reason@),
        }) == unwrapped(data@, key_bytes(key)),
{
    if data.len() < 36 {
        return Err("stamp too small");
    }
    assert(data@.subrange(0, 4) =~= data@.take(4));
    let len: u32 = u32_from_le_bytes(slice_subrange(data, 0, 4));
    let room: usize = data.len() - 36;
    if len as u64 != room as u64 {
        return Err("stamp length mismatch");
    }
    let end: usize = 4 + room;
    let body = slice_subrange(data, 4, end);
    let stored = slice_subrange(data, end, data.len());
    assert(stored@ =~= data@.skip(end as int));
    match key {
        Some(k) => {
            if !k.verify(body, stored) {
                return Err("HMAC verification failed");
            }
        },
        None => {
            let expected = integrity_of(body, key);
            if !same_bytes(stored, expected.as_slice()) {
                return Err("CRC32C verification failed");
            }
        },
    }
    Ok(body)
}

/// A wrapped body is accepted under the key it was wrapped with, and comes back.
pub proof fn wrapped_stamp_reads_back(body: Seq<u8>, key: Option<Seq<u8>>)
    requires
        body.len() <= u32::MAX,
        integrity(body, key).len() == 32,
    ensures
        unwrapped(wrapped(body, key), key) == Ok::<Seq<u8>, Text>(body),
{
    lemma_auto_spec_u32_to_from_le_bytes();
    let data = wrapped(body, key);
    assert(data.take(4) =~= spec_u32_to_le_bytes(body.len() as u32));
    assert(data.subrange(4, 4 + body.len() as int) =~= body);
    assert(data.skip(4 + body.len() as int) =~= integrity(body, key));
}

/// Where another body stands in place of the one that was wrapped, the stamp is
/// accepted only if both have the same integrity field.
pub proof fn altered_stamp_is_refused(
    body: Seq<u8>,
    key: Option<Seq<u8>>,
    other: Seq<u8>,
    other_key: Option<Seq<u8>>,
)
    requires
        body.len() <= u32::MAX,
        other.len() == body.len(),
        integrity(body, key).len() == 32,
        integrity(other, other_key) != integrity(body, key),
    ensures
        unwrapped(
            spec_u32_to_le_bytes(body.len() as u32) + other + integrity(body, key),
            other_key,
        ) is Err,
{
    lemma_auto_spec_u32_to_from_le_bytes();
    let data = spec_u32_to_le_bytes(body.len() as u32) + other + integrity(body, key);
    assert(data.take(4) =~= spec_u32_to_le_bytes(body.len() as u32));
    assert(data.subrange(4, 4 + body.len() as int) =~= other);
    assert(data.skip(4 + body.len() as int) =~= integrity(body, key));
}

/// Without a key, a stamp with any byte of its body changed is refused.
pub proof fn changed_stamp_is_refused(body: Seq<u8>, i: int, b: u8)
    requires
        body.len() <= u32::MAX,
        0 <= i < body.len(),
        b != body[i],
    ensures
        unwrapped(wrapped(body, None).update(4 + i, b), None) is Err,
{
    lemma_auto_spec_u32_to_from_le_bytes();
    let other = body.update(i, b);
    changed_byte_changes_the_checksum(body, i, b);
    let was = spec_u32_to_le_bytes(crc_of(body));
    let now = spec_u32_to_le_bytes(crc_of(other));
    assert(integrity(body, None).take(4) =~= was);
    assert(integrity(other, None).take(4) =~= now);
    assert(spec_u32_from_le_bytes(was) != spec_u32_from_le_bytes(now));
    altered_stamp_is_refused(body, None, other, None);
    assert(wrapped(body, None).update(4 + i, b) =~= spec_u32_to_le_bytes(body.len() as u32) + other
        + integrity(body, None));
}

/// The hash of a configuration's text: its SHA-256 in hexadecimal.
pub fn config_hash(text: &str) -> (r: String)
    ensures
        r@ == hex_text(sha256_bytes(vstd::utf8::encode_utf8(text@))),
{
    let hash = sha256_call(text.as_bytes());
    hex_call(hash.as_slice())
}

/// Why a stamp was rejected.
#[derive(Debug, Clone, PartialEq, Eq)]
pub enum StampReject {
    Absent,
    Io(IoFailure),
    Integrity(String),
    FormatVersion { got: u32, expected: u32 },
    BinaryVersion { got: String, expected: String },
    ConfigMismatch,
    Parse(String),
    Consumed(IoFailure),
}

/// The message of a rejection.
pub open spec fn reject_text(e: StampReject) -> Text {
    match e {
        StampReject::Absent => "no stamp file"@,
        StampReject::Io(f) => "reading stamp: "@ + f.message@,
        StampReject::Integrity(reason) => "integrity: "@ + reason@,
        StampReject::FormatVersion { got, expected } => "format version "@ + decimal(got as nat)
            + ", expected "@ + decimal(expected as nat),
        StampReject::BinaryVersion { got, expected } => "binary version "@ + got@ + ", expected "@
            + expected@,
        StampReject::ConfigMismatch => "config hash mismatch"@,
        StampReject::Parse(m) => "parsing stamp: "@ + m@,
        StampReject::Consumed(f) => "consuming stamp: "@ + f.message@,
    }
}

impl StampReject {
    /// The rejection's message.
    pub fn message(&self) -> (r: String)
        ensures
            r@ == reject_text(*self),
    {
        match self {
            StampReject::Absent => "no stamp file".to_owned(),
            StampReject::Io(f) => and("reading stamp: ".to_owned(), f.message.as_str()),
            StampReject::Integrity(reason) => and("integrity: ".to_owned(), reason),
            StampReject::FormatVersion { got, expected } => and(
                and(
                    and("format version ".to_owned(), decimal_text(*got as u64).as_str()),
                    ", expected ",
                ),
                decimal_text(*expected as u64).as_str(),
            ),
            StampReject::BinaryVersion { got, expected } => and(
                and(and("binary version ".to_owned(), got), ", expected "),
                expected,
            ),
            StampReject::ConfigMismatch => "config hash mismatch".to_owned(),
            StampReject::Parse(m) => and("parsing stamp: ".to_owned(), m),
            StampReject::Consumed(f) => and("consuming stamp: ".to_owned(), f.message.as_str()),
        }
    }
}

/// Why a stamp file that could not be read is rejected: there is none, or
/// reading it failed.
pub fn unread_stamp(e: IoFailure) -> (r: StampReject)
    ensures
        r == (if e.not_found {
            StampReject::Absent
        } else {
            StampReject::Io(e)
        }),
{
    if e.not_found {
        StampReject::Absent
    } else {
        StampReject::Io(e)
    }
}

/// The bytes of a stamp file that still stands on disk.
#[derive(Debug)]
pub struct FoundStamp {
    bytes: Vec<u8>,
}

/// The bytes of a stamp file that is gone.
#[derive(Debug)]
pub struct ConsumedStamp {
    bytes: Vec<u8>,
}

/// Starts using a stamp with what reading its file gave. The file is removed next,
/// before anything of it is used.
pub fn try_consume_stamp(read: FileRead) -> (r: Result<FoundStamp, StampReject>)
    ensures
        (match read {
            FileRead::Missing => r == Err::<FoundStamp, StampReject>(StampReject::Absent),
            FileRead::Failed(e) => r == Err::<FoundStamp, StampReject>(
                if e.not_found {
                    StampReject::Absent
                } else {
                    StampReject::Io(e)
                },
            ),
            FileRead::Bytes(b) => r matches Ok(s) && s.view() == b@,
        }),
{
    match read {
        FileRead::Missing => Err(StampReject::Absent),
        FileRead::Failed(e) => Err(unread_stamp(e)),
        FileRead::Bytes(bytes) => Ok(FoundStamp { bytes }),
    }
}

impl FoundStamp {
    /// What the file held.
    pub closed spec fn view(&self) -> Seq<u8> {
        self.bytes@
    }

    /// Goes on with what came of removing the file: one that may still be there is
    /// not used.
    pub fn consumed(self, removed: Result<(), IoFailure>) -> (r: Result<ConsumedStamp, StampReject>)
        ensures
            (match removed {
                Ok(_) => r matches Ok(s) && s.view() == self.view(),
                Err(e) => r == Err::<ConsumedStamp, StampReject>(StampReject::Consumed(e)),
            }),
    {
        match removed {
            Ok(()) => Ok(ConsumedStamp { bytes: self.bytes }),
            Err(e) => Err(StampReject::Consumed(e)),
        }
    }
}

impl ConsumedStamp {
    /// What the file held.
    pub closed spec fn view(&self) -> Seq<u8> {
        self.bytes@
    }

    /// The body that the stamp vouches for.
    pub fn body(&self, key: Option<&HmacKey>) -> (r: Result<Vec<u8>, StampReject>)
        ensures
            (match unwrapped(self.view(), key_bytes(key)) {
                Ok(body) => r matches Ok(b) && b@ == body,
                Err(reason) => r matches Err(StampReject::Integrity(t)) && t@ == reason,
            }),
    {
        match unwrap(self.bytes.as_slice(), key) {
            Ok(body) => Ok(vstd::slice::slice_to_vec(body)),
            Err(reason) => Err(StampReject::Integrity(reason.to_owned())),
        }
    }
}

/// What becomes of a stamp.
pub enum StampFate {
    /// There is none.
    Absent,
    /// It could not be removed, and is not used.
    Kept,
    /// It is gone, and was not used.
    Refused,
    /// It is gone, and was used.
    Used(Stamp),
}

/// What becomes of the stamp in `file`: it is removed, then checked, then read as
/// what `document` takes its body for, then held against what is running.
pub open spec fn stamp_fate(
    file: Option<Seq<u8>>,
    removable: bool,
    key: Option<Seq<u8>>,
    document: spec_fn(Seq<u8>) -> Option<Stamp>,
    binary_version: Text,
    config_hash: Text,
    generation: u64,
    log_len: u64,
) -> StampFate {
    match file {
        None => StampFate::Absent,
        Some(data) => if !removable {
            StampFate::Kept
        } else {
            match unwrapped(data, key) {
                Err(_) => StampFate::Refused,
                Ok(body) => match document(body) {
                    None => StampFate::Refused,
                    Some(s) => if stamp_fits(s, binary_version, config_hash, generation, log_len) {
                        StampFate::Used(s)
                    } else {
                        StampFate::Refused
                    },
                },
            }
        },
    }
}

/// What is left of the file after that.
pub open spec fn stamp_left(file: Option<Seq<u8>>, removable: bool) -> Option<Seq<u8>> {
    if removable {
        None
    } else {
        file
    }
}

/// A stamp is used once at most: one that was used is gone, and once it is gone,
/// used or refused, the next start finds none. It is used exactly where it can be
/// removed, vouches for its body, and fits what is running.
pub proof fn stamp_is_used_once(
    file: Option<Seq<u8>>,
    removable: bool,
    key: Option<Seq<u8>>,
    document: spec_fn(Seq<u8>) -> Option<Stamp>,
    binary_version: Text,
    config_hash: Text,
    generation: u64,
    log_len: u64,
    again: bool,
)
    ensures
        ({
            let left = stamp_left(file, removable);
            let first = stamp_fate(
                file,
                removable,
                key,
                document,
                binary_version,
                config_hash,
                generation,
                log_len,
            );
            let next = stamp_fate(
                left,
                again,
                key,
                document,
                binary_version,
                config_hash,
                generation,
                log_len,
            );
            &&& first is Used || first is Refused ==> left is None && next is Absent
            &&& first is Used <==> removable && (file matches Some(data) && (unwrapped(data, key)
                matches Ok(body) && (document(body) matches Some(s) && stamp_fits(
                s,
                binary_version,
                config_hash,
                generation,
                log_len,
            ))))
        }),
{
}

/// The stamp was written by this format, this program and this configuration,
/// over the metadata log as it is.
pub open spec fn stamp_fits(
    s: Stamp,
    binary_version: Text,
    config_hash: Text,
    generation: u64,
    log_len: u64,
) -> bool {
    &&& s.format_version == FORMAT_VERSION
    &&& s.binary_version@ == binary_version
    &&& s.config_hash@ == config_hash
    &&& s.metadata_generation == generation
    &&& s.metadata_log_len == log_len
}

/// Checks a stamp against what is running now; the first mismatch rejects it.
pub fn validate_stamp(
    stamp: Stamp,
    binary_version: &str,
    config_hash: &str,
    metadata_generation: u64,
    metadata_log_len: u64,
) -> (r: Result<ValidStamp, StampReject>)
    ensures
        r is Ok <==> stamp_fits(
            stamp,
            binary_version@,
            config_hash@,
            metadata_generation,
            metadata_log_len,
        ),
        r matches Ok(v) ==> v == (ValidStamp {
            presence: stamp.presence,
            dedupe: stamp.dedupe,
            quota_per_repo: stamp.quota_per_repo,
            quota_sessions: stamp.quota_sessions,
            gc_candidates: stamp.gc_candidates,
            gc_roots: stamp.gc_roots,
            gc_unsafe_repos: stamp.gc_unsafe_repos,
        }),
        r matches Err(e) ==> if stamp.format_version != FORMAT_VERSION {
            e == (StampReject::FormatVersion {
                got: stamp.format_version,
                expected: FORMAT_VERSION,
            })
        } else if stamp.binary_version@ != binary_version@ {
            e matches StampReject::BinaryVersion { got, expected } && got@ == stamp.binary_version@
                && expected@ == binary_version@
        } else {
            e == StampReject::ConfigMismatch
        },
{
    if stamp.format_version != FORMAT_VERSION {
        return Err(
            StampReject::FormatVersion { got: stamp.format_version, expected: FORMAT_VERSION },
        );
    }
    if !same(stamp.binary_version.as_str(), binary_version) {
        return Err(
            StampReject::BinaryVersion {
                got: stamp.binary_version,
                expected: binary_version.to_owned(),
            },
        );
    }
    if !same(stamp.config_hash.as_str(), config_hash) {
        return Err(StampReject::ConfigMismatch);
    }
    if stamp.metadata_generation != metadata_generation || stamp.metadata_log_len
        != metadata_log_len {
        return Err(StampReject::ConfigMismatch);
    }
    Ok(
        ValidStamp {
            presence: stamp.presence,
            dedupe: stamp.dedupe,
            quota_per_repo: stamp.quota_per_repo,
            quota_sessions: stamp.quota_sessions,
            gc_candidates: stamp.gc_candidates,
            gc_roots: stamp.gc_roots,
            gc_unsafe_repos: stamp.gc_unsafe_repos,
        },
    )
}

/// The tracker once `keys` are roots.
pub open spec fn with_roots(m: GcModel, keys: Set<(Text, Text)>) -> GcModel {
    if m.enabled {
        GcModel { roots: m.roots.union(keys), ..m }
    } else {
        m
    }
}

/// The tracker once sweeps skip `repos`.
pub open spec fn with_unsafe(m: GcModel, repos: Set<Text>) -> GcModel {
    if m.enabled {
        GcModel { unsafe_repos: m.unsafe_repos.union(repos), ..m }
    } else {
        m
    }
}

/// The tracker that a stamp gives: its candidates as of now, its roots, its
/// unsafe repositories, and ready.
pub open spec fn restored_gc(
    m: GcModel,
    candidates: Seq<(Text, Text)>,
    roots: Seq<(Text, Text)>,
    unsafe_repos: Seq<Text>,
    now: u64,
) -> GcModel {
    let m = with_unsafe(
        with_roots(with_candidates(m, candidates.to_set(), now), roots.to_set()),
        unsafe_repos.to_set(),
    );
    if m.enabled {
        GcModel { ready: true, ..m }
    } else {
        m
    }
}

/// The locations once `(digest, repo)` pairs are known, one after the other.
pub open spec fn located_all(m: Map<Text, Text>, enabled: bool, pairs: Seq<(Text, Text)>) -> Map<
    Text,
    Text,
>
    decreases pairs.len(),
{
    if pairs.len() == 0 {
        m
    } else {
        located(
            located_all(m, enabled, pairs.drop_last()),
            enabled,
            pairs.last().1,
            pairs.last().0,
        )
    }
}

/// The keys of the blobs whose presence is on a stamp.
pub open spec fn blob_keys(s: Seq<(String, String)>) -> Seq<Text> {
    Seq::new(s.len(), |i: int| blob_key(s[i].0@, s[i].1@))
}

/// The blobs whose presence is on a stamp.
pub open spec fn listed(s: Seq<(String, String)>, n: int, k: Text) -> bool {
    exists|i: int| #![trigger s[i]] 0 <= i < n && k == blob_key(s[i].0@, s[i].1@)
}

/// One item more.
proof fn lemma_taken<A>(s: Seq<A>, i: int)
    requires
        0 <= i < s.len(),
    ensures
        s.take(i + 1).drop_last() == s.take(i),
        s.take(i + 1).last() == s[i],
        s.take(i + 1).to_set() == s.take(i).to_set().insert(s[i]),
{
    assert(s.take(i + 1).drop_last() =~= s.take(i));
    assert(s.take(i + 1) =~= s.take(i).push(s[i]));
    let a = s.take(i + 1);
    let b = s.take(i);
    assert forall|x: A| #[trigger] a.to_set().contains(x) <==> b.to_set().insert(s[i]).contains(
        x,
    ) by {
        if a.contains(x) {
            let j = choose|j: int| 0 <= j < a.len() && a[j] == x;
            if j < i {
                assert(b[j] == x);
            }
        }
        if b.contains(x) {
            let j = choose|j: int| 0 <= j < b.len() && b[j] == x;
            assert(a[j] == x);
        }
        assert(a[i] == s[i]);
    }
    assert(a.to_set() =~= b.to_set().insert(s[i]));
}

impl<M: MetadataStore> FsStorage<M> {
    /// Applies a valid stamp in place of the startup walk and the consistency
    /// check.
    pub fn apply_stamp(&mut self, stamp: &ValidStamp, now: u64)
        requires
            old(self).wf(),
        ensures
            final(self).wf(),
            final(self).presence.has_recorded_all(
                &old(self).presence,
                blob_keys(stamp.presence@),
            ),
            forall|k: Text|
                old(self).presence.may_hold(k) || listed(
                    stamp.presence@,
                    stamp.presence@.len() as int,
                    k,
                ) ==> #[trigger] final(self).presence.may_hold(k),
            final(self).dedupe.is_enabled() == old(self).dedupe.is_enabled(),
            final(self).dedupe.locations() == located_all(
                old(self).dedupe.locations(),
                old(self).dedupe.is_enabled(),
                key_pairs(stamp.dedupe@),
            ),
            final(self).gc@ == restored_gc(
                old(self).gc@,
                key_pairs(stamp.gc_candidates@),
                key_pairs(stamp.gc_roots@),
                texts(stamp.gc_unsafe_repos@),
                now,
            ),
            final(self).meta == old(self).meta,
            final(self).cache == old(self).cache,
            final(self).index_dirty == old(self).index_dirty,
    {
        let ghost keys = blob_keys(stamp.presence@);
        let mut i: usize = 0;
        proof {
            assert(keys.take(0) =~= Seq::<Text>::empty());
            assert(self.presence.held().add(self.presence.entries_of(keys.take(0)))
                =~= self.presence.held());
        }
        while i < stamp.presence.len()
            invariant
                i <= stamp.presence@.len(),
                self.wf(),
                keys == blob_keys(stamp.presence@),
                self.presence.has_recorded_all(&old(self).presence, keys.take(i as int)),
                forall|k: Text|
                    old(self).presence.may_hold(k) || listed(stamp.presence@, i as int, k)
                        ==> #[trigger] self.presence.may_hold(k),
                self.meta == old(self).meta,
                self.cache == old(self).cache,
                self.gc == old(self).gc,
                self.dedupe == old(self).dedupe,
                self.index_dirty == old(self).index_dirty,
            decreases stamp.presence@.len() - i,
        {
            let ghost mid = self.presence;
            self.presence.insert(stamp.presence[i].0.as_str(), stamp.presence[i].1.as_str());
            proof {
                lemma_one_more_recorded(
                    &old(self).presence,
                    &mid,
                    &self.presence,
                    keys.take(i as int),
                    keys[i as int],
                );
                assert(keys.take(i + 1) =~= keys.take(i as int).push(keys[i as int]));
            }
            i += 1;
        }
        assert(keys.take(i as int) =~= keys);
        let ghost filled = self.presence;
        let ghost pairs = key_pairs(stamp.dedupe@);
        let ghost enabled = self.dedupe.is_enabled();
        i = 0;
        while i < stamp.dedupe.len()
            invariant
                i <= stamp.dedupe@.len(),
                pairs == key_pairs(stamp.dedupe@),
                self.wf(),
                enabled == old(self).dedupe.is_enabled(),
                self.dedupe.is_enabled() == enabled,
                self.dedupe.locations() == located_all(
                    old(self).dedupe.locations(),
                    enabled,
                    pairs.take(i as int),
                ),
                self.presence == filled,
                self.meta == old(self).meta,
                self.cache == old(self).cache,
                self.gc == old(self).gc,
                self.index_dirty == old(self).index_dirty,
            decreases stamp.dedupe@.len() - i,
        {
            proof {
                lemma_taken(pairs, i as int);
            }
            self.dedupe.insert(stamp.dedupe[i].1.as_str(), stamp.dedupe[i].0.as_str());
            i += 1;
        }
        assert(pairs.take(stamp.dedupe@.len() as int) =~= pairs);
        self.restore_gc(stamp, now);
    }

    /// Restores the collector's state.
    fn restore_gc(&mut self, stamp: &ValidStamp, now: u64)
        requires
            old(self).wf(),
        ensures
            final(self).wf(),
            final(self).gc@ == restored_gc(
                old(self).gc@,
                key_pairs(stamp.gc_candidates@),
                key_pairs(stamp.gc_roots@),
                texts(stamp.gc_unsafe_repos@),
                now,
            ),
            final(self).meta == old(self).meta,
            final(self).presence == old(self).presence,
            final(self).cache == old(self).cache,
            final(self).dedupe == old(self).dedupe,
            final(self).index_dirty == old(self).index_dirty,
    {
        let ghost g0 = self.gc@;
        let ghost candidates = key_pairs(stamp.gc_candidates@);
        let ghost roots = key_pairs(stamp.gc_roots@);
        let ghost repos = texts(stamp.gc_unsafe_repos@);
        let mut i: usize = 0;
        assert(with_candidates(g0, candidates.take(0).to_set(), now) =~= g0);
        while i < stamp.gc_candidates.len()
            invariant
                i <= stamp.gc_candidates@.len(),
                candidates == key_pairs(stamp.gc_candidates@),
                self.gc@ == with_candidates(g0, candidates.take(i as int).to_set(), now),
                self.meta == old(self).meta,
                self.presence == old(self).presence,
                self.cache == old(self).cache,
                self.dedupe == old(self).dedupe,
                self.index_dirty == old(self).index_dirty,
            decreases stamp.gc_candidates@.len() - i,
        {
            let ghost before = candidates.take(i as int).to_set();
            proof {
                lemma_taken(candidates, i as int);
                let k = candidates[i as int];
                assert(stamped(with_candidates(g0, before, now), k, now) =~= with_candidates(
                    g0,
                    before.insert(k),
                    now,
                ));
            }
            self.gc.mark_at(
                stamp.gc_candidates[i].0.as_str(),
                stamp.gc_candidates[i].1.as_str(),
                now,
            );
            i += 1;
        }
        assert(candidates.take(candidates.len() as int) =~= candidates);
        let ghost g1 = self.gc@;
        i = 0;
        assert(with_roots(g1, roots.take(0).to_set()) =~= g1);
        while i < stamp.gc_roots.len()
            invariant
                i <= stamp.gc_roots@.len(),
                roots == key_pairs(stamp.gc_roots@),
                self.gc@ == with_roots(g1, roots.take(i as int).to_set()),
                self.meta == old(self).meta,
                self.presence == old(self).presence,
                self.cache == old(self).cache,
                self.dedupe == old(self).dedupe,
                self.index_dirty == old(self).index_dirty,
            decreases stamp.gc_roots@.len() - i,
        {
            let ghost before = roots.take(i as int).to_set();
            proof {
                lemma_taken(roots, i as int);
                let k = roots[i as int];
                assert(rooted(with_roots(g1, before), k) =~= with_roots(g1, before.insert(k)));
            }
            self.gc.add_root(stamp.gc_roots[i].0.as_str(), stamp.gc_roots[i].1.as_str());
            i += 1;
        }
        assert(roots.take(roots.len() as int) =~= roots);
        let ghost g2 = self.gc@;
        i = 0;
        assert(with_unsafe(g2, repos.take(0).to_set()) =~= g2);
        while i < stamp.gc_unsafe_repos.len()
            invariant
                i <= stamp.gc_unsafe_repos@.len(),
                repos == texts(stamp.gc_unsafe_repos@),
                self.gc@ == with_unsafe(g2, repos.take(i as int).to_set()),
                self.meta == old(self).meta,
                self.presence == old(self).presence,
                self.cache == old(self).cache,
                self.dedupe == old(self).dedupe,
                self.index_dirty == old(self).index_dirty,
            decreases stamp.gc_unsafe_repos@.len() - i,
        {
            let ghost before = repos.take(i as int).to_set();
            proof {
                lemma_taken(repos, i as int);
                let k = repos[i as int];
                assert(avoided(with_unsafe(g2, before), k) =~= with_unsafe(g2, before.insert(k)));
            }
            self.gc.mark_unsafe(stamp.gc_unsafe_repos[i].as_str());
            i += 1;
        }
        assert(repos.take(repos.len() as int) =~= repos);
        if self.gc.enabled() {
            self.gc.set_ready();
        }
    }

    /// The stamp of the state as it is, over what was found in the store and what
    /// the quotas count.
    pub fn stamp_of(
        &self,
        binary_version: &str,
        config_hash: &str,
        metadata_generation: u64,
        metadata_log_len: u64,
        presence: Vec<(String, String)>,
        quota_per_repo: Vec<(String, u64)>,
        quota_total: u64,
        quota_sessions: usize,
    ) -> (r: Stamp)
        requires
            self.wf(),
        ensures
            stamp_fits(r, binary_version@, config_hash@, metadata_generation, metadata_log_len),
            r.presence == presence,
            r.quota_per_repo == quota_per_repo,
            r.quota_total == quota_total,
            r.quota_sessions == quota_sessions,
            located_all(Map::empty(), true, key_pairs(r.dedupe@)) == self.dedupe.locations(),
            key_pairs(r.gc_candidates@).to_set() == self.gc@.candidates.dom(),
            key_pairs(r.gc_roots@).to_set() == self.gc@.roots,
            texts(r.gc_unsafe_repos@).to_set() == self.gc@.unsafe_repos,
    {
        let dedupe = self.dedupe.entries();
        proof {
            let pairs = key_pairs(dedupe@);
            let m = self.dedupe.locations();
            assert forall|a: int, b: int| 0 <= a < b < pairs.len() implies #[trigger] pairs[a].0
                != #[trigger] pairs[b].0 by {
                assert(dedupe@[a].0@ != dedupe@[b].0@);
            }
            lemma_located_all(pairs);
            assert forall|d: Text| #[trigger] located_all(
                Map::empty(),
                true,
                pairs,
            ).contains_key(d) <==> m.contains_key(d) by {
                if m.contains_key(d) {
                    assert(pairs.contains((d, m[d])));
                    let i = choose|i: int| 0 <= i < pairs.len() && pairs[i] == (d, m[d]);
                    assert(pairs[i].0 == d);
                }
                if located_all(Map::empty(), true, pairs).contains_key(d) {
                    let i = choose|i: int|
                        #![trigger pairs[i]]
                        0 <= i < pairs.len() && pairs[i].0 == d;
                    assert(pairs.contains((d, pairs[i].1)));
                }
            }
            assert forall|d: Text| m.contains_key(d) implies #[trigger] located_all(
                Map::empty(),
                true,
                pairs,
            )[d] == m[d] by {
                assert(pairs.contains((d, m[d])));
                let i = choose|i: int| 0 <= i < pairs.len() && pairs[i] == (d, m[d]);
                assert(pairs[i].0 == d);
            }
            assert(located_all(Map::empty(), true, pairs) =~= m);
        }
        Stamp {
            format_version: FORMAT_VERSION,
            binary_version: binary_version.to_owned(),
            config_hash: config_hash.to_owned(),
            metadata_generation,
            metadata_log_len,
            presence,
            dedupe,
            quota_per_repo,
            quota_total,
            quota_sessions,
            gc_candidates: self.gc.candidate_keys(),
            gc_roots: self.gc.root_keys(),
            gc_unsafe_repos: self.gc.unsafe_repo_names(),
        }
    }
}

/// Locations of different digests are all kept.
proof fn lemma_located_all(pairs: Seq<(Text, Text)>)
    requires
        forall|a: int, b: int|
            #![trigger pairs[a], pairs[b]]
            0 <= a < b < pairs.len() ==> pairs[a].0 != pairs[b].0,
    ensures
        forall|d: Text| #[trigger]
            located_all(Map::empty(), true, pairs).contains_key(d) <==> exists|i: int|
                #![trigger pairs[i]]
                0 <= i < pairs.len() && pairs[i].0 == d,
        forall|i: int|
            #![trigger pairs[i]]
            0 <= i < pairs.len() ==> located_all(Map::empty(), true, pairs)[pairs[i].0]
                == pairs[i].1,
    decreases pairs.len(),
{
    if pairs.len() > 0 {
        let init = pairs.drop_last();
        assert forall|a: int, b: int| 0 <= a < b < init.len() implies #[trigger] init[a].0
            != #[trigger] init[b].0 by {
            assert(pairs[a].0 != pairs[b].0);
        }
        lemma_located_all(init);
        let m = located_all(Map::empty(), true, init);
        let last = pairs.last();
        assert(!m.contains_key(last.0)) by {
            if m.contains_key(last.0) {
                let i = choose|i: int|
                    #![trigger init[i]]
                    0 <= i < init.len() && init[i].0 == last.0;
                assert(pairs[i].0 == pairs[pairs.len() - 1].0);
            }
        }
        let all = located_all(Map::empty(), true, pairs);
        assert(all == m.insert(last.0, last.1));
        assert forall|d: Text| #[trigger] all.contains_key(d) <==> exists|i: int|
            #![trigger pairs[i]]
            0 <= i < pairs.len() && pairs[i].0 == d by {
            if all.contains_key(d) {
                if d == last.0 {
                    assert(pairs[pairs.len() - 1].0 == d);
                } else {
                    let i = choose|i: int|
                        #![trigger init[i]]
                        0 <= i < init.len() && init[i].0 == d;
                    assert(pairs[i].0 == d);
                }
            }
            if exists|i: int| #![trigger pairs[i]] 0 <= i < pairs.len() && pairs[i].0 == d {
                let i = choose|i: int|
                    #![trigger pairs[i]]
                    0 <= i < pairs.len() && pairs[i].0 == d;
                if i < init.len() {
                    assert(init[i].0 == d);
                }
            }
        }
        assert forall|i: int| 0 <= i < pairs.len() implies all[#[trigger] pairs[i].0]
            == pairs[i].1 by {
            if i < init.len() {
                assert(init[i] == pairs[i]);
                assert(pairs[i].0 != pairs[pairs.len() - 1].0);
            }
        }
    }
}

/// A stamp applied to a fresh tracker restores what it was made from: the same
/// roots, the same unsafe repositories and the same candidates, whose grace
/// period starts again.
pub proof fn stamp_restores_the_tracker(
    was: GcModel,
    candidates: Seq<(Text, Text)>,
    roots: Seq<(Text, Text)>,
    unsafe_repos: Seq<Text>,
    now: u64,
)
    requires
        candidates.to_set() == was.candidates.dom(),
        roots.to_set() == was.roots,
        unsafe_repos.to_set() == was.unsafe_repos,
    ensures
        ({
            let fresh = GcModel {
                enabled: true,
                delay: was.delay,
                candidates: Map::empty(),
                ready: false,
                roots: Set::empty(),
                unsafe_repos: Set::empty(),
            };
            let m = restored_gc(fresh, candidates, roots, unsafe_repos, now);
            &&& m.candidates.dom() == was.candidates.dom()
            &&& forall|k: (Text, Text)| #[trigger]
                was.candidates.contains_key(k) ==> m.candidates[k] == now
            &&& m.roots == was.roots
            &&& m.unsafe_repos == was.unsafe_repos
            &&& m.delay == was.delay
            &&& m.ready
        }),
{
    let fresh = GcModel {
        enabled: true,
        delay: was.delay,
        candidates: Map::empty(),
        ready: false,
        roots: Set::empty(),
        unsafe_repos: Set::empty(),
    };
    let m = restored_gc(fresh, candidates, roots, unsafe_repos, now);
    assert(m.candidates.dom() =~= was.candidates.dom());
    assert(m.roots =~= was.roots);
    assert(m.unsafe_repos =~= was.unsafe_repos);
}

} // verus!
