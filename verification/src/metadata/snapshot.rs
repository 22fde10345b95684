//! The snapshot: the complete index state cut at one point of the log.
//!
//! A snapshot file is `[8 B magic] [u32 LE version] [u64 LE body length]
//! [32 B integrity] [4 B zero] [body]`. The integrity field is an HMAC-SHA256
//! when a key is configured, and otherwise a CRC32C followed by zeros.

use crate::hashing::{changed_byte_changes_the_checksum, crc_call, crc_of, hmac_of};
use crate::lists::has_text;
use crate::metadata::log::{extend, same_bytes};
use crate::metadata::model::{backrefs_at, backrefs_ok, no_tables, with_backref, Tables};
use crate::metadata::referrers::artifact_type_of;
use crate::metadata::wal_hmac::{key_bytes, HmacKey};
use crate::metadata::BlobChecksum;
use crate::page::texts;
use crate::table::Table;
use crate::text::Text;
use vstd::bytes::{
    lemma_auto_spec_u32_to_from_le_bytes, lemma_auto_spec_u64_to_from_le_bytes,
    spec_u32_from_le_bytes, spec_u32_to_le_bytes, spec_u64_from_le_bytes, spec_u64_to_le_bytes,
    u32_from_le_bytes, u32_to_le_bytes, u64_from_le_bytes, u64_to_le_bytes,
};
use vstd::prelude::*;
use vstd::slice::slice_subrange;

verus! {

/// A complete, standalone copy of the index, in sorted rows.
#[derive(Debug)]
pub struct SnapshotState {
    /// `(repo, tag)` to `(digest, media type)`.
    pub tags: Table<(String, String), (String, String)>,
    /// `(repo, digest)` to media type.
    pub media_types: Table<(String, String), String>,
    /// `(repo, subject, referrer)` to artifact type (empty when it has none)
    /// and descriptor.
    pub referrers: Table<(String, String, String), (String, Vec<u8>)>,
    /// `(repo, blob)` to the manifests that reference it.
    pub backrefs: Table<(String, String), Vec<String>>,
    /// `(repo, digest)` to checksum.
    pub checksums: Table<(String, String), BlobChecksum>,
    /// A log of another generation is covered by this snapshot.
    pub generation: u64,
    /// How far into the log of the same generation this snapshot reaches.
    pub log_offset: u64,
}

/// What stands for a descriptor's artifact type: the empty text for none.
pub open spec fn label_of(descriptor: Seq<u8>) -> Text {
    match artifact_type_of(descriptor) {
        Some(t) => t,
        None => Seq::empty(),
    }
}

/// The model of a tag row.
pub open spec fn tag_rows(m: Map<(Text, Text), (String, String)>) -> Map<
    (Text, Text),
    (Text, Text),
> {
    m.map_values(|v: (String, String)| (v.0@, v.1@))
}

/// The model of a media type row.
pub open spec fn media_rows(m: Map<(Text, Text), String>) -> Map<(Text, Text), Text> {
    m.map_values(|v: String| v@)
}

/// The model of a backref row.
pub open spec fn backref_rows(m: Map<(Text, Text), Vec<String>>) -> Map<(Text, Text), Seq<Text>> {
    m.map_values(|v: Vec<String>| texts(v@))
}

impl SnapshotState {
    /// Every table is in order, and every backref entry names manifests, each
    /// once.
    pub open spec fn wf(self) -> bool {
        &&& self.tags.wf()
        &&& self.media_types.wf()
        &&& self.referrers.wf()
        &&& self.backrefs.wf()
        &&& self.checksums.wf()
        &&& backrefs_ok(self.tables().backrefs)
    }

    /// What the snapshot holds.
    pub open spec fn tables(self) -> Tables {
        Tables {
            tags: tag_rows(self.tags.map()),
            media_types: media_rows(self.media_types.map()),
            referrers: self.referrers.map().map_values(|v: (String, Vec<u8>)| v.1@),
            backrefs: backref_rows(self.backrefs.map()),
            checksums: self.checksums.map(),
        }
    }

    /// The artifact type kept with each referrer, empty for none.
    pub open spec fn labels(self) -> Map<(Text, Text, Text), Text> {
        self.referrers.map().map_values(|v: (String, Vec<u8>)| v.0@)
    }

    /// A snapshot that holds nothing.
    pub fn empty(generation: u64, log_offset: u64) -> (r: SnapshotState)
        ensures
            r.wf(),
            r.tables() == no_tables(),
            r.labels() == Map::<(Text, Text, Text), Text>::empty(),
            r.generation == generation,
            r.log_offset == log_offset,
    {
        let r = SnapshotState {
            tags: Table::new(),
            media_types: Table::new(),
            referrers: Table::new(),
            backrefs: Table::new(),
            checksums: Table::new(),
            generation,
            log_offset,
        };
        assert(r.tables() =~= no_tables());
        assert(r.labels() =~= Map::empty());
        r
    }

    /// Adds a tag row.
    pub fn put_tag(&mut self, repo: String, tag: String, digest: String, media_type: String)
        requires
            old(self).wf(),
        ensures
            final(self).wf(),
            final(self).tables() == (Tables {
                tags: old(self).tables().tags.insert((repo@, tag@), (digest@, media_type@)),
                ..old(self).tables()
            }),
            final(self).labels() == old(self).labels(),
            final(self).generation == old(self).generation,
            final(self).log_offset == old(self).log_offset,
    {
        let ghost was = self.tables();
        self.tags.insert((repo, tag), (digest, media_type));
        assert(self.tables().tags =~= was.tags.insert((repo@, tag@), (digest@, media_type@)));
    }

    /// Adds a media type row.
    pub fn put_media_type(&mut self, repo: String, digest: String, media_type: String)
        requires
            old(self).wf(),
        ensures
            final(self).wf(),
            final(self).tables() == (Tables {
                media_types: old(self).tables().media_types.insert(
                    (repo@, digest@),
                    media_type@,
                ),
                ..old(self).tables()
            }),
            final(self).labels() == old(self).labels(),
            final(self).generation == old(self).generation,
            final(self).log_offset == old(self).log_offset,
    {
        let ghost was = self.tables();
        self.media_types.insert((repo, digest), media_type);
        assert(self.tables().media_types =~= was.media_types.insert(
            (repo@, digest@),
            media_type@,
        ));
    }

    /// Adds a referrer row; `artifact_type` is empty when there is none.
    pub fn put_referrer(
        &mut self,
        repo: String,
        subject: String,
        referrer: String,
        artifact_type: String,
        descriptor: Vec<u8>,
    )
        requires
            old(self).wf(),
        ensures
            final(self).wf(),
            final(self).tables() == (Tables {
                referrers: old(self).tables().referrers.insert(
                    (repo@, subject@, referrer@),
                    descriptor@,
                ),
                ..old(self).tables()
            }),
            final(self).labels() == old(self).labels().insert(
                (repo@, subject@, referrer@),
                artifact_type@,
            ),
            final(self).generation == old(self).generation,
            final(self).log_offset == old(self).log_offset,
    {
        let ghost was = self.tables();
        let ghost labels = self.labels();
        self.referrers.insert((repo, subject, referrer), (artifact_type, descriptor));
        assert(self.labels() =~= labels.insert((repo@, subject@, referrer@), artifact_type@));
        assert(self.tables().referrers =~= was.referrers.insert(
            (repo@, subject@, referrer@),
            descriptor@,
        ));
    }

    /// Adds one manifest to a blob's row.
    pub fn put_backref(&mut self, repo: String, blob: String, manifest: String)
        requires
            old(self).wf(),
        ensures
            final(self).wf(),
            final(self).tables() == (Tables {
                backrefs: with_backref(old(self).tables().backrefs, repo@, manifest@, blob@),
                ..old(self).tables()
            }),
            final(self).labels() == old(self).labels(),
            final(self).generation == old(self).generation,
            final(self).log_offset == old(self).log_offset,
    {
        let ghost was = self.tables();
        let ghost k = (repo@, blob@);
        let ghost key = (repo, blob);
        let ghost held = backrefs_at(was.backrefs, k);
        assert(key.deep_view() == k);
        proof {
            if was.backrefs.contains_key(k) {
                assert(was.backrefs[k].no_duplicates());
            }
        }
        let list = self.backrefs.entry((repo, blob), Vec::new());
        assert(texts(list@) =~= held);
        if !has_text(list, manifest.as_str()) {
            list.push(manifest);
            assert(texts(list@) =~= held.push(manifest@));
            assert(held.push(manifest@).no_duplicates());
        }
        proof {
            let now = self.tables();
            assert(now.backrefs =~= with_backref(was.backrefs, k.0, manifest@, k.1));
            assert forall|x: (Text, Text)|
                #![trigger now.backrefs[x]]
                now.backrefs.contains_key(x) implies now.backrefs[x].len() > 0
                && now.backrefs[x].no_duplicates() by {
                if x != k {
                    assert(was.backrefs.contains_key(x) && was.backrefs[x] == now.backrefs[x]);
                }
            }
        }
    }

    /// Adds a checksum row.
    pub fn put_checksum(&mut self, repo: String, digest: String, checksum: BlobChecksum)
        requires
            old(self).wf(),
        ensures
            final(self).wf(),
            final(self).tables() == (Tables {
                checksums: old(self).tables().checksums.insert((repo@, digest@), checksum),
                ..old(self).tables()
            }),
            final(self).labels() == old(self).labels(),
            final(self).generation == old(self).generation,
            final(self).log_offset == old(self).log_offset,
    {
        self.checksums.insert((repo, digest), checksum);
    }
}

/// The version of the snapshot format.
pub const VERSION: u32 = 1;

/// How many bytes stand before the body.
pub const HEADER_SIZE: usize = 56;

/// The first bytes of a snapshot: `rocisnap`.
pub open spec fn snapshot_magic() -> Seq<u8> {
    seq![0x72u8, 0x6f, 0x63, 0x69, 0x73, 0x6e, 0x61, 0x70]
}

/// The integrity field over a body.
pub open spec fn integrity(body: Seq<u8>, key: Option<Seq<u8>>) -> Seq<u8> {
    match key {
        Some(k) => hmac_of(k, body),
        None => spec_u32_to_le_bytes(crc_of(body)) + seq![0u8; 28],
    }
}

/// The header over a body.
pub open spec fn snapshot_header(body: Seq<u8>, key: Option<Seq<u8>>) -> Seq<u8> {
    snapshot_magic() + spec_u32_to_le_bytes(VERSION) + spec_u64_to_le_bytes(body.len() as u64)
        + integrity(body, key) + seq![0u8; 4]
}

/// The body that a header vouches for, or why it does not.
pub open spec fn snapshot_body(data: Seq<u8>, key: Option<Seq<u8>>) -> Result<Seq<u8>, Text> {
    if data.len() < HEADER_SIZE {
        Err("snapshot too small for header"@)
    } else if data.take(8) != snapshot_magic() {
        Err("bad snapshot magic"@)
    } else if spec_u32_from_le_bytes(data.subrange(8, 12)) != VERSION {
        Err("unsupported snapshot version"@)
    } else {
        let len = spec_u64_from_le_bytes(data.subrange(12, 20)) as int;
        if HEADER_SIZE + len > data.len() {
            Err("snapshot body truncated"@)
        } else {
            let body = data.subrange(HEADER_SIZE as int, HEADER_SIZE + len);
            if data.subrange(20, 52) != integrity(body, key) {
                Err("snapshot integrity check failed"@)
            } else {
                Ok(body)
            }
        }
    }
}

/// `n` zero bytes.
fn zeros(n: usize) -> (r: Vec<u8>)
    ensures
        r@ == Seq::new(n as nat, |i: int| 0u8),
{
    let mut out: Vec<u8> = Vec::new();
    let mut i: usize = 0;
    while i < n
        invariant
            i <= n,
            out@ == Seq::new(i as nat, |j: int| 0u8),
        decreases n - i,
    {
        out.push(0);
        i += 1;
        assert(out@ =~= Seq::new(i as nat, |j: int| 0u8));
    }
    out
}

/// Computes the integrity field over a body.
pub fn integrity_of(body: &[u8], key: Option<&HmacKey>) -> (r: Vec<u8>)
    ensures
        r@ == integrity(body@, key_bytes(key)),
        r@.len() == 32,
{
    match key {
        Some(k) => k.tag(body),
        None => {
            let mut out = u32_to_le_bytes(crc_call(body));
            let pad = zeros(28);
            assert(pad@ =~= seq![0u8; 28]);
            extend(&mut out, pad.as_slice());
            out
        },
    }
}

/// The first bytes of a snapshot.
fn magic() -> (r: Vec<u8>)
    ensures
        r@ == snapshot_magic(),
{
    let r: Vec<u8> = vec![0x72, 0x6f, 0x63, 0x69, 0x73, 0x6e, 0x61, 0x70];
    assert(r@ =~= snapshot_magic());
    r
}

/// Encodes the header over a body.
pub fn encode_header(body: &[u8], key: Option<&HmacKey>) -> (r: Vec<u8>)
    ensures
        r@ == snapshot_header(body@, key_bytes(key)),
        r@.len() == HEADER_SIZE,
        snapshot_body(r@ + body@, key_bytes(key)) == Ok::<Seq<u8>, Text>(body@),
{
    let mut out = magic();
    let version = u32_to_le_bytes(VERSION);
    extend(&mut out, version.as_slice());
    let len = u64_to_le_bytes(body.len() as u64);
    extend(&mut out, len.as_slice());
    let tag = integrity_of(body, key);
    extend(&mut out, tag.as_slice());
    let pad = zeros(4);
    assert(pad@ =~= seq![0u8; 4]);
    extend(&mut out, pad.as_slice());
    proof {
        snapshot_reads_back(body@, Seq::empty(), key_bytes(key));
        assert(out@ + body@ + Seq::<u8>::empty() =~= out@ + body@);
    }
    out
}

/// Checks a snapshot's header against its body and hands the body out.
pub fn verify_header<'a>(data: &'a [u8], key: Option<&HmacKey>) -> (r: Result<&'a [u8], &'static str>)
    ensures
        (match r {
            Ok(body) => Ok::<Seq<u8>, Text>(body@),
            Err(reason) => Err::<Seq<u8>, Text>(reason@),
        }) == snapshot_body(data@, key_bytes(key)),
{
    if data.len() < HEADER_SIZE {
        return Err("snapshot too small for header");
    }
    let magic = magic();
    assert(data@.subrange(0, 8) =~= data@.take(8));
    if !same_bytes(slice_subrange(data, 0, 8), magic.as_slice()) {
        return Err("bad snapshot magic");
    }
    if u32_from_le_bytes(slice_subrange(data, 8, 12)) != VERSION {
        return Err("unsupported snapshot version");
    }
    let len: u64 = u64_from_le_bytes(slice_subrange(data, 12, 20));
    let room: usize = data.len() - HEADER_SIZE;
    if len > room as u64 {
        return Err("snapshot body truncated");
    }
    let end: usize = HEADER_SIZE + len as usize;
    let body = slice_subrange(data, HEADER_SIZE, end);
    let expected = integrity_of(body, key);
    if !same_bytes(slice_subrange(data, 20, 52), expected.as_slice()) {
        return Err("snapshot integrity check failed");
    }
    Ok(body)
}

/// A header in front of its body is accepted, and the body comes back, whatever
/// stands behind it.
pub proof fn snapshot_reads_back(body: Seq<u8>, tail: Seq<u8>, key: Option<Seq<u8>>)
    requires
        body.len() <= u64::MAX,
        integrity(body, key).len() == 32,
    ensures
        snapshot_header(body, key).len() == HEADER_SIZE,
        snapshot_body(snapshot_header(body, key) + body + tail, key) == Ok::<Seq<u8>, Text>(body),
{
    lemma_auto_spec_u32_to_from_le_bytes();
    lemma_auto_spec_u64_to_from_le_bytes();
    let version = spec_u32_to_le_bytes(VERSION);
    let len = spec_u64_to_le_bytes(body.len() as u64);
    let data = snapshot_header(body, key) + body + tail;
    assert(data.take(8) =~= snapshot_magic());
    assert(data.subrange(8, 12) =~= version);
    assert(data.subrange(12, 20) =~= len);
    assert(data.subrange(20, 52) =~= integrity(body, key));
    assert(data.subrange(56, 56 + body.len() as int) =~= body);
}

/// A snapshot with any byte of its magic, version or integrity field changed is
/// refused, and without a key so is one with any byte of its body changed.
pub proof fn altered_snapshot_is_refused(
    body: Seq<u8>,
    tail: Seq<u8>,
    key: Option<Seq<u8>>,
    i: int,
    b: u8,
)
    requires
        body.len() <= u64::MAX,
        integrity(body, key).len() == 32,
        0 <= i < 12 || 20 <= i < 52 || key is None && HEADER_SIZE <= i < HEADER_SIZE + body.len(),
        b != (snapshot_header(body, key) + body + tail)[i],
    ensures
        snapshot_body((snapshot_header(body, key) + body + tail).update(i, b), key) is Err,
{
    lemma_auto_spec_u32_to_from_le_bytes();
    lemma_auto_spec_u64_to_from_le_bytes();
    let version = spec_u32_to_le_bytes(VERSION);
    let len = spec_u64_to_le_bytes(body.len() as u64);
    let data = snapshot_header(body, key) + body + tail;
    let other = data.update(i, b);
    assert(data.take(8) =~= snapshot_magic());
    assert(data.subrange(8, 12) =~= version);
    assert(data.subrange(12, 20) =~= len);
    assert(data.subrange(20, 52) =~= integrity(body, key));
    assert(data.subrange(56, 56 + body.len() as int) =~= body);
    let size = HEADER_SIZE as int;
    if i < 8 {
        assert(other.take(8)[i] != data.take(8)[i]);
    } else if i < 12 {
        assert(other.take(8) =~= data.take(8));
        assert(other.subrange(8, 12)[i - 8] != version[i - 8]);
        let read = spec_u32_from_le_bytes(other.subrange(8, 12));
        assert(spec_u32_to_le_bytes(read) == other.subrange(8, 12));
    } else {
        assert(other.take(8) =~= data.take(8));
        assert(other.subrange(8, 12) =~= version);
        assert(other.subrange(12, 20) =~= len);
        if i < 52 {
            assert(other.subrange(size, size + body.len()) =~= body);
            assert(other.subrange(20, 52)[i - 20] != integrity(body, key)[i - 20]);
        } else {
            let changed = body.update(i - size, b);
            assert(other.subrange(size, size + body.len()) =~= changed);
            assert(other.subrange(20, 52) =~= integrity(body, key));
            changed_byte_changes_the_checksum(body, i - size, b);
            let was = spec_u32_to_le_bytes(crc_of(body));
            let now = spec_u32_to_le_bytes(crc_of(changed));
            assert(integrity(body, key).take(4) =~= was);
            assert(integrity(changed, key).take(4) =~= now);
            assert(spec_u32_from_le_bytes(was) != spec_u32_from_le_bytes(now));
        }
    }
}

} // verus!
