//! How mutations, records, logs and snapshots are written, byte by byte and field
//! by field, and what is read from them.

use crate::hashing::{crc_of, hmac_of};
use crate::json::{parsed, JsonModel, JsonNumberModel};
use crate::layout::reference_laws::{holds, says};
use crate::metadata::codec::{
    json_op, lemma_names, lossy_text, op_json, op_of, string_items, strings_field,
};
use crate::metadata::log::{
    frame, gen_of, intact_end, legacy_ops, len_at, record_at, records, replay_ops, tag_len, tag_of,
};
use crate::metadata::log_store::{
    covered_by, kept_log, log_cut, log_refused, opened_ops, used_snapshot, SnapshotFile,
};
use crate::metadata::model::Op;
use crate::metadata::redb::checksum_bytes;
use crate::metadata::redb_model::checksum_in;
use crate::metadata::snapshot::{
    integrity, label_of, snapshot_body, snapshot_header, SnapshotState,
};
use crate::metadata::table_laws::{artifact_type_is_that_field, typed};
use crate::metadata::wal_hmac::{header_mode, header_payload, mode_for, FramingMode};
use crate::metadata::BlobChecksum;
use crate::text::Text;
use vstd::bytes::{
    lemma_auto_spec_u32_to_from_le_bytes, lemma_auto_spec_u64_to_from_le_bytes,
    spec_u32_from_le_bytes, spec_u32_to_le_bytes, spec_u64_from_le_bytes, spec_u64_to_le_bytes,
};
use vstd::prelude::*;

verus! {

/// A document that is a natural number.
pub open spec fn is_number(v: JsonModel, name: Text, n: int) -> bool {
    v matches JsonModel::Object(o) && o.contains_key(name) && (o[name] matches JsonModel::Number(
        JsonNumberModel::Natural(x),
    ) && x == n)
}

/// The document of a recorded manifest: its kind, repository, digest and media type
/// as strings, its tag as a string or null, its references as a list where there
/// are any, and subject and descriptor where it is a referrer.
pub proof fn manifest_document(
    repo: Text,
    digest: Text,
    media_type: Text,
    tag: Option<Text>,
    references: Seq<Text>,
    referrer: Option<(Text, Seq<u8>)>,
)
    ensures
        ({
            let v = op_json(
                Op::PutManifest { repo, digest, media_type, tag, references, referrer },
            );
            &&& says(v, "op"@, "put_manifest"@)
            &&& says(v, "repo"@, repo)
            &&& says(v, "digest"@, digest)
            &&& says(v, "media_type"@, media_type)
            &&& tag matches Some(t) ==> says(v, "tag"@, t)
            &&& tag is None ==> holds(v, "tag"@, JsonModel::Null)
            &&& references.len() > 0 ==> (v matches JsonModel::Object(o) && o.contains_key(
                "references"@,
            ) && (o["references"@] matches JsonModel::List(l) && l.len() == references.len()
                && forall|i: int|
                #![trigger l[i]]
                0 <= i < l.len() ==> l[i] == JsonModel::Text(references[i])))
            &&& references.len() == 0 ==> !(v matches JsonModel::Object(o) && o.contains_key(
                "references"@,
            ))
            &&& referrer matches Some(r) ==> says(v, "subject"@, r.0) && says(
                v,
                "descriptor"@,
                lossy_text(r.1),
            )
            &&& referrer is None ==> !(v matches JsonModel::Object(o) && (o.contains_key(
                "subject"@,
            ) || o.contains_key("descriptor"@)))
        }),
{
    lemma_names();
}

/// The documents of the other mutations: their kind, and each field under its name.
pub proof fn mutation_documents(
    repo: Text,
    a: Text,
    b: Text,
    blobs: Seq<Text>,
    descriptor: Seq<u8>,
    checksum: BlobChecksum,
)
    ensures
        ({
            let v = op_json(Op::DeleteManifest { repo, digest: a });
            says(v, "op"@, "delete_manifest"@) && says(v, "repo"@, repo) && says(v, "digest"@, a)
        }),
        ({
            let v = op_json(Op::PutReferrer { repo, subject: a, referrer: b, descriptor });
            says(v, "op"@, "put_referrer"@) && says(v, "repo"@, repo) && says(v, "subject"@, a)
                && says(v, "referrer"@, b) && says(v, "descriptor"@, lossy_text(descriptor))
        }),
        ({
            let v = op_json(Op::PutBackrefs { repo, manifest: a, blobs });
            says(v, "op"@, "put_backrefs"@) && says(v, "repo"@, repo) && says(v, "manifest"@, a)
                && (v matches JsonModel::Object(o) && o.contains_key("blobs"@) && (o["blobs"@]
                matches JsonModel::List(l) && l.len() == blobs.len() && forall|i: int|
                #![trigger l[i]]
                0 <= i < l.len() ==> l[i] == JsonModel::Text(blobs[i])))
        }),
        ({
            let v = op_json(Op::PutChecksum { repo, digest: a, checksum });
            says(v, "op"@, "put_checksum"@) && says(v, "repo"@, repo) && says(v, "digest"@, a)
                && is_number(v, "crc32c"@, checksum.crc32c as int) && is_number(
                v,
                "size"@,
                checksum.size as int,
            )
        }),
        ({
            let v = op_json(Op::DeleteBlob { repo, digest: a });
            says(v, "op"@, "delete_blob"@) && says(v, "repo"@, repo) && says(v, "digest"@, a)
        }),
{
    lemma_names();
}

/// The strings of a list, in order; what is no string is passed over.
pub proof fn strings_of_a_list(s: Seq<JsonModel>, item: JsonModel, t: Text)
    ensures
        string_items(Seq::empty()).len() == 0,
        string_items(s.push(JsonModel::Text(t))) == string_items(s).push(t),
        !(item is Text) ==> string_items(s.push(item)) == string_items(s),
{
    assert(s.push(JsonModel::Text(t)).drop_last() =~= s);
    assert(s.push(item).drop_last() =~= s);
}

/// The strings of a field are those of the list it is; other fields have none.
pub proof fn strings_of_a_field(v: JsonModel, name: Text, s: Seq<JsonModel>)
    ensures
        holds(v, name, JsonModel::List(s)) ==> strings_field(v, name) == string_items(s),
        (forall|l: Seq<JsonModel>| !#[trigger] holds(v, name, JsonModel::List(l))) ==> strings_field(
            v,
            name,
        ).len() == 0,
{
    if strings_field(v, name).len() > 0 {
        assert(holds(v, name, JsonModel::List(v->Object_0[name]->List_0)));
    }
}

/// A document is read as a recorded manifest exactly when it says so and names
/// repository, digest and media type; the tag is there when it is a string, the
/// references are the strings listed, and it is a referrer when subject and
/// descriptor are strings.
pub proof fn manifest_is_read_from_its_document(v: JsonModel)
    ensures
        json_op(v) matches Some(Op::PutManifest { .. }) <==> says(v, "op"@, "put_manifest"@) && (
        exists|r: Text, d: Text, m: Text| #[trigger]
            says(v, "repo"@, r) && #[trigger] says(v, "digest"@, d) && #[trigger] says(
                v,
                "media_type"@,
                m,
            )),
        json_op(v) matches Some(
            Op::PutManifest { repo, digest, media_type, tag, references, referrer },
        ) ==> {
            &&& says(v, "repo"@, repo)
            &&& says(v, "digest"@, digest)
            &&& says(v, "media_type"@, media_type)
            &&& tag matches Some(t) ==> says(v, "tag"@, t)
            &&& tag is None ==> forall|t: Text| !#[trigger] says(v, "tag"@, t)
            &&& references == strings_field(v, "references"@)
            &&& referrer matches Some(r) ==> says(v, "subject"@, r.0) && exists|t: Text| #[trigger]
                says(v, "descriptor"@, t) && r.1 == vstd::utf8::encode_utf8(t)
            &&& referrer is None ==> forall|s: Text, t: Text| !(#[trigger] says(v, "subject"@, s)
                && #[trigger] says(v, "descriptor"@, t))
        },
{
    lemma_names();
    if v is Object {
        let o = v->Object_0;
        if let Some(
            Op::PutManifest { repo, digest, media_type, tag, references, referrer },
        ) = json_op(v) {
            assert(says(v, "repo"@, repo) && says(v, "digest"@, digest) && says(
                v,
                "media_type"@,
                media_type,
            ));
            if referrer is Some {
                assert(says(v, "descriptor"@, o["descriptor"@]->Text_0));
            }
        }
    }
}

/// A document is read as one of the other mutations exactly when it says so and
/// has each field in its form.
pub proof fn mutations_are_read_from_their_documents(
    v: JsonModel,
    repo: Text,
    a: Text,
    b: Text,
    t: Text,
    blobs: Seq<Text>,
    checksum: BlobChecksum,
)
    ensures
        json_op(v) == Some(Op::DeleteManifest { repo, digest: a }) <==> says(
            v,
            "op"@,
            "delete_manifest"@,
        ) && says(v, "repo"@, repo) && says(v, "digest"@, a),
        json_op(v) == Some(Op::DeleteBlob { repo, digest: a }) <==> says(
            v,
            "op"@,
            "delete_blob"@,
        ) && says(v, "repo"@, repo) && says(v, "digest"@, a),
        says(v, "op"@, "put_referrer"@) && says(v, "repo"@, repo) && says(v, "subject"@, a) && says(
            v,
            "referrer"@,
            b,
        ) && says(v, "descriptor"@, t) ==> json_op(v) == Some(
            Op::PutReferrer {
                repo,
                subject: a,
                referrer: b,
                descriptor: vstd::utf8::encode_utf8(t),
            },
        ),
        json_op(v) == Some(Op::PutBackrefs { repo, manifest: a, blobs }) <==> says(
            v,
            "op"@,
            "put_backrefs"@,
        ) && says(v, "repo"@, repo) && says(v, "manifest"@, a) && blobs == strings_field(
            v,
            "blobs"@,
        ),
        json_op(v) == Some(Op::PutChecksum { repo, digest: a, checksum }) <==> says(
            v,
            "op"@,
            "put_checksum"@,
        ) && says(v, "repo"@, repo) && says(v, "digest"@, a) && is_number(
            v,
            "crc32c"@,
            checksum.crc32c as int,
        ) && is_number(v, "size"@, checksum.size as int),
{
    lemma_names();
}

/// A document of no known kind, or a referrer without one of its fields, is read as
/// nothing.
pub proof fn other_documents_are_no_mutations(v: JsonModel)
    ensures
        json_op(v) is Some ==> says(v, "op"@, "put_manifest"@) || says(
            v,
            "op"@,
            "delete_manifest"@,
        ) || says(v, "op"@, "put_referrer"@) || says(v, "op"@, "put_backrefs"@) || says(
            v,
            "op"@,
            "put_checksum"@,
        ) || says(v, "op"@, "delete_blob"@),
        says(v, "op"@, "put_referrer"@) && json_op(v) is Some ==> exists|
            repo: Text,
            a: Text,
            b: Text,
            t: Text,
        |
            #[trigger] says(v, "repo"@, repo) && #[trigger] says(v, "subject"@, a)
                && #[trigger] says(v, "referrer"@, b) && #[trigger] says(v, "descriptor"@, t),
{
    lemma_names();
    if says(v, "op"@, "put_referrer"@) && json_op(v) is Some {
        let o = v->Object_0;
        assert(says(v, "repo"@, o["repo"@]->Text_0) && says(v, "subject"@, o["subject"@]->Text_0)
            && says(v, "referrer"@, o["referrer"@]->Text_0) && says(
            v,
            "descriptor"@,
            o["descriptor"@]->Text_0,
        ));
    }
}

/// A payload is read as the mutation that its document spells.
pub proof fn payload_is_read_as_its_document(payload: Seq<u8>, v: JsonModel)
    ensures
        parsed(payload) == Some(v) ==> op_of(payload) == json_op(v),
        parsed(payload) is None ==> op_of(payload) is None,
{
}

/// A generation marker is a document of kind `gen` with a natural number `gen`.
pub proof fn generation_marker_is_its_document(payload: Seq<u8>, g: u64)
    ensures
        gen_of(payload) == Some(g) <==> (parsed(payload) matches Some(v) && says(
            v,
            "op"@,
            "gen"@,
        ) && is_number(v, "gen"@, g as int)),
{
}

/// A record is the length of its payload and the payload's checksum, each in four
/// bytes with the lowest first, then the payload, then the tag of a keyed log.
pub proof fn record_layout(payload: Seq<u8>, key: Option<Seq<u8>>)
    ensures
        ({
            let f = frame(payload, key);
            let n = payload.len() as int;
            &&& f.len() == 8 + n + tag_of(payload, key).len()
            &&& f.subrange(0, 4) == spec_u32_to_le_bytes(payload.len() as u32)
            &&& f.subrange(4, 8) == spec_u32_to_le_bytes(crc_of(payload))
            &&& f.subrange(8, 8 + n) == payload
            &&& key matches Some(k) ==> f.skip(8 + n) == hmac_of(k, payload)
            &&& key is None ==> f.len() == 8 + n
        }),
{
    lemma_auto_spec_u32_to_from_le_bytes();
    let f = frame(payload, key);
    let n = payload.len() as int;
    assert(spec_u32_to_le_bytes(payload.len() as u32).len() == 4);
    assert(spec_u32_to_le_bytes(crc_of(payload)).len() == 4);
    assert(f.subrange(0, 4) =~= spec_u32_to_le_bytes(payload.len() as u32));
    assert(f.subrange(4, 8) =~= spec_u32_to_le_bytes(crc_of(payload)));
    assert(f.subrange(8, 8 + n) =~= payload);
    assert(f.skip(8 + n) =~= tag_of(payload, key));
}

/// Whatever is read as a record is one, byte for byte.
pub proof fn only_records_are_read(bytes: Seq<u8>, pos: int, key: Option<Seq<u8>>)
    requires
        0 <= pos,
    ensures
        record_at(bytes, pos, key) matches Some((payload, end)) ==> pos + 8 <= end <= bytes.len()
            && payload.len() <= u32::MAX && bytes.subrange(pos, end) == frame(payload, key),
{
    lemma_auto_spec_u32_to_from_le_bytes();
    if let Some((payload, end)) = record_at(bytes, pos, key) {
        let n = len_at(bytes, pos);
        let f = frame(payload, key);
        let len = bytes.subrange(pos, pos + 4);
        let crc = bytes.subrange(pos + 4, pos + 8);
        assert(payload.len() == n);
        assert(spec_u32_to_le_bytes(spec_u32_from_le_bytes(len)) == len);
        assert(spec_u32_to_le_bytes(spec_u32_from_le_bytes(crc)) == crc);
        let tag = bytes.subrange(pos + 8 + n, end);
        assert(tag =~= tag_of(payload, key));
        assert(bytes.subrange(pos, end) =~= len + crc + payload + tag);
    }
}

/// Reading goes on from the end of each record, and ends where no record stands.
pub proof fn records_follow_each_other(bytes: Seq<u8>, pos: int, key: Option<Seq<u8>>)
    requires
        0 <= pos,
    ensures
        record_at(bytes, pos, key) is None ==> records(bytes, pos, key).len() == 0 && intact_end(
            bytes,
            pos,
            key,
        ) == pos,
        record_at(bytes, pos, key) matches Some((payload, end)) ==> records(bytes, pos, key).len()
            > 0 && records(bytes, pos, key)[0] == (pos, payload) && records(
            bytes,
            pos,
            key,
        ).drop_first() == records(bytes, end, key) && intact_end(bytes, pos, key) == intact_end(
            bytes,
            end,
            key,
        ),
        pos <= bytes.len() ==> intact_end(bytes, pos, key) <= bytes.len(),
        intact_end(bytes, pos, key) >= pos,
        record_at(bytes, intact_end(bytes, pos, key), key) is None,
    decreases bytes.len() - pos,
{
    lemma_auto_spec_u32_to_from_le_bytes();
    if let Some((payload, end)) = record_at(bytes, pos, key) {
        assert(end > pos);
        records_follow_each_other(bytes, end, key);
        let all = records(bytes, pos, key);
        assert(all.drop_first() =~= records(bytes, end, key));
    }
}

/// A header is the nine bytes of the magic word and the byte of its mode, and
/// nothing else is read as one.
pub proof fn header_layout(payload: Seq<u8>)
    ensures
        ({
            let magic = seq![0x72u8, 0x6f, 0x63, 0x69, 0x2d, 0x77, 0x61, 0x6c, 0x00];
            &&& header_payload(FramingMode::Plain) == magic.push(0)
            &&& header_payload(FramingMode::HmacSha256) == magic.push(1)
            &&& header_mode(payload) == Some(FramingMode::Plain) <==> payload.len() >= 10
                && payload.take(9) == magic && payload[9] == 0
            &&& header_mode(payload) == Some(FramingMode::HmacSha256) <==> payload.len() >= 10
                && payload.take(9) == magic && payload[9] == 1
        }),
        mode_for(None) == FramingMode::Plain,
        mode_for(Some(payload)) == FramingMode::HmacSha256,
        tag_len(None) == 0,
        tag_len(Some(payload)) == 32,
{
}

/// The log begins with a header.
pub open spec fn has_header(bytes: Seq<u8>) -> bool {
    record_at(bytes, 0, None) matches Some((p, _)) && header_mode(p) is Some
}

/// A log is refused only for what its header says: one without a header is refused
/// with a key and read as it stands without; one of another mode, or whose header
/// the key does not tag, is refused; no log, and an empty one, never is.
pub proof fn log_is_refused_by_its_header(
    bytes: Seq<u8>,
    key: Option<Seq<u8>>,
    covered: Option<(u64, u64)>,
)
    ensures
        !log_refused(None, key),
        !log_refused(Some(Seq::empty()), key),
        bytes.len() > 0 && !has_header(bytes) ==> (log_refused(Some(bytes), key) <==> key is Some),
        has_header(bytes) ==> (log_refused(Some(bytes), key) <==> {
            let (p, end) = record_at(bytes, 0, None)->0;
            header_mode(p) != Some(mode_for(key)) || (key matches Some(k) && (end + 32 > bytes.len()
                || bytes.subrange(end, end + 32) != hmac_of(k, p)))
        }),
        opened_ops(None, key, covered).len() == 0,
        log_refused(Some(bytes), key) ==> opened_ops(Some(bytes), key, covered).len() == 0,
        bytes.len() > 0 && !has_header(bytes) && key is None ==> opened_ops(
            Some(bytes),
            key,
            covered,
        ) == legacy_ops(records(bytes, 0, None)),
        has_header(bytes) && !log_refused(Some(bytes), key) ==> opened_ops(Some(bytes), key, covered)
            == replay_ops(records(bytes, 0, key), 0, 0, covered),
{
    if has_header(bytes) {
        assert(bytes.len() > 0);
    }
}

/// Of a log that is used everything is kept up to where its intact records end, and
/// it is cut there when anything follows; nothing is kept of a log that is refused,
/// and it is not cut.
pub proof fn log_is_kept_up_to_its_last_record(bytes: Seq<u8>, key: Option<Seq<u8>>)
    requires
        bytes.len() <= u64::MAX,
    ensures
        kept_log(None, key).len() == 0,
        log_cut(None, key) is None,
        log_refused(Some(bytes), key) ==> kept_log(Some(bytes), key).len() == 0 && log_cut(
            Some(bytes),
            key,
        ) is None,
        !log_refused(Some(bytes), key) ==> {
            let n = intact_end(bytes, 0, key);
            &&& kept_log(Some(bytes), key) == bytes.subrange(0, n)
            &&& n == bytes.len() ==> log_cut(Some(bytes), key) is None
            &&& n < bytes.len() ==> (log_cut(Some(bytes), key) matches Some(c) && c == n)
        },
{
    records_follow_each_other(bytes, 0, key);
}

/// Records are read one by one: each mutation in its place, and what spells none is
/// passed over. A log without a generation is replayed like that behind its head.
pub proof fn records_are_replayed_one_by_one(
    a: Seq<(int, Seq<u8>)>,
    b: Seq<(int, Seq<u8>)>,
    r: (int, Seq<u8>),
    index: nat,
    generation: u64,
)
    ensures
        legacy_ops(Seq::empty()).len() == 0,
        legacy_ops(a + b) == legacy_ops(a) + legacy_ops(b),
        op_of(r.1) matches Some(op) ==> legacy_ops(seq![r]) == seq![op],
        op_of(r.1) is None ==> legacy_ops(seq![r]).len() == 0,
        index >= 2 ==> replay_ops(a, index, generation, None) == legacy_ops(a),
    decreases a.len(),
{
    assert(seq![r].drop_first() =~= Seq::<(int, Seq<u8>)>::empty());
    assert(legacy_ops(Seq::empty()) =~= Seq::<Op>::empty());
    assert(legacy_ops(seq![r].drop_first()) =~= Seq::<Op>::empty());
    if op_of(r.1) is Some {
        assert(legacy_ops(seq![r]) =~= seq![op_of(r.1)->0]);
    }
    if a.len() == 0 {
        assert(a + b =~= b);
        assert(legacy_ops(a) + legacy_ops(b) =~= legacy_ops(b));
    } else {
        records_are_replayed_one_by_one(a.drop_first(), b, r, index + 1, generation);
        assert((a + b).drop_first() =~= a.drop_first() + b);
        assert((a + b)[0] == a[0]);
        assert(legacy_ops(a + b) =~= legacy_ops(a) + legacy_ops(b));
    }
}

/// With a snapshot, a log of another generation contributes nothing behind its head,
/// and of one of the same generation only the records from the snapshot's offset on
/// do.
pub proof fn snapshot_covers_the_start_of_its_log(
    recs: Seq<(int, Seq<u8>)>,
    index: nat,
    generation: u64,
    of: u64,
    offset: u64,
)
    requires
        index >= 2,
    ensures
        generation != of ==> replay_ops(recs, index, generation, Some((of, offset))).len() == 0,
        generation == of && (forall|i: int|
            #![trigger recs[i]]
            0 <= i < recs.len() ==> recs[i].0 >= offset) ==> replay_ops(
            recs,
            index,
            generation,
            Some((of, offset)),
        ) == legacy_ops(recs),
        generation == of && (forall|i: int|
            #![trigger recs[i]]
            0 <= i < recs.len() ==> recs[i].0 < offset) ==> replay_ops(
            recs,
            index,
            generation,
            Some((of, offset)),
        ).len() == 0,
    decreases recs.len(),
{
    if recs.len() > 0 {
        let rest = recs.drop_first();
        assert(recs[0] == recs[0]);
        assert forall|i: int| #![trigger rest[i]] 0 <= i < rest.len() implies rest[i] == recs[i
            + 1] by {}
        snapshot_covers_the_start_of_its_log(rest, index + 1, generation, of, offset);
    }
}

/// A snapshot counts only where it was verified and snapshots are on; it covers the
/// log of its generation up to its offset.
pub proof fn only_a_verified_snapshot_is_used(s: SnapshotState, enabled: bool)
    ensures
        used_snapshot(SnapshotFile::Missing, enabled) is None,
        used_snapshot(SnapshotFile::Invalid, enabled) is None,
        used_snapshot(SnapshotFile::Valid(s), false) is None,
        used_snapshot(SnapshotFile::Valid(s), true) == Some(s),
        covered_by(Some(s)) == Some((s.generation, s.log_offset)),
        covered_by(None) is None,
{
}

/// A snapshot's header: the magic word, the version and the length of the body with
/// the lowest byte first, the integrity field, and four bytes of zero.
pub proof fn snapshot_layout(body: Seq<u8>, key: Option<Seq<u8>>)
    requires
        body.len() <= u64::MAX,
        integrity(body, key).len() == 32,
    ensures
        ({
            let h = snapshot_header(body, key);
            &&& h.len() == 56
            &&& h.subrange(0, 8) == seq![0x72u8, 0x6f, 0x63, 0x69, 0x73, 0x6e, 0x61, 0x70]
            &&& h.subrange(8, 12) == spec_u32_to_le_bytes(1)
            &&& h.subrange(12, 20) == spec_u64_to_le_bytes(body.len() as u64)
            &&& h.subrange(20, 52) == integrity(body, key)
            &&& h.subrange(52, 56) == seq![0u8, 0, 0, 0]
            &&& key matches Some(k) ==> integrity(body, key) == hmac_of(k, body)
            &&& key is None ==> integrity(body, key).subrange(0, 4) == spec_u32_to_le_bytes(
                crc_of(body),
            ) && forall|i: int|
                #![trigger integrity(body, key)[i]]
                4 <= i < 32 ==> integrity(body, key)[i] == 0
        }),
{
    lemma_auto_spec_u32_to_from_le_bytes();
    lemma_auto_spec_u64_to_from_le_bytes();
    let h = snapshot_header(body, key);
    assert(spec_u32_to_le_bytes(1).len() == 4);
    assert(spec_u64_to_le_bytes(body.len() as u64).len() == 8);
    assert(spec_u32_to_le_bytes(crc_of(body)).len() == 4);
    assert(h.subrange(0, 8) =~= seq![0x72u8, 0x6f, 0x63, 0x69, 0x73, 0x6e, 0x61, 0x70]);
    assert(h.subrange(8, 12) =~= spec_u32_to_le_bytes(1));
    assert(h.subrange(12, 20) =~= spec_u64_to_le_bytes(body.len() as u64));
    assert(h.subrange(20, 52) =~= integrity(body, key));
    assert(h.subrange(52, 56) =~= seq![0u8, 0, 0, 0]);
    if key is None {
        assert(integrity(body, key).subrange(0, 4) =~= spec_u32_to_le_bytes(crc_of(body)));
    }
}

/// A snapshot is refused for the first thing that is wrong with it: its length, its
/// magic word, its version, the length of its body, its integrity. Whatever is
/// accepted stands behind a header that vouches for it.
pub proof fn snapshot_is_refused_for_what_is_wrong(data: Seq<u8>, key: Option<Seq<u8>>)
    ensures
        ({
            let magic = seq![0x72u8, 0x6f, 0x63, 0x69, 0x73, 0x6e, 0x61, 0x70];
            let version = spec_u32_from_le_bytes(data.subrange(8, 12));
            let n = spec_u64_from_le_bytes(data.subrange(12, 20));
            let body = data.subrange(56, 56 + n);
            &&& data.len() < 56 ==> snapshot_body(data, key) == Err::<Seq<u8>, Text>(
                "snapshot too small for header"@,
            )
            &&& data.len() >= 56 && data.subrange(0, 8) != magic ==> snapshot_body(data, key)
                == Err::<Seq<u8>, Text>("bad snapshot magic"@)
            &&& data.len() >= 56 && data.subrange(0, 8) == magic && version != 1 ==> snapshot_body(
                data,
                key,
            ) == Err::<Seq<u8>, Text>("unsupported snapshot version"@)
            &&& data.len() >= 56 && data.subrange(0, 8) == magic && version == 1 && 56 + n
                > data.len() ==> snapshot_body(data, key) == Err::<Seq<u8>, Text>(
                "snapshot body truncated"@,
            )
            &&& data.len() >= 56 && data.subrange(0, 8) == magic && version == 1 && 56 + n
                <= data.len() && data.subrange(20, 52) != integrity(body, key) ==> snapshot_body(
                data,
                key,
            ) == Err::<Seq<u8>, Text>("snapshot integrity check failed"@)
            &&& data.len() >= 56 && data.subrange(0, 8) == magic && version == 1 && 56 + n
                <= data.len() && data.subrange(20, 52) == integrity(body, key) ==> snapshot_body(
                data,
                key,
            ) == Ok::<Seq<u8>, Text>(body)
        }),
{
    assert(data.take(8) =~= data.subrange(0, 8));
}

/// What stands for a descriptor's artifact type in a snapshot row: the type, and the
/// empty text for none.
pub proof fn snapshot_rows_carry_the_artifact_type(descriptor: Seq<u8>, t: Text)
    ensures
        typed(descriptor, t) ==> label_of(descriptor) == t,
        (forall|x: Text| !#[trigger] typed(descriptor, x)) ==> label_of(descriptor).len() == 0,
{
    artifact_type_is_that_field(descriptor, t);
}

/// What a snapshot holds is what its rows say.
pub proof fn snapshot_holds_its_rows(
    s: SnapshotState,
    k: (Text, Text),
    r: (Text, Text, Text),
    i: int,
)
    ensures
        s.tables().tags.contains_key(k) <==> s.tags.map().contains_key(k),
        s.tags.map().contains_key(k) ==> s.tables().tags[k] == (
            s.tags.map()[k].0@,
            s.tags.map()[k].1@,
        ),
        s.tables().media_types.contains_key(k) <==> s.media_types.map().contains_key(k),
        s.media_types.map().contains_key(k) ==> s.tables().media_types[k]
            == s.media_types.map()[k]@,
        s.tables().referrers.contains_key(r) <==> s.referrers.map().contains_key(r),
        s.referrers.map().contains_key(r) ==> s.tables().referrers[r] == s.referrers.map()[r].1@
            && s.labels()[r] == s.referrers.map()[r].0@,
        s.tables().backrefs.contains_key(k) <==> s.backrefs.map().contains_key(k),
        s.backrefs.map().contains_key(k) ==> s.tables().backrefs[k].len()
            == s.backrefs.map()[k]@.len() && (0 <= i < s.backrefs.map()[k]@.len()
            ==> s.tables().backrefs[k][i] == s.backrefs.map()[k]@[i]@),
        s.tables().checksums == s.checksums.map(),
{
}

/// A stored checksum is twelve bytes: the checksum and the size, each with the
/// lowest byte first.
pub proof fn checksum_layout(crc: u32, size: u64, bytes: Seq<u8>)
    ensures
        checksum_bytes(crc, size).len() == 12,
        checksum_bytes(crc, size).subrange(0, 4) == spec_u32_to_le_bytes(crc),
        checksum_bytes(crc, size).subrange(4, 12) == spec_u64_to_le_bytes(size),
        checksum_in(bytes).crc32c == spec_u32_from_le_bytes(bytes.subrange(0, 4)),
        checksum_in(bytes).size == spec_u64_from_le_bytes(bytes.subrange(4, 12)),
{
    lemma_auto_spec_u32_to_from_le_bytes();
    lemma_auto_spec_u64_to_from_le_bytes();
    assert(spec_u32_to_le_bytes(crc).len() == 4);
    assert(spec_u64_to_le_bytes(size).len() == 8);
    assert(checksum_bytes(crc, size).subrange(0, 4) =~= spec_u32_to_le_bytes(crc));
    assert(checksum_bytes(crc, size).subrange(4, 12) =~= spec_u64_to_le_bytes(size));
}

} // verus!
