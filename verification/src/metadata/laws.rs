//! What holds of the index as a whole: a log reads back what was written, a torn
//! tail costs nothing before it, a compacted log reproduces the state, and a
//! delta over a base behaves like the merged state.

use crate::hashing::{changed_byte_changes_the_checksum, crc_of};
use crate::json::parsed;
use crate::metadata::codec::{
    lemma_names, op_document_roundtrip, op_json, op_of, op_payload, textual,
};
use crate::metadata::image::{image_head, image_of, op_frames};
use crate::metadata::log::{
    crc_at, frame, gen_of, len_at, marker_payload, record_at, records, replay_ops, tag_len, tag_of,
};
use crate::metadata::model::{apply_deltas, apply_ops, no_delta, no_tables, overlay, Delta, Op};
use crate::metadata::query::overlay_on_nothing;
use crate::metadata::snapshot::SnapshotState;
use crate::metadata::state_laws::{
    backrefs_name_manifests_once, image_reproduces_the_snapshot, lemma_apply_join, tags_known,
};
use crate::metadata::wal_hmac::{header_payload, header_roundtrip, mode_for};
use vstd::bytes::{lemma_auto_spec_u32_to_from_le_bytes, spec_u32_to_le_bytes};
use vstd::prelude::*;

verus! {

/// The length field can hold the payload's length, and the tag has its length.
pub open spec fn framed(payload: Seq<u8>, key: Option<Seq<u8>>) -> bool {
    &&& payload.len() <= u32::MAX
    &&& tag_of(payload, key).len() == tag_len(key)
}

/// A frame written anywhere in a log is read as the record it holds.
pub proof fn frame_reads_back(
    before: Seq<u8>,
    payload: Seq<u8>,
    after: Seq<u8>,
    key: Option<Seq<u8>>,
)
    requires
        framed(payload, key),
    ensures
        record_at(before + frame(payload, key) + after, before.len() as int, key) == Some(
            (payload, (before.len() + frame(payload, key).len()) as int),
        ),
        frame(payload, key).len() == 8 + payload.len() + tag_len(key),
{
    lemma_auto_spec_u32_to_from_le_bytes();
    let bytes = before + frame(payload, key) + after;
    let pos = before.len() as int;
    let n = payload.len() as int;
    let le = spec_u32_to_le_bytes(payload.len() as u32);
    let crc = spec_u32_to_le_bytes(crc_of(payload));
    assert(le.len() == 4 && crc.len() == 4);
    assert(bytes.subrange(pos, pos + 4) =~= le);
    assert(bytes.subrange(pos + 4, pos + 8) =~= crc);
    assert(bytes.subrange(pos + 8, pos + 8 + n) =~= payload);
    assert(bytes.subrange(pos + 8 + n, pos + 8 + n + tag_len(key)) =~= tag_of(payload, key));
}

/// A record with any byte of its payload or of its checksum changed is not read.
pub proof fn altered_record_is_not_read(
    bytes: Seq<u8>,
    pos: int,
    key: Option<Seq<u8>>,
    i: int,
    b: u8,
)
    requires
        0 <= pos,
        record_at(bytes, pos, key) is Some,
        pos + 4 <= i < pos + 8 + len_at(bytes, pos),
        b != bytes[i],
    ensures
        record_at(bytes.update(i, b), pos, key) is None,
{
    lemma_auto_spec_u32_to_from_le_bytes();
    let other = bytes.update(i, b);
    let n = len_at(bytes, pos);
    let payload = bytes.subrange(pos + 8, pos + 8 + n);
    assert(other.subrange(pos, pos + 4) =~= bytes.subrange(pos, pos + 4));
    if i < pos + 8 {
        let stored = bytes.subrange(pos + 4, pos + 8);
        let changed = other.subrange(pos + 4, pos + 8);
        assert(changed[i - pos - 4] != stored[i - pos - 4]);
        assert(spec_u32_to_le_bytes(crc_at(other, pos)) == changed);
        assert(spec_u32_to_le_bytes(crc_at(bytes, pos)) == stored);
        assert(other.subrange(pos + 8, pos + 8 + n) =~= payload);
    } else {
        let at = i - pos - 8;
        assert(other.subrange(pos + 4, pos + 8) =~= bytes.subrange(pos + 4, pos + 8));
        assert(other.subrange(pos + 8, pos + 8 + n) =~= payload.update(at, b));
        changed_byte_changes_the_checksum(payload, at, b);
    }
}

/// A record cut short at the end of a log is not read.
pub proof fn torn_record_is_not_read(
    before: Seq<u8>,
    payload: Seq<u8>,
    cut: int,
    key: Option<Seq<u8>>,
)
    requires
        framed(payload, key),
        0 <= cut < frame(payload, key).len(),
    ensures
        record_at(before + frame(payload, key).take(cut), before.len() as int, key) is None,
{
    lemma_auto_spec_u32_to_from_le_bytes();
    let torn = frame(payload, key).take(cut);
    let bytes = before + torn;
    let pos = before.len() as int;
    if cut >= 8 {
        let le = spec_u32_to_le_bytes(payload.len() as u32);
        assert(bytes.subrange(pos, pos + 4) =~= le);
    }
}

/// The records of a run of frames that starts at `at`.
pub open spec fn framed_records(payloads: Seq<Seq<u8>>, at: int, key: Option<Seq<u8>>) -> Seq<
    (int, Seq<u8>),
>
    decreases payloads.len(),
{
    if payloads.len() == 0 {
        Seq::empty()
    } else {
        seq![(at, payloads[0])] + framed_records(
            payloads.drop_first(),
            at + frame(payloads[0], key).len(),
            key,
        )
    }
}

/// The frames of some payloads, in order.
pub open spec fn frames(payloads: Seq<Seq<u8>>, key: Option<Seq<u8>>) -> Seq<u8>
    decreases payloads.len(),
{
    if payloads.len() == 0 {
        Seq::empty()
    } else {
        frame(payloads[0], key) + frames(payloads.drop_first(), key)
    }
}

/// A run of frames is read as its payloads, and reading goes on behind it.
pub proof fn frames_read_back(
    before: Seq<u8>,
    payloads: Seq<Seq<u8>>,
    after: Seq<u8>,
    key: Option<Seq<u8>>,
)
    requires
        forall|i: int| #![trigger payloads[i]] 0 <= i < payloads.len() ==> framed(payloads[i], key),
    ensures
        records(before + frames(payloads, key) + after, before.len() as int, key)
            == framed_records(payloads, before.len() as int, key) + records(
            before + frames(payloads, key) + after,
            (before.len() + frames(payloads, key).len()) as int,
            key,
        ),
    decreases payloads.len(),
{
    let bytes = before + frames(payloads, key) + after;
    let pos = before.len() as int;
    if payloads.len() == 0 {
        assert(framed_records(payloads, pos, key) + records(bytes, pos, key) =~= records(
            bytes,
            pos,
            key,
        ));
    } else {
        let f = frame(payloads[0], key);
        let rest = payloads.drop_first();
        let tail = frames(rest, key) + after;
        assert(bytes =~= before + f + tail);
        frame_reads_back(before, payloads[0], tail, key);
        let before2 = before + f;
        assert(bytes =~= before2 + frames(rest, key) + after);
        frames_read_back(before2, rest, after, key);
        let end = pos + f.len();
        assert(records(bytes, pos, key) == seq![(pos, payloads[0])] + records(bytes, end, key));
        assert(seq![(pos, payloads[0])] + (framed_records(rest, end, key) + records(
            bytes,
            (before2.len() + frames(rest, key).len()) as int,
            key,
        )) =~= framed_records(payloads, pos, key) + records(
            bytes,
            (before.len() + frames(payloads, key).len()) as int,
            key,
        ));
    }
}

/// A torn last record costs nothing that was written before it.
pub proof fn torn_tail_keeps_the_rest(
    payloads: Seq<Seq<u8>>,
    last: Seq<u8>,
    cut: int,
    key: Option<Seq<u8>>,
)
    requires
        forall|i: int| #![trigger payloads[i]] 0 <= i < payloads.len() ==> framed(payloads[i], key),
        framed(last, key),
        0 <= cut < frame(last, key).len(),
    ensures
        records(frames(payloads, key) + frame(last, key).take(cut), 0, key) == framed_records(
            payloads,
            0,
            key,
        ),
{
    let torn = frame(last, key).take(cut);
    let whole = frames(payloads, key);
    let bytes = Seq::<u8>::empty() + whole + torn;
    frames_read_back(Seq::empty(), payloads, torn, key);
    torn_record_is_not_read(whole, last, cut, key);
    assert(bytes =~= whole + torn);
    assert(framed_records(payloads, 0, key) + Seq::<(int, Seq<u8>)>::empty() =~= framed_records(
        payloads,
        0,
        key,
    ));
}

/// Mutations that were encoded: framed to their full length, readable, and with
/// descriptors that are text.
pub open spec fn written(ops: Seq<Op>, key: Option<Seq<u8>>) -> bool {
    forall|i: int|
        #![trigger ops[i]]
        0 <= i < ops.len() ==> framed(op_payload(ops[i]), key) && parsed(op_payload(ops[i]))
            == Some(op_json(ops[i])) && textual(ops[i])
}

/// The payloads of some mutations.
pub open spec fn payloads_of(ops: Seq<Op>) -> Seq<Seq<u8>> {
    Seq::new(ops.len(), |i: int| op_payload(ops[i]))
}

/// A mutation's payload reads as the mutation, and never as a marker.
pub proof fn lemma_op_payload(op: Op)
    requires
        parsed(op_payload(op)) == Some(op_json(op)),
        textual(op),
    ensures
        op_of(op_payload(op)) == Some(op),
        gen_of(op_payload(op)) is None,
{
    op_document_roundtrip(op);
    lemma_names();
}

/// Past the first two records a replay applies every mutation it covers.
proof fn lemma_replay_tail(
    ops: Seq<Op>,
    at: int,
    index: nat,
    generation: u64,
    covered: Option<(u64, u64)>,
    key: Option<Seq<u8>>,
)
    requires
        written(ops, key),
        index >= 1,
        covered matches Some(c) ==> generation == c.0 && at >= c.1,
    ensures
        replay_ops(framed_records(payloads_of(ops), at, key), index, generation, covered) == ops,
    decreases ops.len(),
{
    let ps = payloads_of(ops);
    if ops.len() == 0 {
        assert(ops =~= Seq::empty());
    } else {
        let rest = ops.drop_first();
        let next = at + frame(ps[0], key).len();
        assert(ps.drop_first() =~= payloads_of(rest));
        lemma_op_payload(ops[0]);
        assert forall|i: int| #![trigger rest[i]] 0 <= i < rest.len() implies framed(
            op_payload(rest[i]),
            key,
        ) && parsed(op_payload(rest[i])) == Some(op_json(rest[i])) && textual(rest[i]) by {
            assert(rest[i] == ops[i + 1]);
        }
        lemma_replay_tail(rest, next, index + 1, generation, covered, key);
        let recs = framed_records(ps, at, key);
        assert(recs[0] == (at, ps[0]));
        assert(recs.drop_first() =~= framed_records(ps.drop_first(), next, key));
        assert(seq![ops[0]] + rest =~= ops);
    }
}

/// Reopening a log gives back exactly the mutations that were appended to it, in
/// order, whatever torn record stands at its end.
pub proof fn restart_replays_every_mutation(
    ops: Seq<Op>,
    last: Seq<u8>,
    cut: int,
    key: Option<Seq<u8>>,
)
    requires
        written(ops, key),
        framed(header_payload(mode_for(key)), key),
        framed(last, key),
        0 <= cut < frame(last, key).len(),
    ensures
        replay_ops(
            records(
                frame(header_payload(mode_for(key)), key) + frames(payloads_of(ops), key) + frame(
                    last,
                    key,
                ).take(cut),
                0,
                key,
            ),
            0,
            0,
            None,
        ) == ops,
{
    let header = header_payload(mode_for(key));
    let all = seq![header] + payloads_of(ops);
    let torn = frame(last, key).take(cut);
    assert forall|i: int| #![trigger all[i]] 0 <= i < all.len() implies framed(all[i], key) by {
        if i > 0 {
            assert(all[i] == op_payload(ops[i - 1]));
        }
    }
    torn_tail_keeps_the_rest(all, last, cut, key);
    assert(all.drop_first() =~= payloads_of(ops));
    assert(frames(all, key) == frame(header, key) + frames(payloads_of(ops), key));
    let recs = framed_records(all, 0, key);
    header_roundtrip(mode_for(key));
    let at = frame(header, key).len() as int;
    assert(recs.drop_first() =~= framed_records(payloads_of(ops), at, key));
    assert(recs[0] == (0int, header));
    lemma_replay_tail(ops, at, 1, 0, None, key);
}

/// A log that belongs to a snapshot begins with a header and a marker.
proof fn lemma_snapshot_log(payloads: Seq<Seq<u8>>, generation: u64, key: Option<Seq<u8>>)
    requires
        forall|i: int| #![trigger payloads[i]] 0 <= i < payloads.len() ==> framed(payloads[i], key),
        framed(header_payload(mode_for(key)), key),
        framed(marker_payload(generation), key),
    ensures
        records(image_head(Some(generation), key) + frames(payloads, key), 0, key) == framed_records(
            seq![header_payload(mode_for(key)), marker_payload(generation)] + payloads,
            0,
            key,
        ),
{
    let header = header_payload(mode_for(key));
    let marker = marker_payload(generation);
    let log = image_head(Some(generation), key) + frames(payloads, key);
    let all = seq![header, marker] + payloads;
    assert forall|i: int| #![trigger all[i]] 0 <= i < all.len() implies framed(all[i], key) by {
        if i >= 2 {
            assert(all[i] == payloads[i - 2]);
        }
    }
    let rest = all.drop_first();
    assert(rest.drop_first() =~= payloads);
    assert(rest[0] == marker && all[0] == header);
    assert(frames(all, key) =~= log) by {
        assert(frames(all, key) == frame(header, key) + frames(rest, key));
        assert(frames(rest, key) == frame(marker, key) + frames(payloads, key));
    }
    frames_read_back(Seq::empty(), all, Seq::empty(), key);
    assert(Seq::<u8>::empty() + log + Seq::<u8>::empty() =~= log);
    assert(record_at(log, log.len() as int, key) is None);
    assert(records(log, log.len() as int, key) =~= Seq::empty());
    assert(records(log, 0, key) =~= framed_records(all, 0, key));
}

/// Replaying such a log starts behind the marker, with its generation.
proof fn lemma_replay_head(
    payloads: Seq<Seq<u8>>,
    generation: u64,
    covered: Option<(u64, u64)>,
    key: Option<Seq<u8>>,
)
    requires
        gen_of(marker_payload(generation)) == Some(generation),
    ensures
        replay_ops(
            framed_records(
                seq![header_payload(mode_for(key)), marker_payload(generation)] + payloads,
                0,
                key,
            ),
            0,
            0,
            covered,
        ) == replay_ops(
            framed_records(payloads, image_head(Some(generation), key).len() as int, key),
            2,
            generation,
            covered,
        ),
{
    let header = header_payload(mode_for(key));
    let marker = marker_payload(generation);
    let all = seq![header, marker] + payloads;
    let rest = all.drop_first();
    let at1 = frame(header, key).len() as int;
    let at2 = at1 + frame(marker, key).len();
    let recs = framed_records(all, 0, key);
    assert(all[0] == header && rest[0] == marker);
    assert(rest.drop_first() =~= payloads);
    assert(recs == seq![(0int, header)] + framed_records(rest, at1, key));
    assert(recs.drop_first() =~= framed_records(rest, at1, key));
    let recs1 = framed_records(rest, at1, key);
    assert(recs1 == seq![(at1, marker)] + framed_records(payloads, at2, key));
    assert(recs1.drop_first() =~= framed_records(payloads, at2, key));
    header_roundtrip(mode_for(key));
    assert(image_head(Some(generation), key).len() == at2);
    assert(recs[0] == (0int, header));
    assert(recs1[0] == (at1, marker));
    assert(replay_ops(recs, 0, 0, covered) == replay_ops(recs1, 1, 0, covered));
}

/// The payloads of written mutations are framed.
proof fn lemma_written_payloads(ops: Seq<Op>, key: Option<Seq<u8>>)
    requires
        written(ops, key),
    ensures
        forall|i: int|
            #![trigger payloads_of(ops)[i]]
            0 <= i < payloads_of(ops).len() ==> framed(payloads_of(ops)[i], key),
{
    assert forall|i: int|
        #![trigger payloads_of(ops)[i]]
        0 <= i < payloads_of(ops).len() implies framed(payloads_of(ops)[i], key) by {
        assert(payloads_of(ops)[i] == op_payload(ops[i]));
    }
}

/// Past a snapshot's offset only the tail is replayed; without the snapshot the
/// image and the tail are.
pub proof fn restart_after_a_snapshot(
    image: Seq<Op>,
    tail: Seq<Op>,
    generation: u64,
    key: Option<Seq<u8>>,
)
    requires
        written(image, key),
        written(tail, key),
        framed(header_payload(mode_for(key)), key),
        framed(marker_payload(generation), key),
        gen_of(marker_payload(generation)) == Some(generation),
        (image_head(Some(generation), key) + frames(payloads_of(image), key)).len() <= u64::MAX,
    ensures
        ({
            let head = image_head(Some(generation), key) + frames(payloads_of(image), key);
            let log = head + frames(payloads_of(tail), key);
            &&& replay_ops(
                records(log, 0, key),
                0,
                0,
                Some((generation, head.len() as u64)),
            ) == tail
            &&& replay_ops(records(log, 0, key), 0, 0, None) == image + tail
        }),
{
    let head = image_head(Some(generation), key) + frames(payloads_of(image), key);
    let log = head + frames(payloads_of(tail), key);
    let ops = image + tail;
    let offset = head.len() as u64;
    assert(payloads_of(ops) =~= payloads_of(image) + payloads_of(tail));
    assert(written(ops, key)) by {
        assert forall|i: int| #![trigger ops[i]] 0 <= i < ops.len() implies framed(
            op_payload(ops[i]),
            key,
        ) && parsed(op_payload(ops[i])) == Some(op_json(ops[i])) && textual(ops[i]) by {
            if i < image.len() {
                assert(ops[i] == image[i]);
            } else {
                assert(ops[i] == tail[i - image.len()]);
            }
        }
    }
    lemma_written_payloads(ops, key);
    lemma_frames_join(payloads_of(image), payloads_of(tail), key);
    assert(log =~= image_head(Some(generation), key) + frames(payloads_of(ops), key));
    lemma_snapshot_log(payloads_of(ops), generation, key);
    let at = image_head(Some(generation), key).len() as int;
    lemma_replay_head(payloads_of(ops), generation, None, key);
    lemma_replay_tail(ops, at, 2, generation, None, key);
    lemma_replay_head(payloads_of(ops), generation, Some((generation, offset)), key);
    lemma_replay_covered(image, tail, at, 2, generation, offset, key);
}

/// Frames of two runs are the frames of the joint run.
proof fn lemma_frames_join(a: Seq<Seq<u8>>, b: Seq<Seq<u8>>, key: Option<Seq<u8>>)
    ensures
        frames(a + b, key) == frames(a, key) + frames(b, key),
    decreases a.len(),
{
    if a.len() == 0 {
        assert(a + b =~= b);
        assert(frames(a, key) + frames(b, key) =~= frames(b, key));
    } else {
        lemma_frames_join(a.drop_first(), b, key);
        assert((a + b).drop_first() =~= a.drop_first() + b);
        assert((a + b)[0] == a[0]);
        assert(frame(a[0], key) + (frames(a.drop_first(), key) + frames(b, key)) =~= frames(a, key)
            + frames(b, key));
    }
}

/// Records before the covered offset are passed over.
proof fn lemma_replay_covered(
    image: Seq<Op>,
    tail: Seq<Op>,
    at: int,
    index: nat,
    generation: u64,
    offset: u64,
    key: Option<Seq<u8>>,
)
    requires
        written(image, key),
        written(tail, key),
        index >= 2,
        at + frames(payloads_of(image), key).len() == offset,
    ensures
        replay_ops(
            framed_records(payloads_of(image + tail), at, key),
            index,
            generation,
            Some((generation, offset)),
        ) == tail,
    decreases image.len(),
{
    let ops = image + tail;
    let ps = payloads_of(ops);
    if image.len() == 0 {
        assert(ops =~= tail);
        lemma_replay_tail(tail, at, index, generation, Some((generation, offset)), key);
    } else {
        let rest = image.drop_first();
        let f = frame(op_payload(image[0]), key);
        assert forall|i: int| #![trigger rest[i]] 0 <= i < rest.len() implies framed(
            op_payload(rest[i]),
            key,
        ) && parsed(op_payload(rest[i])) == Some(op_json(rest[i])) && textual(rest[i]) by {
            assert(rest[i] == image[i + 1]);
        }
        assert(payloads_of(image).drop_first() =~= payloads_of(rest));
        assert(frames(payloads_of(image), key) == f + frames(payloads_of(rest), key));
        lemma_replay_covered(rest, tail, at + f.len(), index + 1, generation, offset, key);
        frame_reads_back(Seq::empty(), op_payload(image[0]), Seq::empty(), key);
        assert(f.len() > 0);
        assert(ps[0] == op_payload(image[0]));
        assert(ps.drop_first() =~= payloads_of(rest + tail));
        let recs = framed_records(ps, at, key);
        assert(recs[0] == (at, ps[0]));
        assert(recs.drop_first() =~= framed_records(payloads_of(rest + tail), at + f.len(), key));
    }
}

/// A log of another generation than the snapshot's contributes nothing.
pub proof fn other_generation_is_ignored(
    ops: Seq<Op>,
    generation: u64,
    covered: (u64, u64),
    key: Option<Seq<u8>>,
)
    requires
        written(ops, key),
        framed(header_payload(mode_for(key)), key),
        framed(marker_payload(generation), key),
        gen_of(marker_payload(generation)) == Some(generation),
        generation != covered.0,
    ensures
        replay_ops(
            records(
                image_head(Some(generation), key) + frames(payloads_of(ops), key),
                0,
                key,
            ),
            0,
            0,
            Some(covered),
        ) == Seq::<Op>::empty(),
{
    lemma_written_payloads(ops, key);
    lemma_snapshot_log(payloads_of(ops), generation, key);
    lemma_replay_head(payloads_of(ops), generation, Some(covered), key);
    let at = image_head(Some(generation), key).len() as int;
    let recs = framed_records(payloads_of(ops), at, key);
    if ops.len() > 0 {
        assert(recs[0] == (at, op_payload(ops[0])));
    }
}

/// The frames of mutations are the frames of their payloads.
proof fn lemma_op_frames(ops: Seq<Op>, key: Option<Seq<u8>>)
    ensures
        op_frames(ops, key) == frames(payloads_of(ops), key),
    decreases ops.len(),
{
    if ops.len() > 0 {
        let init = ops.drop_last();
        let last = seq![op_payload(ops.last())];
        lemma_op_frames(init, key);
        lemma_frames_join(payloads_of(init), last, key);
        assert(payloads_of(init) + last =~= payloads_of(ops));
        assert(last.drop_first() =~= Seq::<Seq<u8>>::empty());
        assert(frames(last, key) =~= frame(last[0], key)) by {
            reveal_with_fuel(frames, 2);
        }
    }
}

/// A delta's tables follow the mutations.
proof fn lemma_delta_tables(d: Delta, ops: Seq<Op>)
    ensures
        apply_deltas(d, ops).tables == apply_ops(d.tables, ops),
    decreases ops.len(),
{
    if ops.len() > 0 {
        lemma_delta_tables(d, ops.drop_last());
    }
}

/// A compacted log, reopened with or without the snapshot it belongs to, shows
/// the state that was compacted and then the mutations appended since. (Left
/// out: descriptors that are not text, which the log cannot hold.)
pub proof fn compacted_log_reproduces_the_index(
    snap: SnapshotState,
    tail: Seq<Op>,
    generation: u64,
    key: Option<Seq<u8>>,
)
    requires
        snap.wf(),
        tags_known(snap.tables()),
        written(image_of(snap), key),
        written(tail, key),
        framed(header_payload(mode_for(key)), key),
        framed(marker_payload(generation), key),
        gen_of(marker_payload(generation)) == Some(generation),
        (image_head(Some(generation), key) + op_frames(image_of(snap), key)).len() <= u64::MAX,
    ensures
        ({
            let image = image_head(Some(generation), key) + op_frames(image_of(snap), key);
            let log = image + op_frames(tail, key);
            let covered = Some((generation, image.len() as u64));
            let alone = apply_deltas(no_delta(), replay_ops(records(log, 0, key), 0, 0, None));
            &&& overlay(no_tables(), alone) == apply_ops(snap.tables(), tail)
            &&& replay_ops(records(log, 0, key), 0, 0, covered) == tail
        }),
{
    let ops = image_of(snap);
    lemma_op_frames(ops, key);
    lemma_op_frames(tail, key);
    restart_after_a_snapshot(ops, tail, generation, key);
    let alone = apply_deltas(no_delta(), ops + tail);
    lemma_delta_tables(no_delta(), ops + tail);
    lemma_apply_join(no_tables(), ops, tail);
    image_reproduces_the_snapshot(snap);
    backrefs_name_manifests_once(no_tables(), ops + tail);
    overlay_on_nothing(alone);
}

} // verus!
