//! What holds of a store across a restart.

use crate::hashing::hmac_of;
use crate::metadata::image::{image_head, image_of, op_frames};
use crate::metadata::laws::{
    compacted_log_reproduces_the_index, frame_reads_back, framed, frames, payloads_of,
    restart_replays_every_mutation, written,
};
use crate::metadata::log::{
    frame, framing_of, gen_of, marker_payload, record_at, tag_of, LogFramingCheck,
};
use crate::metadata::log_store::{log_refused, opened_ops};
use crate::metadata::model::{apply_deltas, apply_ops, no_delta, no_tables, overlay, Op};
use crate::metadata::snapshot::SnapshotState;
use crate::metadata::state_laws::{snapshot_and_tail_are_the_index, tags_known};
use crate::metadata::wal_hmac::{header_payload, header_roundtrip, mode_for};
use vstd::prelude::*;

verus! {

/// What the framing check reads of a log that begins with a header.
pub proof fn lemma_framing(rest: Seq<u8>, wrote: Option<Seq<u8>>, key: Option<Seq<u8>>)
    requires
        framed(header_payload(mode_for(wrote)), wrote),
    ensures
        ({
            let header = header_payload(mode_for(wrote));
            let log = frame(header, wrote) + rest;
            &&& log.len() > 0
            &&& framing_of(log, mode_for(key), key) == (if mode_for(wrote) != mode_for(key) || (key
                is Some && wrote is Some && hmac_of(key->0, header) != hmac_of(wrote->0, header)) {
                LogFramingCheck::Incompatible
            } else {
                LogFramingCheck::Compatible
            })
        }),
{
    let header = header_payload(mode_for(wrote));
    let tag = tag_of(header, wrote);
    let log = frame(header, wrote) + rest;
    assert(frame(header, wrote) =~= frame(header, None) + tag);
    frame_reads_back(Seq::empty(), header, tag + rest, None);
    assert(Seq::<u8>::empty() + frame(header, None) + (tag + rest) =~= log);
    header_roundtrip(mode_for(wrote));
    let end = frame(header, None).len() as int;
    assert(record_at(log, 0, None) == Some((header, end)));
    if wrote is Some {
        assert(log.subrange(end, end + 32) =~= tag);
    }
}

/// A log is accepted with the key it was written with.
pub proof fn own_log_is_accepted(rest: Seq<u8>, key: Option<Seq<u8>>)
    requires
        framed(header_payload(mode_for(key)), key),
    ensures
        !log_refused(Some(frame(header_payload(mode_for(key)), key) + rest), key),
        framing_of(frame(header_payload(mode_for(key)), key) + rest, mode_for(key), key)
            == LogFramingCheck::Compatible,
{
    lemma_framing(rest, key, key);
}

/// A log written with a key is refused without one, and one written without a
/// key is refused with one; so is a log whose header another key tags
/// differently. A refused log contributes nothing.
pub proof fn other_log_is_refused(
    rest: Seq<u8>,
    wrote: Option<Seq<u8>>,
    key: Option<Seq<u8>>,
    covered: Option<(u64, u64)>,
)
    requires
        framed(header_payload(mode_for(wrote)), wrote),
        wrote is Some && key is Some ==> hmac_of(key->0, header_payload(mode_for(wrote)))
            != hmac_of(wrote->0, header_payload(mode_for(wrote))),
        wrote is Some || key is Some,
    ensures
        ({
            let log = Some(frame(header_payload(mode_for(wrote)), wrote) + rest);
            &&& log_refused(log, key)
            &&& opened_ops(log, key, covered) == Seq::<Op>::empty()
        }),
{
    lemma_framing(rest, wrote, key);
}

/// Reopening a log that mutations were appended to gives back exactly those
/// mutations, in order, whatever torn record stands at its end.
pub proof fn reopened_log_gives_every_mutation(
    ops: Seq<Op>,
    last: Seq<u8>,
    cut: int,
    key: Option<Seq<u8>>,
)
    requires
        written(ops, key),
        framed(header_payload(mode_for(key)), key),
        framed(last, key),
        0 <= cut < frame(last, key).len(),
    ensures
        opened_ops(
            Some(
                frame(header_payload(mode_for(key)), key) + frames(payloads_of(ops), key) + frame(
                    last,
                    key,
                ).take(cut),
            ),
            key,
            None,
        ) == ops,
{
    let header = frame(header_payload(mode_for(key)), key);
    let rest = frames(payloads_of(ops), key) + frame(last, key).take(cut);
    lemma_framing(rest, key, key);
    assert(header + rest =~= header + frames(payloads_of(ops), key) + frame(last, key).take(cut));
    restart_replays_every_mutation(ops, last, cut, key);
}

/// After upkeep and more mutations, reopening with the snapshot shows what
/// running those mutations on the compacted state gives, and so does reopening
/// without it.
pub proof fn reopened_store_shows_the_index(
    full: SnapshotState,
    tail: Seq<Op>,
    generation: u64,
    key: Option<Seq<u8>>,
)
    requires
        full.wf(),
        tags_known(full.tables()),
        written(image_of(full), key),
        written(tail, key),
        framed(header_payload(mode_for(key)), key),
        framed(marker_payload(generation), key),
        gen_of(marker_payload(generation)) == Some(generation),
        (image_head(Some(generation), key) + op_frames(image_of(full), key)).len() <= u64::MAX,
    ensures
        ({
            let image = image_head(Some(generation), key) + op_frames(image_of(full), key);
            let log = Some(image + op_frames(tail, key));
            let covered = Some((generation, image.len() as u64));
            let index = apply_ops(full.tables(), tail);
            &&& overlay(full.tables(), apply_deltas(no_delta(), opened_ops(log, key, covered)))
                == index
            &&& overlay(no_tables(), apply_deltas(no_delta(), opened_ops(log, key, None))) == index
        }),
{
    let header = frame(header_payload(mode_for(key)), key);
    let marker = frame(marker_payload(generation), key);
    let image = image_head(Some(generation), key) + op_frames(image_of(full), key);
    let rest = marker + op_frames(image_of(full), key) + op_frames(tail, key);
    lemma_framing(rest, key, key);
    assert(header + rest =~= image + op_frames(tail, key));
    compacted_log_reproduces_the_index(full, tail, generation, key);
    snapshot_and_tail_are_the_index(full.tables(), tail);
}

} // verus!
