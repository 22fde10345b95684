//! What holds of a log that is opened, appended to and opened again.

use crate::metadata::codec::{op_of, op_payload};
use crate::metadata::laws::{
    frame_reads_back, framed, frames, lemma_op_payload, payloads_of,
    restart_replays_every_mutation, written,
};
use crate::metadata::log::{
    frame, framing_of, gen_of, intact_end, legacy_ops, len_at, record_at, records, replay_ops,
    tag_len, LogFramingCheck,
};
use crate::metadata::log_store::{kept_log, log_refused, opened_ops};
use crate::metadata::model::Op;
use crate::metadata::store_laws::lemma_framing;
use crate::metadata::wal_hmac::{header_mode, header_payload, mode_for};
use vstd::prelude::*;

verus! {

/// The generation that the first records of a log bind it to.
pub open spec fn log_generation(
    recs: Seq<(int, Seq<u8>)>,
    index: nat,
    generation: u64,
) -> u64
    decreases recs.len(),
{
    if recs.len() == 0 || index >= 2 {
        generation
    } else {
        let payload = recs[0].1;
        let rest = recs.drop_first();
        if index == 0 && header_mode(payload) is Some {
            log_generation(rest, index + 1, generation)
        } else if gen_of(payload) is Some {
            log_generation(rest, index + 1, gen_of(payload)->0)
        } else {
            log_generation(rest, index + 1, generation)
        }
    }
}

/// What is kept of a log goes on where a snapshot ends: it is a log without a
/// header, which no snapshot covers, or of the snapshot's generation and no
/// shorter than what the snapshot covers.
pub open spec fn goes_on(log: Option<Seq<u8>>, key: Option<Seq<u8>>, covered: (u64, u64)) -> bool {
    &&& log matches Some(bytes)
    &&& kept_log(log, key).len() > 0
    &&& framing_of(bytes, mode_for(key), key) == LogFramingCheck::Compatible ==> {
        &&& log_generation(records(bytes, 0, key), 0, 0) == covered.0
        &&& intact_end(bytes, 0, key) >= covered.1
    }
}

/// The log once it was opened and one more mutation was appended to it: to what
/// is kept of it, or after a header to nothing.
pub open spec fn log_with(log: Option<Seq<u8>>, op: Op, key: Option<Seq<u8>>) -> Seq<u8> {
    let kept = kept_log(log, key);
    (if kept.len() == 0 {
        frame(header_payload(mode_for(key)), key)
    } else {
        kept
    }) + frame(op_payload(op), key)
}

/// A record that is whole in the first `n` bytes is read the same whatever comes
/// behind them.
proof fn lemma_record_prefix(bytes: Seq<u8>, pos: int, n: int, more: Seq<u8>, key: Option<Seq<u8>>)
    requires
        0 <= pos,
        record_at(bytes, pos, key) is Some,
        (record_at(bytes, pos, key)->0).1 <= n <= bytes.len(),
    ensures
        record_at(bytes.take(n) + more, pos, key) == record_at(bytes, pos, key),
{
    let log = bytes.take(n) + more;
    let len = len_at(bytes, pos);
    assert(log.subrange(pos, pos + 4) =~= bytes.subrange(pos, pos + 4));
    assert(log.subrange(pos + 4, pos + 8) =~= bytes.subrange(pos + 4, pos + 8));
    assert(log.subrange(pos + 8, pos + 8 + len) =~= bytes.subrange(pos + 8, pos + 8 + len));
    assert(log.subrange(pos + 8 + len, pos + 8 + len + tag_len(key)) =~= bytes.subrange(
        pos + 8 + len,
        pos + 8 + len + tag_len(key),
    ));
}

/// The intact records end within the log, at `pos` or behind.
proof fn lemma_intact_bounds(bytes: Seq<u8>, pos: int, key: Option<Seq<u8>>)
    requires
        0 <= pos <= bytes.len(),
    ensures
        pos <= intact_end(bytes, pos, key) <= bytes.len(),
    decreases bytes.len() - pos,
{
    if let Some(r) = record_at(bytes, pos, key) {
        lemma_intact_bounds(bytes, r.1, key);
    }
}

/// A record appended to the intact records is read after them.
proof fn lemma_appended(bytes: Seq<u8>, pos: int, payload: Seq<u8>, key: Option<Seq<u8>>)
    requires
        0 <= pos <= bytes.len(),
        framed(payload, key),
    ensures
        ({
            let n = intact_end(bytes, pos, key);
            let log = bytes.take(n) + frame(payload, key);
            records(log, pos, key) == records(bytes, pos, key).push((n, payload))
        }),
    decreases bytes.len() - pos,
{
    let n = intact_end(bytes, pos, key);
    let log = bytes.take(n) + frame(payload, key);
    lemma_intact_bounds(bytes, pos, key);
    match record_at(bytes, pos, key) {
        Some(r) => {
            lemma_intact_bounds(bytes, r.1, key);
            lemma_record_prefix(bytes, pos, n, frame(payload, key), key);
            lemma_appended(bytes, r.1, payload, key);
            assert(seq![(pos, r.0)] + records(bytes, r.1, key).push((n, payload)) =~= (seq![
                (pos, r.0),
            ] + records(bytes, r.1, key)).push((n, payload)));
        },
        None => {
            frame_reads_back(bytes.take(n), payload, Seq::empty(), key);
            assert(bytes.take(n) + frame(payload, key) + Seq::<u8>::empty() =~= log);
            assert(record_at(log, log.len() as int, key) is None);
            assert(records(log, log.len() as int, key) =~= Seq::empty());
            assert(records(bytes, pos, key) =~= Seq::empty());
            assert(seq![(pos, payload)] + Seq::<(int, Seq<u8>)>::empty() =~= Seq::<
                (int, Seq<u8>),
            >::empty().push((n, payload)));
        },
    }
}

/// A replay that gets to a mutation at its end applies it last.
proof fn lemma_replay_push(
    recs: Seq<(int, Seq<u8>)>,
    start: int,
    op: Op,
    index: nat,
    generation: u64,
    covered: Option<(u64, u64)>,
)
    requires
        op_of(op_payload(op)) == Some(op),
        gen_of(op_payload(op)) is None,
        index + recs.len() > 0,
        covered matches Some(c) ==> log_generation(recs, index, generation) == c.0 && start >= c.1
            && (index == 0 ==> header_mode(recs[0].1) is Some),
    ensures
        replay_ops(recs.push((start, op_payload(op))), index, generation, covered) == replay_ops(
            recs,
            index,
            generation,
            covered,
        ).push(op),
    decreases recs.len(),
{
    let all = recs.push((start, op_payload(op)));
    reveal_with_fuel(replay_ops, 2);
    if recs.len() == 0 {
        assert(all[0] == (start, op_payload(op)));
        assert(all.drop_first() =~= Seq::empty());
        assert(seq![op] + Seq::<Op>::empty() =~= Seq::<Op>::empty().push(op));
    } else {
        let rest = recs.drop_first();
        let payload = recs[0].1;
        assert(all[0] == recs[0]);
        assert(all.drop_first() =~= rest.push((start, op_payload(op))));
        let next = if !(index == 0 && header_mode(payload) is Some) && index <= 1 && gen_of(
            payload,
        ) is Some {
            gen_of(payload)->0
        } else {
            generation
        };
        lemma_replay_push(rest, start, op, index + 1, next, covered);
        let later = replay_ops(rest, index + 1, next, covered);
        if let Some(o) = op_of(payload) {
            assert(seq![o] + later.push(op) =~= (seq![o] + later).push(op));
        }
    }
}

/// The same of a log without a header.
proof fn lemma_legacy_push(recs: Seq<(int, Seq<u8>)>, start: int, op: Op)
    requires
        op_of(op_payload(op)) == Some(op),
    ensures
        legacy_ops(recs.push((start, op_payload(op)))) == legacy_ops(recs).push(op),
    decreases recs.len(),
{
    let all = recs.push((start, op_payload(op)));
    reveal_with_fuel(legacy_ops, 2);
    if recs.len() == 0 {
        assert(all[0] == (start, op_payload(op)));
        assert(all.drop_first() =~= Seq::empty());
        assert(seq![op] + Seq::<Op>::empty() =~= Seq::<Op>::empty().push(op));
    } else {
        assert(all[0] == recs[0]);
        assert(all.drop_first() =~= recs.drop_first().push((start, op_payload(op))));
        lemma_legacy_push(recs.drop_first(), start, op);
        let later = legacy_ops(recs.drop_first());
        if let Some(o) = op_of(recs[0].1) {
            assert(seq![o] + later.push(op) =~= (seq![o] + later).push(op));
        }
    }
}

/// What is appended to a log that was opened is read back when it is opened
/// again, after everything that was read from it before, whatever torn record
/// stood at its end. (Left out: a snapshot that the log does not go on from, which
/// stands for that log altogether.)
pub proof fn what_is_appended_is_read_back(
    log: Option<Seq<u8>>,
    op: Op,
    key: Option<Seq<u8>>,
    covered: Option<(u64, u64)>,
)
    requires
        written(seq![op], key),
        framed(header_payload(mode_for(key)), key),
        covered matches Some(c) ==> goes_on(log, key, c),
    ensures
        opened_ops(Some(log_with(log, op, key)), key, covered) == opened_ops(
            log,
            key,
            covered,
        ).push(op),
{
    let ops = seq![op];
    assert(ops[0] == op);
    lemma_op_payload(op);
    let kept = kept_log(log, key);
    let payload = op_payload(op);
    let now = log_with(log, op, key);
    if let Some(bytes) = log {
        lemma_intact_bounds(bytes, 0, key);
    }
    if kept.len() == 0 {
        let header = frame(header_payload(mode_for(key)), key);
        frame_reads_back(Seq::empty(), payload, Seq::empty(), key);
        restart_replays_every_mutation(ops, payload, 0, key);
        lemma_framing(frame(payload, key), key, key);
        assert(payloads_of(ops).drop_first() =~= Seq::empty());
        assert(payloads_of(ops)[0] == payload);
        assert(frames(payloads_of(ops), key) =~= frame(payload, key)) by {
            reveal_with_fuel(frames, 2);
        }
        assert(frame(payload, key).take(0) =~= Seq::empty());
        assert(header + frames(payloads_of(ops), key) + frame(payload, key).take(0) =~= now);
        assert(opened_ops(log, key, covered) =~= Seq::<Op>::empty()) by {
            if let Some(bytes) = log {
                if bytes.len() > 0 && !log_refused(log, key) {
                    assert(intact_end(bytes, 0, key) == 0);
                    assert(record_at(bytes, 0, key) is None) by {
                        if let Some(r) = record_at(bytes, 0, key) {
                            lemma_intact_bounds(bytes, r.1, key);
                        }
                    }
                    assert(records(bytes, 0, key) =~= Seq::empty());
                }
            }
        }
        assert(Seq::<Op>::empty().push(op) =~= ops);
    } else {
        let bytes = log->0;
        let n = intact_end(bytes, 0, key);
        let mode = mode_for(key);
        assert(now =~= bytes.take(n) + frame(payload, key));
        lemma_appended(bytes, 0, payload, key);
        let recs = records(bytes, 0, key);
        assert(record_at(bytes, 0, key) is Some);
        let first = record_at(bytes, 0, key)->0;
        lemma_intact_bounds(bytes, first.1, key);
        assert(recs[0] == (0int, first.0));
        assert(record_at(bytes, 0, None) is Some);
        let bare = record_at(bytes, 0, None)->0;
        assert(bare.0 == first.0 && bare.1 <= first.1);
        lemma_record_prefix(bytes, 0, n, frame(payload, key), None);
        if key is Some {
            assert(first.1 == bare.1 + 32);
            assert(now.subrange(bare.1, bare.1 + 32) =~= bytes.subrange(bare.1, bare.1 + 32));
        }
        assert(framing_of(now, mode, key) == framing_of(bytes, mode, key));
        if framing_of(bytes, mode, key) == LogFramingCheck::Compatible {
            assert(header_mode(first.0) is Some);
            lemma_replay_push(recs, n, op, 0, 0, covered);
        } else {
            assert(key is None);
            lemma_legacy_push(recs, n, op);
        }
    }
}

} // verus!
