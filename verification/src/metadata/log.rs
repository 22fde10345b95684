//! The append-only log: record framing, the compatibility check, and replay.
//!
//! A record is `<u32 LE len><u32 LE crc32c><payload>`, followed by a 32-byte tag
//! when a key is configured.

use crate::hashing::{crc_call, crc_of, hmac_of};
use crate::json::{marker_text, parse, parsed};
use crate::metadata::codec::{deserialize_op, op_json, op_of, op_payload, serialize_op, textual};
use crate::metadata::model::{apply_delta, apply_deltas, Delta, Op};
use crate::metadata::state::State;
use crate::metadata::wal_hmac::{
    decode_header, header_mode, key_bytes, FramingMode, HmacKey, TAG_LEN,
};
use crate::metadata::MetaOp;
use crate::text::same;
use vstd::bytes::{spec_u32_from_le_bytes, spec_u32_to_le_bytes, u32_from_le_bytes, u32_to_le_bytes};
use vstd::prelude::*;
use vstd::slice::slice_subrange;

verus! {

/// The tag that follows a payload.
pub open spec fn tag_of(payload: Seq<u8>, key: Option<Seq<u8>>) -> Seq<u8> {
    match key {
        Some(k) => hmac_of(k, payload),
        None => Seq::empty(),
    }
}

/// How many bytes follow a payload.
pub open spec fn tag_len(key: Option<Seq<u8>>) -> int {
    if key is Some {
        32
    } else {
        0
    }
}

/// A payload as a framed record.
pub open spec fn frame(payload: Seq<u8>, key: Option<Seq<u8>>) -> Seq<u8> {
    spec_u32_to_le_bytes(payload.len() as u32) + spec_u32_to_le_bytes(crc_of(payload)) + payload
        + tag_of(payload, key)
}

/// The length field of the record at `pos`.
pub open spec fn len_at(bytes: Seq<u8>, pos: int) -> int {
    spec_u32_from_le_bytes(bytes.subrange(pos, pos + 4)) as int
}

/// The checksum field of the record at `pos`.
pub open spec fn crc_at(bytes: Seq<u8>, pos: int) -> u32 {
    spec_u32_from_le_bytes(bytes.subrange(pos + 4, pos + 8))
}

/// The complete, intact record at `pos`: its payload and where it ends.
pub open spec fn record_at(bytes: Seq<u8>, pos: int, key: Option<Seq<u8>>) -> Option<
    (Seq<u8>, int),
> {
    if pos + 8 > bytes.len() {
        None
    } else {
        let n = len_at(bytes, pos);
        let end = pos + 8 + n + tag_len(key);
        if end > bytes.len() {
            None
        } else {
            let payload = bytes.subrange(pos + 8, pos + 8 + n);
            if crc_of(payload) != crc_at(bytes, pos) {
                None
            } else if key is Some && bytes.subrange(pos + 8 + n, end) != hmac_of(key->0, payload) {
                None
            } else {
                Some((payload, end))
            }
        }
    }
}

/// The intact records from `pos` on, each with its start, up to the first that
/// is torn, corrupt or not authentic.
pub open spec fn records(bytes: Seq<u8>, pos: int, key: Option<Seq<u8>>) -> Seq<(int, Seq<u8>)>
    decreases bytes.len() - pos,
{
    match record_at(bytes, pos, key) {
        Some(r) => seq![(pos, r.0)] + records(bytes, r.1, key),
        None => Seq::empty(),
    }
}

/// Where the intact records from `pos` on end.
pub open spec fn intact_end(bytes: Seq<u8>, pos: int, key: Option<Seq<u8>>) -> int
    decreases bytes.len() - pos,
{
    match record_at(bytes, pos, key) {
        Some(r) => intact_end(bytes, r.1, key),
        None => pos,
    }
}

/// The generation that a marker record binds its log to.
pub open spec fn gen_of(payload: Seq<u8>) -> Option<u64> {
    match parsed(payload) {
        Some(v) => if v.text_field("op"@) == Some("gen"@) {
            match v.field("gen"@) {
                Some(g) => g.natural(),
                None => None,
            }
        } else {
            None
        },
        None => None,
    }
}

/// The mutations that a replay applies, given the records that are left, how
/// many came before, and the log's generation so far. With `covered` a snapshot
/// of `(generation, offset)` stands for a log of another generation altogether,
/// and for everything before `offset` in its own.
pub open spec fn replay_ops(
    recs: Seq<(int, Seq<u8>)>,
    index: nat,
    generation: u64,
    covered: Option<(u64, u64)>,
) -> Seq<Op>
    decreases recs.len(),
{
    if recs.len() == 0 {
        Seq::empty()
    } else {
        let (start, payload) = recs[0];
        let rest = recs.drop_first();
        if index == 0 && header_mode(payload) is Some {
            replay_ops(rest, index + 1, generation, covered)
        } else if index <= 1 && gen_of(payload) is Some {
            replay_ops(rest, index + 1, gen_of(payload)->0, covered)
        } else if covered is Some && generation != (covered->0).0 {
            Seq::empty()
        } else if covered is Some && start < (covered->0).1 {
            replay_ops(rest, index + 1, generation, covered)
        } else {
            let later = replay_ops(rest, index + 1, generation, covered);
            match op_of(payload) {
                Some(op) => seq![op] + later,
                None => later,
            }
        }
    }
}

/// The mutations of a log without a header.
pub open spec fn legacy_ops(recs: Seq<(int, Seq<u8>)>) -> Seq<Op>
    decreases recs.len(),
{
    if recs.len() == 0 {
        Seq::empty()
    } else {
        let later = legacy_ops(recs.drop_first());
        match op_of(recs[0].1) {
            Some(op) => seq![op] + later,
            None => later,
        }
    }
}

/// Frames a payload.
pub fn encode_raw(payload: &[u8], key: Option<&HmacKey>) -> (r: Vec<u8>)
    ensures
        r@ == frame(payload@, key_bytes(key)),
        r@.len() == 8 + payload@.len() + tag_len(key_bytes(key)),
{
    let mut out = u32_to_le_bytes(payload.len() as u32);
    let crc = u32_to_le_bytes(crc_call(payload));
    extend(&mut out, crc.as_slice());
    extend(&mut out, payload);
    match key {
        Some(k) => {
            let tag = k.tag(payload);
            extend(&mut out, tag.as_slice());
        },
        None => {
            assert(out@ + Seq::<u8>::empty() =~= out@);
        },
    }
    out
}

/// Appends bytes.
pub fn extend(out: &mut Vec<u8>, more: &[u8])
    ensures
        final(out)@ == old(out)@ + more@,
{
    let ghost base = out@;
    let mut i: usize = 0;
    assert(base + more@.take(0) =~= base);
    while i < more.len()
        invariant
            i <= more@.len(),
            out@ == base + more@.take(i as int),
        decreases more@.len() - i,
    {
        out.push(more[i]);
        assert(out@ =~= base + more@.take(i + 1));
        i += 1;
    }
    assert(more@.take(more@.len() as int) =~= more@);
}

/// Frames a mutation.
pub fn encode(op: &MetaOp, key: Option<&HmacKey>) -> (r: Vec<u8>)
    ensures
        r@ == frame(op_payload(op.model()), key_bytes(key)),
        r@.len() == 8 + op_payload(op.model()).len() + tag_len(key_bytes(key)),
        parsed(op_payload(op.model())) == Some(op_json(op.model())),
        crate::metadata::codec::utf8_op(op.model()) ==> textual(op.model()),
{
    encode_raw(serialize_op(op).as_slice(), key)
}

/// Whether two byte strings are the same.
pub fn same_bytes(a: &[u8], b: &[u8]) -> (r: bool)
    ensures
        r == (a@ == b@),
{
    if a.len() != b.len() {
        return false;
    }
    let mut i: usize = 0;
    while i < a.len()
        invariant
            a@.len() == b@.len(),
            i <= a@.len(),
            forall|j: int| 0 <= j < i ==> a@[j] == b@[j],
        decreases a@.len() - i,
    {
        if a[i] != b[i] {
            return false;
        }
        i += 1;
    }
    assert(a@ =~= b@);
    true
}

/// What `next_record` finds.
pub open spec fn is_record(r: Option<(usize, usize, usize)>, bytes: Seq<u8>, pos: int, key: Option<
    Seq<u8>,
>) -> bool {
    match r {
        Some((from, to, end)) => {
            &&& pos <= from <= to <= end <= bytes.len()
            &&& pos < end
            &&& record_at(bytes, pos, key) == Some((bytes.subrange(from as int, to as int), end as int))
        },
        None => record_at(bytes, pos, key) is None,
    }
}

/// The intact record at `pos`: where its payload begins and ends, and where the
/// record ends.
fn next_record(bytes: &[u8], pos: usize, key: Option<&HmacKey>) -> (r: Option<
    (usize, usize, usize),
>)
    requires
        pos <= bytes@.len(),
    ensures
        is_record(r, bytes@, pos as int, key_bytes(key)),
{
    let left: usize = bytes.len() - pos;
    if left < 8 {
        return None;
    }
    let len: usize = u32_from_le_bytes(slice_subrange(bytes, pos, pos + 4)) as usize;
    let crc: u32 = u32_from_le_bytes(slice_subrange(bytes, pos + 4, pos + 8));
    let extra: usize = if key.is_some() { 32 } else { 0 };
    let room: usize = left - 8;
    if room < extra || room - extra < len {
        return None;
    }
    let from: usize = pos + 8;
    let to: usize = from + len;
    let end: usize = to + extra;
    let payload = slice_subrange(bytes, from, to);
    if crc_call(payload) != crc {
        return None;
    }
    if let Some(k) = key {
        let tag = slice_subrange(bytes, to, end);
        if !k.verify(payload, tag) {
            return None;
        }
    }
    Some((from, to, end))
}

/// How much of a log is intact: where its last intact record ends.
pub fn intact_len(bytes: &[u8], key: Option<&HmacKey>) -> (r: usize)
    ensures
        r == intact_end(bytes@, 0, key_bytes(key)),
        r <= bytes@.len(),
{
    let ghost k = key_bytes(key);
    let mut pos: usize = 0;
    loop
        invariant
            k == key_bytes(key),
            pos <= bytes@.len(),
            intact_end(bytes@, 0, k) == intact_end(bytes@, pos as int, k),
        decreases bytes@.len() - pos,
    {
        match next_record(bytes, pos, key) {
            Some((_, _, end)) => {
                pos = end;
            },
            None => {
                return pos;
            },
        }
    }
}

/// The first record of a log against the framing that is expected.
#[derive(Debug, Clone, Copy, PartialEq, Eq, Structural)]
pub enum LogFramingCheck {
    /// A header with the expected mode (and, with a key, its tag).
    Compatible,
    /// A header of another mode, or one that the key does not authenticate.
    Incompatible,
    /// No header.
    NoHeader,
}

/// What the framing check answers.
pub open spec fn framing_of(bytes: Seq<u8>, expected: FramingMode, key: Option<Seq<u8>>) -> LogFramingCheck {
    match record_at(bytes, 0, None) {
        None => LogFramingCheck::NoHeader,
        Some(r) => match header_mode(r.0) {
            None => LogFramingCheck::NoHeader,
            Some(mode) => if mode != expected {
                LogFramingCheck::Incompatible
            } else if key is Some && (r.1 + 32 > bytes.len() || bytes.subrange(r.1, r.1 + 32)
                != hmac_of(key->0, r.0)) {
                LogFramingCheck::Incompatible
            } else {
                LogFramingCheck::Compatible
            },
        },
    }
}

/// Checks that the first record is a header declaring `expected`.
pub fn check_log_framing(bytes: &[u8], expected: FramingMode, key: Option<&HmacKey>) -> (r: LogFramingCheck)
    ensures
        r == framing_of(bytes@, expected, key_bytes(key)),
{
    let (from, to, end) = match next_record(bytes, 0, None) {
        Some(x) => x,
        None => {
            return LogFramingCheck::NoHeader;
        },
    };
    let payload = slice_subrange(bytes, from, to);
    match decode_header(payload) {
        None => LogFramingCheck::NoHeader,
        Some(mode) => {
            if mode != expected {
                return LogFramingCheck::Incompatible;
            }
            if let Some(k) = key {
                if bytes.len() - end < TAG_LEN {
                    return LogFramingCheck::Incompatible;
                }
                let tag = slice_subrange(bytes, end, end + TAG_LEN);
                if !k.verify(payload, tag) {
                    return LogFramingCheck::Incompatible;
                }
            }
            LogFramingCheck::Compatible
        },
    }
}

/// The bytes of a generation marker.
pub open spec fn marker_payload(generation: u64) -> Seq<u8> {
    vstd::utf8::encode_utf8(marker_text(generation))
}

/// The generation that a marker record binds its log to.
pub fn generation_marker(payload: &[u8]) -> (r: Option<u64>)
    ensures
        r == gen_of(payload@),
        forall|g: u64| payload@ == #[trigger] marker_payload(g) ==> r == Some(g),
{
    let document = parse(payload);
    proof {
        assert forall|g: u64| payload@ == #[trigger] marker_payload(g) implies gen_of(payload@)
            == Some(g) by {
            assert(payload@ == vstd::utf8::encode_utf8(marker_text(g)));
            crate::metadata::codec::lemma_names();
        }
    }
    match document {
        Some(v) => match v.text_field("op") {
            Some(kind) => {
                if same(kind, "gen") {
                    match v.get("gen") {
                        Some(g) => g.as_u64(),
                        None => None,
                    }
                } else {
                    None
                }
            },
            None => None,
        },
        None => None,
    }
}

/// Running one mutation first is running them all.
pub proof fn lemma_apply_first(d: Delta, op: Op, rest: Seq<Op>)
    ensures
        apply_deltas(d, seq![op] + rest) == apply_deltas(apply_delta(d, op), rest),
    decreases rest.len(),
{
    let all = seq![op] + rest;
    if rest.len() == 0 {
        assert(all.drop_last() =~= Seq::<Op>::empty());
        assert(all.last() == op);
        reveal_with_fuel(apply_deltas, 2);
    } else {
        lemma_apply_first(d, op, rest.drop_last());
        assert(all.drop_last() =~= seq![op] + rest.drop_last());
        assert(all.last() == rest.last());
    }
}

/// Replays a log with a header onto `state`, in one pass.
pub fn replay_log(bytes: &[u8], state: &mut State, key: Option<&HmacKey>, covered: Option<(u64, u64)>)
    requires
        old(state).wf(),
    ensures
        final(state).wf(),
        final(state).delta() == apply_deltas(
            old(state).delta(),
            replay_ops(records(bytes@, 0, key_bytes(key)), 0, 0, covered),
        ),
{
    let ghost k = key_bytes(key);
    let ghost d0 = state.delta();
    let ghost want = apply_deltas(d0, replay_ops(records(bytes@, 0, k), 0, 0, covered));
    let mut pos: usize = 0;
    let mut index: usize = 0;
    let mut log_generation: u64 = 0;
    loop
        invariant
            k == key_bytes(key),
            want == apply_deltas(
                old(state).delta(),
                replay_ops(records(bytes@, 0, k), 0, 0, covered),
            ),
            pos <= bytes@.len(),
            index <= pos,
            state.wf(),
            want == apply_deltas(
                state.delta(),
                replay_ops(records(bytes@, pos as int, k), index as nat, log_generation, covered),
            ),
        decreases bytes@.len() - pos,
    {
        let ghost recs = records(bytes@, pos as int, k);
        let (from, to, end) = match next_record(bytes, pos, key) {
            Some(x) => x,
            None => {
                assert(recs =~= Seq::<(int, Seq<u8>)>::empty());
                return;
            },
        };
        let start = pos;
        let payload = slice_subrange(bytes, from, to);
        let ghost rest = records(bytes@, end as int, k);
        proof {
            assert(recs == seq![(pos as int, payload@)] + rest);
            assert(recs[0] == (pos as int, payload@));
            assert(recs.drop_first() =~= rest);
        }
        let first = index == 0;
        let early = index <= 1;
        pos = end;
        index += 1;
        if first && decode_header(payload).is_some() {
            continue;
        }
        if early {
            if let Some(g) = generation_marker(payload) {
                log_generation = g;
                continue;
            }
        }
        if let Some((snap_generation, offset)) = covered {
            if log_generation != snap_generation {
                return;
            }
            if (start as u64) < offset {
                continue;
            }
        }
        match deserialize_op(payload) {
            Some(op) => {
                proof {
                    lemma_apply_first(
                        state.delta(),
                        op.model(),
                        replay_ops(rest, index as nat, log_generation, covered),
                    );
                }
                state.apply_in_ram(&op);
            },
            None => {},
        }
    }
}

/// Replays a log without a header onto `state`.
pub fn replay_legacy(bytes: &[u8], state: &mut State)
    requires
        old(state).wf(),
    ensures
        final(state).wf(),
        final(state).delta() == apply_deltas(
            old(state).delta(),
            legacy_ops(records(bytes@, 0, None)),
        ),
{
    let ghost want = apply_deltas(state.delta(), legacy_ops(records(bytes@, 0, None)));
    let mut pos: usize = 0;
    loop
        invariant
            want == apply_deltas(old(state).delta(), legacy_ops(records(bytes@, 0, None))),
            pos <= bytes@.len(),
            state.wf(),
            want == apply_deltas(state.delta(), legacy_ops(records(bytes@, pos as int, None))),
        decreases bytes@.len() - pos,
    {
        let ghost recs = records(bytes@, pos as int, None);
        let (from, to, end) = match next_record(bytes, pos, None) {
            Some(x) => x,
            None => {
                assert(recs =~= Seq::<(int, Seq<u8>)>::empty());
                return;
            },
        };
        let payload = slice_subrange(bytes, from, to);
        let ghost rest = records(bytes@, end as int, None);
        proof {
            assert(recs == seq![(pos as int, payload@)] + rest);
            assert(recs[0] == (pos as int, payload@));
            assert(recs.drop_first() =~= rest);
        }
        pos = end;
        match deserialize_op(payload) {
            Some(op) => {
                proof {
                    lemma_apply_first(state.delta(), op.model(), legacy_ops(rest));
                }
                state.apply_in_ram(&op);
            },
            None => {},
        }
    }
}

} // verus!
