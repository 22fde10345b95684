//! The log image: the smallest run of records that reproduces a snapshot.

use crate::json::parsed;
use crate::metadata::codec::{op_json, op_payload};
use crate::metadata::log::{encode, encode_raw, extend, frame, marker_payload, tag_len};
use crate::metadata::model::Op;
use crate::metadata::snapshot::{media_rows, SnapshotState};
use crate::metadata::state::pair;
use crate::metadata::wal_hmac::{
    encode_header, framing_mode, header_payload, key_bytes, mode_for, HmacKey,
};
use crate::metadata::{BlobChecksum, MetaOp};
use crate::page::texts;
use crate::table::Table;
use crate::text::{concat3, decimal_text, same, Text};
use vstd::prelude::*;

verus! {

broadcast use vstd::string::group_string_axioms;

/// The models of some mutations.
pub open spec fn op_models(ops: Seq<MetaOp>) -> Seq<Op> {
    Seq::new(ops.len(), |i: int| ops[i].model())
}

/// Records one manifest, tagged or not.
pub open spec fn manifest_op(repo: Text, digest: Text, media_type: Text, tag: Option<Text>) -> Op {
    Op::PutManifest {
        repo,
        digest,
        media_type,
        tag,
        references: Seq::empty(),
        referrer: None,
    }
}

/// One record per tag.
pub open spec fn tag_ops(rows: Seq<((String, String), (String, String))>) -> Seq<Op> {
    Seq::new(
        rows.len(),
        |i: int| manifest_op(rows[i].0.0@, rows[i].1.0@, rows[i].1.1@, Some(rows[i].0.1@)),
    )
}

/// The media types that the tag records leave: each manifest has that of the last
/// tag that points at it.
pub open spec fn tag_media(rows: Seq<((String, String), (String, String))>) -> Map<
    (Text, Text),
    Text,
>
    decreases rows.len(),
{
    if rows.len() == 0 {
        Map::empty()
    } else {
        let row = rows.last();
        tag_media(rows.drop_last()).insert((row.0.0@, row.1.0@), row.1.1@)
    }
}

/// One record per manifest whose media type is not the one that `left` has: those
/// that no tag points at, and those that a tag records under another.
pub open spec fn media_ops(
    rows: Seq<((String, String), String)>,
    left: Map<(Text, Text), Text>,
) -> Seq<Op>
    decreases rows.len(),
{
    if rows.len() == 0 {
        Seq::empty()
    } else {
        let row = rows.last();
        let k = (row.0.0@, row.0.1@);
        let init = media_ops(rows.drop_last(), left);
        if left.contains_key(k) && left[k] == row.1@ {
            init
        } else {
            init.push(manifest_op(k.0, k.1, row.1@, None))
        }
    }
}

/// One record per manifest of one blob.
pub open spec fn edge_ops(repo: Text, blob: Text, manifests: Seq<Text>) -> Seq<Op> {
    Seq::new(
        manifests.len(),
        |i: int| Op::PutBackrefs { repo, manifest: manifests[i], blobs: seq![blob] },
    )
}

/// One record per backref edge.
pub open spec fn backref_ops(rows: Seq<((String, String), Vec<String>)>) -> Seq<Op>
    decreases rows.len(),
{
    if rows.len() == 0 {
        Seq::empty()
    } else {
        let row = rows.last();
        backref_ops(rows.drop_last()) + edge_ops(row.0.0@, row.0.1@, texts(row.1@))
    }
}

/// One record per referrer.
pub open spec fn referrer_ops(rows: Seq<((String, String, String), (String, Vec<u8>))>) -> Seq<Op> {
    Seq::new(
        rows.len(),
        |i: int|
            Op::PutReferrer {
                repo: rows[i].0.0@,
                subject: rows[i].0.1@,
                referrer: rows[i].0.2@,
                descriptor: rows[i].1.1@,
            },
    )
}

/// One record per checksum.
pub open spec fn checksum_ops(rows: Seq<((String, String), BlobChecksum)>) -> Seq<Op> {
    Seq::new(
        rows.len(),
        |i: int|
            Op::PutChecksum { repo: rows[i].0.0@, digest: rows[i].0.1@, checksum: rows[i].1 },
    )
}

/// The mutations of a snapshot's image: a record per tag, per manifest that the
/// tags leave without its media type, per backref edge, per referrer and per
/// checksum.
pub open spec fn image_of(snap: SnapshotState) -> Seq<Op> {
    tag_ops(snap.tags.rows()) + media_ops(
        snap.media_types.rows(),
        tag_media(snap.tags.rows()),
    ) + backref_ops(
        snap.backrefs.rows(),
    ) + referrer_ops(snap.referrers.rows()) + checksum_ops(snap.checksums.rows())
}

/// Adds the records of the tags.
fn push_tags(snap: &SnapshotState, out: &mut Vec<MetaOp>)
    ensures
        op_models(final(out)@) == op_models(old(out)@) + tag_ops(snap.tags.rows()),
{
    let ghost base = op_models(out@);
    let ghost rows = snap.tags.rows();
    let mut i: usize = 0;
    assert(base + tag_ops(rows.take(0)) =~= base);
    while i < snap.tags.len()
        invariant
            rows == snap.tags.rows(),
            i <= rows.len(),
            op_models(out@) == base + tag_ops(rows.take(i as int)),
        decreases rows.len() - i,
    {
        let ghost out0 = out@;
        let k = snap.tags.key_at(i);
        let v = snap.tags.value_at(i);
        let op = MetaOp::PutManifest {
            repo: k.0.clone(),
            digest: v.0.clone(),
            media_type: v.1.clone(),
            tag: Some(k.1.clone()),
            references: Vec::new(),
            referrer: None,
        };
        proof {
            assert(op.model()->references =~= Seq::<Text>::empty());
        }
        out.push(op);
        proof {
            assert(op_models(out@) =~= op_models(out0).push(op.model()));
            assert(tag_ops(rows.take(i + 1)) =~= tag_ops(rows.take(i as int)).push(op.model()));
            assert(base + tag_ops(rows.take(i + 1)) =~= (base + tag_ops(rows.take(i as int))).push(
                op.model(),
            ));
        }
        i += 1;
    }
    assert(rows.take(rows.len() as int) =~= rows);
}

/// The media types that the tag records leave.
fn tagged_media(snap: &SnapshotState) -> (r: Table<(String, String), String>)
    requires
        snap.wf(),
    ensures
        r.wf(),
        media_rows(r.map()) == tag_media(snap.tags.rows()),
{
    let ghost rows = snap.tags.rows();
    let mut left: Table<(String, String), String> = Table::new();
    let mut i: usize = 0;
    assert(media_rows(left.map()) =~= tag_media(rows.take(0)));
    while i < snap.tags.len()
        invariant
            snap.wf(),
            rows == snap.tags.rows(),
            i <= rows.len(),
            left.wf(),
            media_rows(left.map()) == tag_media(rows.take(i as int)),
        decreases rows.len() - i,
    {
        let ghost next = rows.take(i + 1);
        let ghost before = left.map();
        let k = snap.tags.key_at(i);
        let v = snap.tags.value_at(i);
        proof {
            assert(next.drop_last() =~= rows.take(i as int));
            assert(next.last() == rows[i as int]);
        }
        left.insert(pair(k.0.as_str(), v.0.as_str()), v.1.clone());
        assert(media_rows(left.map()) =~= media_rows(before).insert((k.0@, v.0@), v.1@));
        i += 1;
    }
    assert(rows.take(rows.len() as int) =~= rows);
    left
}

/// Adds the records of the manifests that the tags leave without their media
/// type.
fn push_media(snap: &SnapshotState, out: &mut Vec<MetaOp>)
    requires
        snap.wf(),
    ensures
        op_models(final(out)@) == op_models(old(out)@) + media_ops(
            snap.media_types.rows(),
            tag_media(snap.tags.rows()),
        ),
{
    let tagged = tagged_media(snap);
    let ghost base = op_models(out@);
    let ghost rows = snap.media_types.rows();
    let ghost left = tag_media(snap.tags.rows());
    let mut i: usize = 0;
    assert(base + media_ops(rows.take(0), left) =~= base);
    while i < snap.media_types.len()
        invariant
            rows == snap.media_types.rows(),
            tagged.wf(),
            media_rows(tagged.map()) == left,
            i <= rows.len(),
            op_models(out@) == base + media_ops(rows.take(i as int), left),
        decreases rows.len() - i,
    {
        let ghost out0 = out@;
        let ghost next = rows.take(i + 1);
        let k = snap.media_types.key_at(i);
        let media_type = snap.media_types.value_at(i);
        proof {
            assert(next.drop_last() =~= rows.take(i as int));
            assert(next.last() == rows[i as int]);
            assert(k.deep_view() == (k.0@, k.1@));
            assert(left.dom() =~= tagged.map().dom());
        }
        let as_left = match tagged.get(k) {
            Some(m) => same(m.as_str(), media_type.as_str()),
            None => false,
        };
        if !as_left {
            let op = MetaOp::PutManifest {
                repo: k.0.clone(),
                digest: k.1.clone(),
                media_type: media_type.clone(),
                tag: None,
                references: Vec::new(),
                referrer: None,
            };
            proof {
                assert(op.model()->references =~= Seq::<Text>::empty());
            }
            out.push(op);
            proof {
                assert(op_models(out@) =~= op_models(out0).push(op.model()));
                assert(base + media_ops(next, left) =~= (base + media_ops(
                    rows.take(i as int),
                    left,
                )).push(op.model()));
            }
        }
        i += 1;
    }
    assert(rows.take(rows.len() as int) =~= rows);
}

/// Adds the records of one blob's edges.
fn push_edges(repo: &String, blob: &String, manifests: &Vec<String>, out: &mut Vec<MetaOp>)
    ensures
        op_models(final(out)@) == op_models(old(out)@) + edge_ops(repo@, blob@, texts(manifests@)),
{
    let ghost base = op_models(out@);
    let ghost ms = texts(manifests@);
    let mut i: usize = 0;
    assert(base + edge_ops(repo@, blob@, ms.take(0)) =~= base);
    while i < manifests.len()
        invariant
            ms == texts(manifests@),
            i <= ms.len(),
            op_models(out@) == base + edge_ops(repo@, blob@, ms.take(i as int)),
        decreases ms.len() - i,
    {
        let ghost out0 = out@;
        let mut blobs: Vec<String> = Vec::new();
        blobs.push(blob.clone());
        let op = MetaOp::PutBackrefs {
            repo: repo.clone(),
            manifest: manifests[i].clone(),
            blobs,
        };
        proof {
            assert(texts(blobs@) =~= seq![blob@]);
        }
        out.push(op);
        proof {
            assert(op_models(out@) =~= op_models(out0).push(op.model()));
            assert(edge_ops(repo@, blob@, ms.take(i + 1)) =~= edge_ops(
                repo@,
                blob@,
                ms.take(i as int),
            ).push(op.model()));
            assert(base + edge_ops(repo@, blob@, ms.take(i + 1)) =~= (base + edge_ops(
                repo@,
                blob@,
                ms.take(i as int),
            )).push(op.model()));
        }
        i += 1;
    }
    assert(ms.take(ms.len() as int) =~= ms);
}

/// Adds the records of all backref edges.
fn push_backrefs(snap: &SnapshotState, out: &mut Vec<MetaOp>)
    ensures
        op_models(final(out)@) == op_models(old(out)@) + backref_ops(snap.backrefs.rows()),
{
    let ghost base = op_models(out@);
    let ghost rows = snap.backrefs.rows();
    let mut i: usize = 0;
    assert(base + backref_ops(rows.take(0)) =~= base);
    while i < snap.backrefs.len()
        invariant
            rows == snap.backrefs.rows(),
            i <= rows.len(),
            op_models(out@) == base + backref_ops(rows.take(i as int)),
        decreases rows.len() - i,
    {
        let ghost next = rows.take(i + 1);
        let k = snap.backrefs.key_at(i);
        let v = snap.backrefs.value_at(i);
        proof {
            assert(next.drop_last() =~= rows.take(i as int));
            assert(next.last() == rows[i as int]);
        }
        push_edges(&k.0, &k.1, v, out);
        assert(op_models(out@) =~= base + backref_ops(next));
        i += 1;
    }
    assert(rows.take(rows.len() as int) =~= rows);
}

/// Adds the records of the referrers.
fn push_referrers(snap: &SnapshotState, out: &mut Vec<MetaOp>)
    ensures
        op_models(final(out)@) == op_models(old(out)@) + referrer_ops(snap.referrers.rows()),
{
    let ghost base = op_models(out@);
    let ghost rows = snap.referrers.rows();
    let mut i: usize = 0;
    assert(base + referrer_ops(rows.take(0)) =~= base);
    while i < snap.referrers.len()
        invariant
            rows == snap.referrers.rows(),
            i <= rows.len(),
            op_models(out@) == base + referrer_ops(rows.take(i as int)),
        decreases rows.len() - i,
    {
        let ghost out0 = out@;
        let k = snap.referrers.key_at(i);
        let op = MetaOp::PutReferrer {
            repo: k.0.clone(),
            subject: k.1.clone(),
            referrer: k.2.clone(),
            descriptor: vstd::slice::slice_to_vec(snap.referrers.value_at(i).1.as_slice()),
        };
        out.push(op);
        proof {
            assert(op_models(out@) =~= op_models(out0).push(op.model()));
            assert(referrer_ops(rows.take(i + 1)) =~= referrer_ops(rows.take(i as int)).push(
                op.model(),
            ));
            assert(base + referrer_ops(rows.take(i + 1)) =~= (base + referrer_ops(
                rows.take(i as int),
            )).push(op.model()));
        }
        i += 1;
    }
    assert(rows.take(rows.len() as int) =~= rows);
}

/// Adds the records of the checksums.
fn push_checksums(snap: &SnapshotState, out: &mut Vec<MetaOp>)
    ensures
        op_models(final(out)@) == op_models(old(out)@) + checksum_ops(snap.checksums.rows()),
{
    let ghost base = op_models(out@);
    let ghost rows = snap.checksums.rows();
    let mut i: usize = 0;
    assert(base + checksum_ops(rows.take(0)) =~= base);
    while i < snap.checksums.len()
        invariant
            rows == snap.checksums.rows(),
            i <= rows.len(),
            op_models(out@) == base + checksum_ops(rows.take(i as int)),
        decreases rows.len() - i,
    {
        let ghost out0 = out@;
        let k = snap.checksums.key_at(i);
        let v = snap.checksums.value_at(i);
        let op = MetaOp::PutChecksum {
            repo: k.0.clone(),
            digest: k.1.clone(),
            crc32c: v.crc32c,
            size: v.size,
        };
        out.push(op);
        proof {
            assert(op_models(out@) =~= op_models(out0).push(op.model()));
            assert(checksum_ops(rows.take(i + 1)) =~= checksum_ops(rows.take(i as int)).push(
                op.model(),
            ));
            assert(base + checksum_ops(rows.take(i + 1)) =~= (base + checksum_ops(
                rows.take(i as int),
            )).push(op.model()));
        }
        i += 1;
    }
    assert(rows.take(rows.len() as int) =~= rows);
}

/// The mutations of a snapshot's image.
pub fn image_ops(snap: &SnapshotState) -> (r: Vec<MetaOp>)
    requires
        snap.wf(),
    ensures
        op_models(r@) == image_of(*snap),
{
    let mut out: Vec<MetaOp> = Vec::new();
    assert(op_models(out@) + tag_ops(snap.tags.rows()) =~= tag_ops(snap.tags.rows()));
    push_tags(snap, &mut out);
    push_media(snap, &mut out);
    push_backrefs(snap, &mut out);
    push_referrers(snap, &mut out);
    push_checksums(snap, &mut out);
    out
}

/// The frames of some mutations, in order.
pub open spec fn op_frames(ops: Seq<Op>, key: Option<Seq<u8>>) -> Seq<u8>
    decreases ops.len(),
{
    if ops.len() == 0 {
        Seq::empty()
    } else {
        op_frames(ops.drop_last(), key) + frame(op_payload(ops.last()), key)
    }
}

/// What stands before the mutations: the header, then the generation marker
/// when the image belongs to a snapshot.
pub open spec fn image_head(generation: Option<u64>, key: Option<Seq<u8>>) -> Seq<u8> {
    frame(header_payload(mode_for(key)), key) + (match generation {
        Some(g) => frame(marker_payload(g), key),
        None => Seq::empty(),
    })
}

/// Encodes the generation marker's payload.
pub fn encode_marker(generation: u64) -> (r: Vec<u8>)
    ensures
        r@ == marker_payload(generation),
{
    let digits = decimal_text(generation);
    let text = concat3("{\"op\":\"gen\",\"gen\":", digits.as_str(), "}");
    vstd::slice::slice_to_vec(text.as_str().as_bytes())
}

/// Every part of an image is framed to its full length and reads back.
pub open spec fn image_whole(generation: Option<u64>, ops: Seq<Op>, key: Option<Seq<u8>>) -> bool {
    &&& frame(header_payload(mode_for(key)), key).len() == 8 + header_payload(mode_for(key)).len()
        + tag_len(key)
    &&& generation matches Some(g) ==> frame(marker_payload(g), key).len() == 8 + marker_payload(
        g,
    ).len() + tag_len(key)
    &&& forall|i: int|
        #![trigger ops[i]]
        0 <= i < ops.len() ==> parsed(op_payload(ops[i])) == Some(op_json(ops[i])) && frame(
            op_payload(ops[i]),
            key,
        ).len() == 8 + op_payload(ops[i]).len() + tag_len(key)
}

/// Writes the log image of a snapshot.
pub fn log_image(snap: &SnapshotState, generation: Option<u64>, key: Option<&HmacKey>) -> (r: Vec<
    u8,
>)
    requires
        snap.wf(),
    ensures
        r@ == image_head(generation, key_bytes(key)) + op_frames(image_of(*snap), key_bytes(key)),
        image_whole(generation, image_of(*snap), key_bytes(key)),
{
    let ghost k = key_bytes(key);
    let header = encode_header(framing_mode(key));
    let mut out = encode_raw(header.as_slice(), key);
    match generation {
        Some(g) => {
            let marker = encode_marker(g);
            let framed = encode_raw(marker.as_slice(), key);
            extend(&mut out, framed.as_slice());
        },
        None => {
            assert(out@ + Seq::<u8>::empty() =~= out@);
        },
    }
    let ghost head = out@;
    let ops = image_ops(snap);
    let ghost all = op_models(ops@);
    let mut i: usize = 0;
    assert(head + op_frames(all.take(0), k) =~= head);
    while i < ops.len()
        invariant
            k == key_bytes(key),
            all == op_models(ops@),
            i <= ops@.len(),
            out@ == head + op_frames(all.take(i as int), k),
            forall|j: int|
                #![trigger all[j]]
                0 <= j < i ==> parsed(op_payload(all[j])) == Some(op_json(all[j])) && frame(
                    op_payload(all[j]),
                    k,
                ).len() == 8 + op_payload(all[j]).len() + tag_len(k),
        decreases ops@.len() - i,
    {
        let ghost next = all.take(i + 1);
        let framed = encode(&ops[i], key);
        proof {
            assert(next.drop_last() =~= all.take(i as int));
            assert(next.last() == ops@[i as int].model());
            assert(all[i as int] == ops@[i as int].model());
        }
        extend(&mut out, framed.as_slice());
        assert(out@ =~= head + op_frames(next, k));
        i += 1;
    }
    assert(all.take(all.len() as int) =~= all);
    out
}

} // verus!
