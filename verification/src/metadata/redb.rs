//! The key-value engine: ordered tables with indexes beside them. A mutation is
//! a run of table writes, worked out from what was read beforehand, so that one
//! transaction can hold all of them.

use crate::lists::lemma_pushed;
use crate::metadata::log::extend;
use crate::metadata::model::Op;
use crate::metadata::redb_model::{
    apply_ordered, backref_lists, checksum_in, in_order, indexed, lemma_manifests_finite,
    lemma_sorted_texts, lemma_with_edges, lemma_with_referrer, lemma_with_tag, lemma_without_edges,
    lemma_without_referrer, lemma_without_subjects, lemma_without_tags, manifests_of, names_subject,
    raw_tables, raw_write, raw_writes, reads_match, sorted_texts, subject_names, type_at,
    with_edges, with_referrer, with_tag, without_edges, without_referrer, without_subjects,
    without_tags, OpReads, Raw, TableWrite,
};
use crate::metadata::referrers::{artifact_type, opt_string};
use crate::metadata::{BlobChecksum, MetaOp};
use crate::page::texts;
use crate::text::Text;
use vstd::bytes::{
    lemma_auto_spec_u32_to_from_le_bytes, lemma_auto_spec_u64_to_from_le_bytes,
    spec_u32_to_le_bytes, spec_u64_to_le_bytes, u32_from_le_bytes, u32_to_le_bytes,
    u64_from_le_bytes, u64_to_le_bytes,
};
use vstd::prelude::*;
use vstd::slice::slice_subrange;

verus! {

broadcast use vstd::string::group_string_axioms;

/// Twelve bytes: the checksum, then the size.
pub open spec fn checksum_bytes(crc: u32, size: u64) -> Seq<u8> {
    spec_u32_to_le_bytes(crc) + spec_u64_to_le_bytes(size)
}

/// Encoding a checksum and decoding it gives it back.
pub proof fn checksum_roundtrip(crc: u32, size: u64)
    ensures
        checksum_bytes(crc, size).len() == 12,
        checksum_in(checksum_bytes(crc, size)) == (BlobChecksum { crc32c: crc, size }),
{
    lemma_auto_spec_u32_to_from_le_bytes();
    lemma_auto_spec_u64_to_from_le_bytes();
    let b = checksum_bytes(crc, size);
    assert(b.subrange(0, 4) =~= spec_u32_to_le_bytes(crc));
    assert(b.subrange(4, 12) =~= spec_u64_to_le_bytes(size));
}

/// Encodes a checksum.
pub fn encode_checksum(crc: u32, size: u64) -> (r: Vec<u8>)
    ensures
        r@ == checksum_bytes(crc, size),
        r@.len() == 12,
        checksum_in(r@) == (BlobChecksum { crc32c: crc, size }),
{
    let mut out = u32_to_le_bytes(crc);
    let tail = u64_to_le_bytes(size);
    extend(&mut out, tail.as_slice());
    proof {
        checksum_roundtrip(crc, size);
    }
    out
}

/// Decodes a checksum.
pub fn decode_checksum(bytes: &[u8]) -> (r: BlobChecksum)
    requires
        bytes@.len() >= 12,
    ensures
        r == checksum_in(bytes@),
{
    BlobChecksum {
        crc32c: u32_from_le_bytes(slice_subrange(bytes, 0, 4)),
        size: u64_from_le_bytes(slice_subrange(bytes, 4, 12)),
    }
}

/// One more write.
proof fn lemma_one_more(x: Raw, ws: Seq<TableWrite>, w: TableWrite)
    ensures
        raw_writes(x, ws.push(w)) == raw_write(raw_writes(x, ws), w),
{
    assert(ws.push(w).drop_last() =~= ws);
    assert(ws.push(w).last() == w);
}

/// The writes `to` do after the writes `from` what `step` does.
pub open spec fn does(from: Seq<TableWrite>, to: Seq<TableWrite>, step: spec_fn(Raw) -> Raw) -> bool {
    forall|x: Raw| #[trigger] raw_writes(x, to) == step(raw_writes(x, from))
}

/// Adds the writes that record edges.
pub fn add_backrefs_in_txn(
    repo: &String,
    manifest: &String,
    blobs: &Vec<String>,
    out: &mut Vec<TableWrite>,
)
    ensures
        does(
            old(out)@,
            final(out)@,
            |x: Raw| with_edges(x, repo@, manifest@, texts(blobs@)),
        ),
{
    let ghost start = out@;
    let ghost all = texts(blobs@);
    let mut i: usize = 0;
    proof {
        assert forall|x: Raw| #[trigger] raw_writes(x, start) == with_edges(
            raw_writes(x, start),
            repo@,
            manifest@,
            all.take(0),
        ) by {
            let y = raw_writes(x, start);
            assert(with_edges(y, repo@, manifest@, all.take(0)) =~= y);
        }
    }
    while i < blobs.len()
        invariant
            all == texts(blobs@),
            i <= all.len(),
            forall|x: Raw| #[trigger]
                raw_writes(x, out@) == with_edges(
                    raw_writes(x, start),
                    repo@,
                    manifest@,
                    all.take(i as int),
                ),
        decreases all.len() - i,
    {
        let ghost before = out@;
        out.push(
            TableWrite::PutBackref {
                repo: repo.clone(),
                blob: blobs[i].clone(),
                manifest: manifest.clone(),
            },
        );
        let ghost middle = out@;
        out.push(
            TableWrite::PutEdge {
                repo: repo.clone(),
                manifest: manifest.clone(),
                blob: blobs[i].clone(),
            },
        );
        proof {
            let b = all[i as int];
            let next = all.take(i + 1);
            assert(next =~= all.take(i as int).push(b));
            assert forall|y: Text| next.contains(y) <==> all.take(i as int).contains(y) || y == b by {
                lemma_pushed(all.take(i as int), b, y);
            }
            assert forall|x: Raw| #[trigger] raw_writes(x, out@) == with_edges(
                raw_writes(x, start),
                repo@,
                manifest@,
                next,
            ) by {
                lemma_one_more(x, before, middle.last());
                lemma_one_more(x, middle, out@.last());
                assert(before.push(middle.last()) =~= middle);
                assert(middle.push(out@.last()) =~= out@);
                assert(raw_writes(x, before) == with_edges(
                    raw_writes(x, start),
                    repo@,
                    manifest@,
                    all.take(i as int),
                ));
                assert(raw_writes(x, out@) =~= with_edges(
                    raw_writes(x, start),
                    repo@,
                    manifest@,
                    next,
                ));
            }
        }
        i += 1;
    }
    assert(all.take(all.len() as int) =~= all);
}

/// Adds the writes that drop a referrer from a subject, where `old_type` is the
/// artifact type recorded for it.
pub fn remove_referrer_in_txn(
    repo: &String,
    subject: &String,
    referrer: &String,
    old_type: &Option<String>,
    out: &mut Vec<TableWrite>,
)
    ensures
        does(
            old(out)@,
            final(out)@,
            |x: Raw| without_referrer(x, repo@, subject@, referrer@, opt_string(*old_type)),
        ),
{
    let ghost w0 = out@;
    out.push(
        TableWrite::DropReferrer {
            repo: repo.clone(),
            subject: subject.clone(),
            referrer: referrer.clone(),
        },
    );
    let ghost w1 = out@;
    out.push(
        TableWrite::DropSubject {
            repo: repo.clone(),
            referrer: referrer.clone(),
            subject: subject.clone(),
        },
    );
    let ghost w2 = out@;
    out.push(
        TableWrite::DropType {
            repo: repo.clone(),
            subject: subject.clone(),
            referrer: referrer.clone(),
        },
    );
    let ghost w3 = out@;
    if let Some(t) = old_type {
        out.push(
            TableWrite::DropTyped {
                repo: repo.clone(),
                subject: subject.clone(),
                artifact_type: t.clone(),
                referrer: referrer.clone(),
            },
        );
    }
    proof {
        assert(w1 =~= w0.push(w1.last()) && w2 =~= w1.push(w2.last()) && w3 =~= w2.push(w3.last()));
        assert forall|x: Raw| #[trigger] raw_writes(x, out@) == without_referrer(
            raw_writes(x, w0),
            repo@,
            subject@,
            referrer@,
            opt_string(*old_type),
        ) by {
            lemma_one_more(x, w0, w1.last());
            lemma_one_more(x, w1, w2.last());
            lemma_one_more(x, w2, w3.last());
            if old_type is Some {
                lemma_one_more(x, w3, out@.last());
                assert(out@ =~= w3.push(out@.last()));
            }
            assert(raw_writes(x, out@) =~= without_referrer(
                raw_writes(x, w0),
                repo@,
                subject@,
                referrer@,
                opt_string(*old_type),
            ));
        }
    }
}

/// Adds the writes that put a referrer in place of what was there.
pub fn add_referrer_in_txn(
    repo: &String,
    subject: &String,
    referrer: &String,
    descriptor: &Vec<u8>,
    old_type: &Option<String>,
    out: &mut Vec<TableWrite>,
)
    ensures
        does(
            old(out)@,
            final(out)@,
            |x: Raw|
                with_referrer(
                    without_referrer(x, repo@, subject@, referrer@, opt_string(*old_type)),
                    repo@,
                    subject@,
                    referrer@,
                    descriptor@,
                ),
        ),
{
    let ghost start = out@;
    remove_referrer_in_txn(repo, subject, referrer, old_type, out);
    let found = artifact_type(descriptor.as_slice());
    let ghost w0 = out@;
    out.push(
        TableWrite::PutReferrer {
            repo: repo.clone(),
            subject: subject.clone(),
            referrer: referrer.clone(),
            descriptor: vstd::slice::slice_to_vec(descriptor.as_slice()),
        },
    );
    let ghost w1 = out@;
    out.push(
        TableWrite::PutSubject {
            repo: repo.clone(),
            referrer: referrer.clone(),
            subject: subject.clone(),
        },
    );
    let ghost w2 = out@;
    let ghost mut w3 = out@;
    if let Some(t) = &found {
        out.push(
            TableWrite::PutType {
                repo: repo.clone(),
                subject: subject.clone(),
                referrer: referrer.clone(),
                artifact_type: t.clone(),
            },
        );
        proof {
            w3 = out@;
        }
        out.push(
            TableWrite::PutTyped {
                repo: repo.clone(),
                subject: subject.clone(),
                artifact_type: t.clone(),
                referrer: referrer.clone(),
            },
        );
    }
    proof {
        assert(w1 =~= w0.push(w1.last()) && w2 =~= w1.push(w2.last()));
        assert forall|x: Raw| #[trigger] raw_writes(x, out@) == with_referrer(
            without_referrer(
                raw_writes(x, start),
                repo@,
                subject@,
                referrer@,
                opt_string(*old_type),
            ),
            repo@,
            subject@,
            referrer@,
            descriptor@,
        ) by {
            let y = raw_writes(x, w0);
            lemma_one_more(x, w0, w1.last());
            lemma_one_more(x, w1, w2.last());
            if found is Some {
                lemma_one_more(x, w2, w3.last());
                lemma_one_more(x, w3, out@.last());
                assert(w3 =~= w2.push(w3.last()));
                assert(out@ =~= w3.push(out@.last()));
            }
            assert(raw_writes(x, out@) =~= with_referrer(
                y,
                repo@,
                subject@,
                referrer@,
                descriptor@,
            ));
        }
    }
}

/// Adds the writes that point a tag, which pointed at `old_digest`, at a digest.
fn put_tag_in_txn(
    repo: &String,
    tag: &String,
    digest: &String,
    media_type: &String,
    old_digest: &Option<String>,
    out: &mut Vec<TableWrite>,
)
    ensures
        does(
            old(out)@,
            final(out)@,
            |x: Raw|
                with_tag(x, repo@, tag@, digest@, media_type@, opt_string(*old_digest)),
        ),
{
    let ghost w0 = out@;
    if let Some(o) = old_digest {
        out.push(
            TableWrite::DropTagOf { repo: repo.clone(), digest: o.clone(), tag: tag.clone() },
        );
    }
    let ghost w1 = out@;
    out.push(
        TableWrite::PutTag {
            repo: repo.clone(),
            tag: tag.clone(),
            digest: digest.clone(),
            media_type: media_type.clone(),
        },
    );
    let ghost w2 = out@;
    out.push(
        TableWrite::PutTagOf { repo: repo.clone(), digest: digest.clone(), tag: tag.clone() },
    );
    proof {
        assert forall|x: Raw| #[trigger] raw_writes(x, out@) == with_tag(
            raw_writes(x, w0),
            repo@,
            tag@,
            digest@,
            media_type@,
            opt_string(*old_digest),
        ) by {
            if old_digest is Some {
                lemma_one_more(x, w0, w1.last());
                assert(w1 =~= w0.push(w1.last()));
            }
            lemma_one_more(x, w1, w2.last());
            lemma_one_more(x, w2, out@.last());
            assert(w2 =~= w1.push(w2.last()));
            assert(out@ =~= w2.push(out@.last()));
            assert(raw_writes(x, out@) =~= with_tag(
                raw_writes(x, w0),
                repo@,
                tag@,
                digest@,
                media_type@,
                opt_string(*old_digest),
            ));
        }
    }
}

/// Adds the writes that drop the tags of a digest.
fn drop_tags_in_txn(repo: &String, digest: &String, tags: &Vec<String>, out: &mut Vec<TableWrite>)
    ensures
        does(
            old(out)@,
            final(out)@,
            |x: Raw| without_tags(x, repo@, digest@, texts(tags@)),
        ),
{
    let ghost start = out@;
    let ghost all = texts(tags@);
    let mut i: usize = 0;
    proof {
        assert forall|x: Raw| #[trigger] raw_writes(x, start) == without_tags(
            raw_writes(x, start),
            repo@,
            digest@,
            all.take(0),
        ) by {
            let y = raw_writes(x, start);
            assert(without_tags(y, repo@, digest@, all.take(0)) =~= y);
        }
    }
    while i < tags.len()
        invariant
            all == texts(tags@),
            i <= all.len(),
            forall|x: Raw| #[trigger]
                raw_writes(x, out@) == without_tags(
                    raw_writes(x, start),
                    repo@,
                    digest@,
                    all.take(i as int),
                ),
        decreases all.len() - i,
    {
        let ghost before = out@;
        out.push(TableWrite::DropTag { repo: repo.clone(), tag: tags[i].clone() });
        let ghost middle = out@;
        out.push(
            TableWrite::DropTagOf {
                repo: repo.clone(),
                digest: digest.clone(),
                tag: tags[i].clone(),
            },
        );
        proof {
            let b = all[i as int];
            let next = all.take(i + 1);
            assert(next =~= all.take(i as int).push(b));
            assert forall|y: Text| next.contains(y) <==> all.take(i as int).contains(y) || y == b by {
                lemma_pushed(all.take(i as int), b, y);
            }
            assert forall|x: Raw| #[trigger] raw_writes(x, out@) == without_tags(
                raw_writes(x, start),
                repo@,
                digest@,
                next,
            ) by {
                lemma_one_more(x, before, middle.last());
                lemma_one_more(x, middle, out@.last());
                assert(before.push(middle.last()) =~= middle);
                assert(middle.push(out@.last()) =~= out@);
                assert(raw_writes(x, before) == without_tags(
                    raw_writes(x, start),
                    repo@,
                    digest@,
                    all.take(i as int),
                ));
                assert(raw_writes(x, out@) =~= without_tags(
                    raw_writes(x, start),
                    repo@,
                    digest@,
                    next,
                ));
            }
        }
        i += 1;
    }
    assert(all.take(all.len() as int) =~= all);
}

/// The model of the subjects that were read.
pub open spec fn read_subjects(s: Seq<(String, Option<String>)>) -> Seq<(Text, Option<Text>)> {
    Seq::new(s.len(), |i: int| (s[i].0@, opt_string(s[i].1)))
}

/// Adds the writes that drop a referrer from each of some subjects.
fn drop_subjects_in_txn(
    repo: &String,
    referrer: &String,
    subjects: &Vec<(String, Option<String>)>,
    out: &mut Vec<TableWrite>,
)
    ensures
        does(
            old(out)@,
            final(out)@,
            |x: Raw| without_subjects(x, repo@, referrer@, read_subjects(subjects@)),
        ),
{
    let ghost start = out@;
    let ghost all = read_subjects(subjects@);
    let mut i: usize = 0;
    while i < subjects.len()
        invariant
            all == read_subjects(subjects@),
            i <= all.len(),
            forall|x: Raw| #[trigger]
                raw_writes(x, out@) == without_subjects(
                    raw_writes(x, start),
                    repo@,
                    referrer@,
                    all.take(i as int),
                ),
        decreases all.len() - i,
    {
        let ghost before = out@;
        let (subject, old_type) = &subjects[i];
        remove_referrer_in_txn(repo, subject, referrer, old_type, out);
        proof {
            let next = all.take(i + 1);
            assert(next.drop_last() =~= all.take(i as int));
            assert(next.last() == (subject@, opt_string(*old_type)));
            assert forall|x: Raw| #[trigger] raw_writes(x, out@) == without_subjects(
                raw_writes(x, start),
                repo@,
                referrer@,
                next,
            ) by {
                assert(raw_writes(x, before) == without_subjects(
                    raw_writes(x, start),
                    repo@,
                    referrer@,
                    all.take(i as int),
                ));
            }
        }
        i += 1;
    }
    assert(all.take(all.len() as int) =~= all);
}

/// Adds the writes that drop a manifest from the blobs it references.
fn drop_edges_in_txn(repo: &String, manifest: &String, blobs: &Vec<String>, out: &mut Vec<TableWrite>)
    ensures
        does(
            old(out)@,
            final(out)@,
            |x: Raw| without_edges(x, repo@, manifest@, texts(blobs@)),
        ),
{
    let ghost start = out@;
    let ghost all = texts(blobs@);
    let ghost part = |x: Raw, bs: Seq<Text>| Raw {
        backrefs: x.backrefs.filter(
            |k: (Text, Text, Text)| !(k.0 == repo@ && k.2 == manifest@ && bs.contains(k.1)),
        ),
        ..x
    };
    let mut i: usize = 0;
    proof {
        assert forall|x: Raw| #[trigger] raw_writes(x, start) == part(
            raw_writes(x, start),
            all.take(0),
        ) by {
            let y = raw_writes(x, start);
            assert(part(y, all.take(0)) =~= y);
        }
    }
    while i < blobs.len()
        invariant
            all == texts(blobs@),
            i <= all.len(),
            forall|x: Raw, bs: Seq<Text>| #[trigger]
                part(x, bs) == (Raw {
                    backrefs: x.backrefs.filter(
                        |k: (Text, Text, Text)|
                            !(k.0 == repo@ && k.2 == manifest@ && bs.contains(k.1)),
                    ),
                    ..x
                }),
            forall|x: Raw| #[trigger]
                raw_writes(x, out@) == part(raw_writes(x, start), all.take(i as int)),
        decreases all.len() - i,
    {
        let ghost before = out@;
        out.push(
            TableWrite::DropBackref {
                repo: repo.clone(),
                blob: blobs[i].clone(),
                manifest: manifest.clone(),
            },
        );
        proof {
            let b = all[i as int];
            let next = all.take(i + 1);
            assert(next =~= all.take(i as int).push(b));
            assert forall|y: Text| next.contains(y) <==> all.take(i as int).contains(y) || y == b by {
                lemma_pushed(all.take(i as int), b, y);
            }
            assert forall|x: Raw| #[trigger] raw_writes(x, out@) == part(
                raw_writes(x, start),
                next,
            ) by {
                lemma_one_more(x, before, out@.last());
                assert(before.push(out@.last()) =~= out@);
                assert(raw_writes(x, before) == part(raw_writes(x, start), all.take(i as int)));
                assert(raw_writes(x, out@) =~= part(raw_writes(x, start), next));
            }
        }
        i += 1;
    }
    let ghost before = out@;
    out.push(TableWrite::DropEdges { repo: repo.clone(), manifest: manifest.clone() });
    proof {
        assert(all.take(all.len() as int) =~= all);
        assert forall|x: Raw| #[trigger] raw_writes(x, out@) == without_edges(
            raw_writes(x, start),
            repo@,
            manifest@,
            all,
        ) by {
            lemma_one_more(x, before, out@.last());
            assert(before.push(out@.last()) =~= out@);
            assert(raw_writes(x, before) == part(raw_writes(x, start), all));
            assert(raw_writes(x, out@) =~= without_edges(
                raw_writes(x, start),
                repo@,
                manifest@,
                all,
            ));
        }
    }
}

/// The writes do to any tables that match the reads what the mutation does to
/// the index, and keep the indexes in step.
pub open spec fn carries_out(ws: Seq<TableWrite>, op: Op, reads: OpReads) -> bool {
    forall|x: Raw|
        #![trigger raw_writes(x, ws)]
        indexed(x) && reads_match(x, op, reads) ==> indexed(raw_writes(x, ws)) && raw_tables(
            raw_writes(x, ws),
        ) == apply_ordered(raw_tables(x), op)
}

/// Lists that are in order stay as they are.
proof fn lemma_lists_in_order(s: Set<(Text, Text, Text)>)
    requires
        s.finite(),
    ensures
        in_order(backref_lists(s)) == backref_lists(s),
{
    let m = backref_lists(s);
    assert forall|k: (Text, Text)| #![trigger m[k]] m.contains_key(k) implies sorted_texts(
        m[k].to_set(),
    ) == m[k] by {
        lemma_manifests_finite(s, k);
        lemma_sorted_texts(manifests_of(s, k));
    }
    assert(in_order(m) =~= m);
}

/// The tables once a manifest is put.
spec fn manifest_put(
    x: Raw,
    repo: Text,
    digest: Text,
    media_type: Text,
    tag: Option<Text>,
    references: Seq<Text>,
    referrer: Option<(Text, Seq<u8>)>,
    reads: OpReads,
) -> Raw {
    let x1 = Raw { media_types: x.media_types.insert((repo, digest), media_type), ..x };
    let x2 = match tag {
        Some(t) => with_tag(x1, repo, t, digest, media_type, opt_string(reads.old_digest)),
        None => x1,
    };
    let x3 = with_edges(x2, repo, digest, references);
    match referrer {
        Some(s) => with_referrer(
            without_referrer(x3, repo, s.0, digest, opt_string(reads.old_type)),
            repo,
            s.0,
            digest,
            s.1,
        ),
        None => x3,
    }
}

/// Putting a manifest does what it should.
proof fn lemma_manifest_put(
    x: Raw,
    repo: Text,
    digest: Text,
    media_type: Text,
    tag: Option<Text>,
    references: Seq<Text>,
    referrer: Option<(Text, Seq<u8>)>,
    reads: OpReads,
)
    requires
        indexed(x),
        reads_match(
            x,
            Op::PutManifest { repo, digest, media_type, tag, references, referrer },
            reads,
        ),
    ensures
        ({
            let op = Op::PutManifest { repo, digest, media_type, tag, references, referrer };
            let y = manifest_put(
                x,
                repo,
                digest,
                media_type,
                tag,
                references,
                referrer,
                reads,
            );
            &&& indexed(y)
            &&& raw_tables(y) == apply_ordered(raw_tables(x), op)
        }),
{
    let op = Op::PutManifest { repo, digest, media_type, tag, references, referrer };
    let x1 = Raw { media_types: x.media_types.insert((repo, digest), media_type), ..x };
    assert(indexed(x1));
    let x2 = match tag {
        Some(t) => {
            lemma_with_tag(x1, repo, t, digest, media_type);
            with_tag(x1, repo, t, digest, media_type, opt_string(reads.old_digest))
        },
        None => x1,
    };
    lemma_with_edges(x2, repo, digest, references);
    let x3 = with_edges(x2, repo, digest, references);
    if let Some(s) = referrer {
        assert(type_at(x3, (repo, s.0, digest)) == type_at(x, (repo, s.0, digest)));
        lemma_without_referrer(x3, repo, s.0, digest);
        let x4 = without_referrer(x3, repo, s.0, digest, opt_string(reads.old_type));
        lemma_with_referrer(x4, repo, s.0, digest, s.1);
    }
    let y = manifest_put(x, repo, digest, media_type, tag, references, referrer, reads);
    let want = apply_ordered(raw_tables(x), op);
    assert(raw_tables(y).referrers =~= want.referrers);
    assert(raw_tables(y) =~= want);
}

/// The tables once a manifest is deleted.
spec fn manifest_dropped(x: Raw, repo: Text, digest: Text, reads: OpReads) -> Raw {
    let x1 = Raw {
        checksums: x.checksums.remove((repo, digest)),
        media_types: x.media_types.remove((repo, digest)),
        ..x
    };
    let x2 = without_tags(x1, repo, digest, texts(reads.tags@));
    let x3 = without_subjects(x2, repo, digest, read_subjects(reads.subjects@));
    without_edges(x3, repo, digest, texts(reads.blobs@))
}

/// Deleting a manifest does what it should.
proof fn lemma_manifest_dropped(x: Raw, repo: Text, digest: Text, reads: OpReads)
    requires
        indexed(x),
        reads_match(x, Op::DeleteManifest { repo, digest }, reads),
    ensures
        indexed(manifest_dropped(x, repo, digest, reads)),
        raw_tables(manifest_dropped(x, repo, digest, reads)) == apply_ordered(
            raw_tables(x),
            Op::DeleteManifest { repo, digest },
        ),
{
    let x1 = Raw {
        checksums: x.checksums.remove((repo, digest)),
        media_types: x.media_types.remove((repo, digest)),
        ..x
    };
    assert(indexed(x1)) by {
        assert forall|k: (Text, Text)| #![trigger x1.checksums[k]] x1.checksums.contains_key(k) implies
            x1.checksums[k].len() == 12 by {
            assert(x.checksums[k] == x1.checksums[k]);
        }
    }
    let tags = texts(reads.tags@);
    assert forall|t: Text|
        #![trigger x1.tags_of.contains((repo, digest, t))]
        tags.contains(t) <==> x1.tags_of.contains((repo, digest, t)) by {
        assert(x.tags_of.contains((repo, digest, t)) <==> tags.contains(t));
    }
    lemma_without_tags(x1, repo, digest, tags);
    let x2 = without_tags(x1, repo, digest, tags);
    let subjects = read_subjects(reads.subjects@);
    assert forall|i: int| #![trigger subjects[i]] 0 <= i < subjects.len() implies subjects[i].1
        == type_at(x2, (repo, subjects[i].0, digest)) by {
        assert(opt_string(reads.subjects@[i].1) == type_at(
            x,
            (repo, reads.subjects@[i].0@, digest),
        ));
    }
    lemma_without_subjects(x2, repo, digest, subjects);
    let x3 = without_subjects(x2, repo, digest, subjects);
    let blobs = texts(reads.blobs@);
    assert forall|b: Text|
        #![trigger x3.edges.contains((repo, digest, b))]
        blobs.contains(b) <==> x3.edges.contains((repo, digest, b)) by {
        assert(x.edges.contains((repo, digest, b)) <==> blobs.contains(b));
    }
    lemma_without_edges(x3, repo, digest, blobs);
    let y = manifest_dropped(x, repo, digest, reads);
    let t = raw_tables(x);
    let want = apply_ordered(t, Op::DeleteManifest { repo, digest });
    assert forall|k: (Text, Text, Text)|
        #![trigger y.referrers.contains_key(k)]
        y.referrers.contains_key(k) <==> want.referrers.contains_key(k) by {
        assert(y.referrers == x3.referrers);
        assert(x3.referrers.contains_key(k) <==> x2.referrers.contains_key(k) && !(k.0 == repo
            && k.2 == digest && names_subject(subjects, k.1)));
        if k.0 == repo && k.2 == digest {
            let names = subject_names(reads.subjects@);
            assert(x.subjects.contains((repo, digest, k.1)) <==> x.referrers.contains_key(k));
            assert(names.contains(k.1) <==> x.subjects.contains((repo, digest, k.1)));
            if names.contains(k.1) {
                let i = choose|i: int| 0 <= i < names.len() && names[i] == k.1;
                assert(subjects[i].0 == k.1);
            }
            if names_subject(subjects, k.1) {
                let i = choose|i: int|
                    #![trigger subjects[i]]
                    0 <= i < subjects.len() && subjects[i].0 == k.1;
                assert(names[i] == k.1);
            }
        }
    }
    assert(raw_tables(y).referrers =~= want.referrers);
    assert(raw_tables(y).tags =~= want.tags);
    assert(raw_tables(y).checksums =~= want.checksums);
    assert(raw_tables(y) =~= want);
}

/// Putting a referrer does what it should.
proof fn lemma_referrer_put(
    x: Raw,
    repo: Text,
    subject: Text,
    referrer: Text,
    descriptor: Seq<u8>,
)
    requires
        indexed(x),
    ensures
        ({
            let y = with_referrer(
                without_referrer(
                    x,
                    repo,
                    subject,
                    referrer,
                    type_at(x, (repo, subject, referrer)),
                ),
                repo,
                subject,
                referrer,
                descriptor,
            );
            &&& indexed(y)
            &&& raw_tables(y) == apply_ordered(
                raw_tables(x),
                Op::PutReferrer { repo, subject, referrer, descriptor },
            )
        }),
{
    let old = type_at(x, (repo, subject, referrer));
    lemma_without_referrer(x, repo, subject, referrer);
    let mid = without_referrer(x, repo, subject, referrer, old);
    lemma_with_referrer(mid, repo, subject, referrer, descriptor);
    lemma_lists_in_order(x.backrefs);
    let y = with_referrer(mid, repo, subject, referrer, descriptor);
    let want = apply_ordered(
        raw_tables(x),
        Op::PutReferrer { repo, subject, referrer, descriptor },
    );
    assert(raw_tables(y).referrers =~= want.referrers);
    assert(raw_tables(y) =~= want);
}

/// Putting or dropping a checksum does what it should.
proof fn lemma_checksum_written(x: Raw, repo: Text, digest: Text, value: Option<Seq<u8>>)
    requires
        indexed(x),
        value matches Some(v) ==> v.len() == 12,
    ensures
        ({
            let y = Raw {
                checksums: match value {
                    Some(v) => x.checksums.insert((repo, digest), v),
                    None => x.checksums.remove((repo, digest)),
                },
                ..x
            };
            let op = match value {
                Some(v) => Op::PutChecksum { repo, digest, checksum: checksum_in(v) },
                None => Op::DeleteBlob { repo, digest },
            };
            &&& indexed(y)
            &&& raw_tables(y) == apply_ordered(raw_tables(x), op)
        }),
{
    let y = Raw {
        checksums: match value {
            Some(v) => x.checksums.insert((repo, digest), v),
            None => x.checksums.remove((repo, digest)),
        },
        ..x
    };
    let op = match value {
        Some(v) => Op::PutChecksum { repo, digest, checksum: checksum_in(v) },
        None => Op::DeleteBlob { repo, digest },
    };
    assert forall|k: (Text, Text)| #![trigger y.checksums[k]] y.checksums.contains_key(k) implies
        y.checksums[k].len() == 12 by {
        if k != (repo, digest) {
            assert(x.checksums[k] == y.checksums[k]);
        }
    }
    lemma_lists_in_order(x.backrefs);
    assert(raw_tables(y).checksums =~= apply_ordered(raw_tables(x), op).checksums);
    assert(raw_tables(y) =~= apply_ordered(raw_tables(x), op));
}

/// The writes that carry out a mutation, given what was read of the tables.
pub fn apply_op(op: &MetaOp, reads: &OpReads) -> (r: Vec<TableWrite>)
    ensures
        carries_out(r@, op.model(), *reads),
{
    let mut out: Vec<TableWrite> = Vec::new();
    let ghost none = out@;
    match op {
        MetaOp::PutManifest { repo, digest, media_type, tag, references, referrer } => {
            out.push(
                TableWrite::PutMediaType {
                    repo: repo.clone(),
                    digest: digest.clone(),
                    media_type: media_type.clone(),
                },
            );
            let ghost w1 = out@;
            if let Some(t) = tag {
                put_tag_in_txn(repo, t, digest, media_type, &reads.old_digest, &mut out);
            }
            let ghost w2 = out@;
            add_backrefs_in_txn(repo, digest, references, &mut out);
            let ghost w3 = out@;
            if let Some((subject, descriptor)) = referrer {
                add_referrer_in_txn(
                    repo,
                    subject,
                    digest,
                    descriptor,
                    &reads.old_type,
                    &mut out,
                );
            }
            proof {
                let m_tag = opt_string(*tag);
                let m_refs = texts(references@);
                let m_ref = match referrer {
                    Some(s) => Some((s.0@, s.1@)),
                    None => None,
                };
                assert forall|x: Raw|
                    #![trigger raw_writes(x, out@)]
                    indexed(x) && reads_match(x, op.model(), *reads) implies indexed(
                    raw_writes(x, out@),
                ) && raw_tables(raw_writes(x, out@)) == apply_ordered(
                    raw_tables(x),
                    op.model(),
                ) by {
                    lemma_one_more(x, none, w1.last());
                    assert(w1 =~= none.push(w1.last()));
                    lemma_manifest_put(
                        x,
                        repo@,
                        digest@,
                        media_type@,
                        m_tag,
                        m_refs,
                        m_ref,
                        *reads,
                    );
                    assert(raw_writes(x, none) == x);
                    assert(raw_writes(x, w1) == (Raw {
                        media_types: x.media_types.insert((repo@, digest@), media_type@),
                        ..x
                    }));
                    assert(raw_writes(x, w3) == with_edges(
                        raw_writes(x, w2),
                        repo@,
                        digest@,
                        m_refs,
                    ));
                    assert(raw_writes(x, out@) == manifest_put(
                        x,
                        repo@,
                        digest@,
                        media_type@,
                        m_tag,
                        m_refs,
                        m_ref,
                        *reads,
                    ));
                }
            }
        },
        MetaOp::DeleteManifest { repo, digest } => {
            out.push(TableWrite::DropChecksum { repo: repo.clone(), digest: digest.clone() });
            let ghost w1 = out@;
            out.push(TableWrite::DropMediaType { repo: repo.clone(), digest: digest.clone() });
            let ghost w2 = out@;
            drop_tags_in_txn(repo, digest, &reads.tags, &mut out);
            let ghost w3 = out@;
            drop_subjects_in_txn(repo, digest, &reads.subjects, &mut out);
            let ghost w4 = out@;
            drop_edges_in_txn(repo, digest, &reads.blobs, &mut out);
            proof {
                assert forall|x: Raw|
                    #![trigger raw_writes(x, out@)]
                    indexed(x) && reads_match(x, op.model(), *reads) implies indexed(
                    raw_writes(x, out@),
                ) && raw_tables(raw_writes(x, out@)) == apply_ordered(
                    raw_tables(x),
                    op.model(),
                ) by {
                    lemma_one_more(x, none, w1.last());
                    lemma_one_more(x, w1, w2.last());
                    assert(w1 =~= none.push(w1.last()));
                    assert(w2 =~= w1.push(w2.last()));
                    assert(raw_writes(x, none) == x);
                    assert(raw_writes(x, w3) == without_tags(
                        raw_writes(x, w2),
                        repo@,
                        digest@,
                        texts(reads.tags@),
                    ));
                    assert(raw_writes(x, w4) == without_subjects(
                        raw_writes(x, w3),
                        repo@,
                        digest@,
                        read_subjects(reads.subjects@),
                    ));
                    assert(raw_writes(x, out@) == manifest_dropped(x, repo@, digest@, *reads));
                    lemma_manifest_dropped(x, repo@, digest@, *reads);
                }
            }
        },
        MetaOp::PutBackrefs { repo, manifest, blobs } => {
            add_backrefs_in_txn(repo, manifest, blobs, &mut out);
            proof {
                assert forall|x: Raw|
                    #![trigger raw_writes(x, out@)]
                    indexed(x) && reads_match(x, op.model(), *reads) implies indexed(
                    raw_writes(x, out@),
                ) && raw_tables(raw_writes(x, out@)) == apply_ordered(
                    raw_tables(x),
                    op.model(),
                ) by {
                    assert(raw_writes(x, none) == x);
                    lemma_with_edges(x, repo@, manifest@, texts(blobs@));
                    assert(raw_tables(raw_writes(x, out@)) =~= apply_ordered(
                        raw_tables(x),
                        op.model(),
                    ));
                }
            }
        },
        MetaOp::PutReferrer { repo, subject, referrer, descriptor } => {
            add_referrer_in_txn(repo, subject, referrer, descriptor, &reads.old_type, &mut out);
            proof {
                assert forall|x: Raw|
                    #![trigger raw_writes(x, out@)]
                    indexed(x) && reads_match(x, op.model(), *reads) implies indexed(
                    raw_writes(x, out@),
                ) && raw_tables(raw_writes(x, out@)) == apply_ordered(
                    raw_tables(x),
                    op.model(),
                ) by {
                    assert(raw_writes(x, none) == x);
                    lemma_referrer_put(x, repo@, subject@, referrer@, descriptor@);
                }
            }
        },
        MetaOp::PutChecksum { repo, digest, crc32c, size } => {
            let value = encode_checksum(*crc32c, *size);
            let ghost bytes = value@;
            out.push(
                TableWrite::PutChecksum { repo: repo.clone(), digest: digest.clone(), value },
            );
            proof {
                assert forall|x: Raw|
                    #![trigger raw_writes(x, out@)]
                    indexed(x) && reads_match(x, op.model(), *reads) implies indexed(
                    raw_writes(x, out@),
                ) && raw_tables(raw_writes(x, out@)) == apply_ordered(
                    raw_tables(x),
                    op.model(),
                ) by {
                    lemma_one_more(x, none, out@.last());
                    assert(out@ =~= none.push(out@.last()));
                    assert(raw_writes(x, none) == x);
                    lemma_checksum_written(x, repo@, digest@, Some(bytes));
                }
            }
        },
        MetaOp::DeleteBlob { repo, digest } => {
            out.push(TableWrite::DropChecksum { repo: repo.clone(), digest: digest.clone() });
            proof {
                assert forall|x: Raw|
                    #![trigger raw_writes(x, out@)]
                    indexed(x) && reads_match(x, op.model(), *reads) implies indexed(
                    raw_writes(x, out@),
                ) && raw_tables(raw_writes(x, out@)) == apply_ordered(
                    raw_tables(x),
                    op.model(),
                ) by {
                    lemma_one_more(x, none, out@.last());
                    assert(out@ =~= none.push(out@.last()));
                    assert(raw_writes(x, none) == x);
                    lemma_checksum_written(x, repo@, digest@, None);
                }
            }
        },
    }
    out
}

} // verus!
