//! What the writes of the key-value engine do to its tables, and what the tables say
//! of the index.

use crate::metadata::model::backrefs_at;
use crate::metadata::redb_model::{
    indexed, lemma_list_holds, lemma_manifests_finite, lemma_sorted_texts, manifests_of, raw_tables,
    raw_write, raw_writes, Raw, TableWrite,
};
use crate::metadata::table_laws::{artifact_type_is_that_field, typed};
use crate::text::{text_lt, Text};
use vstd::bytes::{spec_u32_from_le_bytes, spec_u64_from_le_bytes};
use vstd::prelude::*;

verus! {

/// A row that is put is there with its value, a row that is dropped is not, and the
/// other rows of the table stay.
pub proof fn writes_put_and_drop_rows(x: Raw, w: TableWrite, k: (Text, Text), r: (Text, Text, Text))
    ensures
        ({
            let n = raw_write(x, w);
            &&& w matches TableWrite::PutTag { repo, tag, digest, media_type } ==> (n.tags[k] == (
            if k == (repo@, tag@) {
                (digest@, media_type@)
            } else {
                x.tags[k]
            })) && (n.tags.contains_key(k) <==> k == (repo@, tag@) || x.tags.contains_key(k))
            &&& w matches TableWrite::DropTag { repo, tag } ==> (n.tags.contains_key(k) <==> k != (
                repo@,
                tag@,
            ) && x.tags.contains_key(k))
            &&& w matches TableWrite::PutMediaType { repo, digest, media_type } ==> (
            n.media_types[k] == (if k == (repo@, digest@) {
                media_type@
            } else {
                x.media_types[k]
            })) && (n.media_types.contains_key(k) <==> k == (repo@, digest@)
                || x.media_types.contains_key(k))
            &&& w matches TableWrite::DropMediaType { repo, digest } ==> (
            n.media_types.contains_key(k) <==> k != (repo@, digest@) && x.media_types.contains_key(
                k,
            ))
            &&& w matches TableWrite::PutChecksum { repo, digest, value } ==> (n.checksums[k] == (
            if k == (repo@, digest@) {
                value@
            } else {
                x.checksums[k]
            })) && (n.checksums.contains_key(k) <==> k == (repo@, digest@)
                || x.checksums.contains_key(k))
            &&& w matches TableWrite::DropChecksum { repo, digest } ==> (n.checksums.contains_key(k)
                <==> k != (repo@, digest@) && x.checksums.contains_key(k))
            &&& w matches TableWrite::PutReferrer { repo, subject, referrer, descriptor } ==> (
            n.referrers[r] == (if r == (repo@, subject@, referrer@) {
                descriptor@
            } else {
                x.referrers[r]
            })) && (n.referrers.contains_key(r) <==> r == (repo@, subject@, referrer@)
                || x.referrers.contains_key(r))
            &&& w matches TableWrite::DropReferrer { repo, subject, referrer } ==> (
            n.referrers.contains_key(r) <==> r != (repo@, subject@, referrer@)
                && x.referrers.contains_key(r))
            &&& w matches TableWrite::PutBackref { repo, blob, manifest } ==> (n.backrefs.contains(
                r,
            ) <==> r == (repo@, blob@, manifest@) || x.backrefs.contains(r))
            &&& w matches TableWrite::DropBackref { repo, blob, manifest } ==> (n.backrefs.contains(
                r,
            ) <==> r != (repo@, blob@, manifest@) && x.backrefs.contains(r))
        }),
{
}

/// The rows of an index are put and dropped the same way.
pub proof fn writes_put_and_drop_index_rows(
    x: Raw,
    w: TableWrite,
    r: (Text, Text, Text),
    q: (Text, Text, Text, Text),
)
    ensures
        ({
            let n = raw_write(x, w);
            &&& w matches TableWrite::PutTagOf { repo, digest, tag } ==> (n.tags_of.contains(r)
                <==> r == (repo@, digest@, tag@) || x.tags_of.contains(r))
            &&& w matches TableWrite::DropTagOf { repo, digest, tag } ==> (n.tags_of.contains(r)
                <==> r != (repo@, digest@, tag@) && x.tags_of.contains(r))
            &&& w matches TableWrite::PutSubject { repo, referrer, subject } ==> (
            n.subjects.contains(r) <==> r == (repo@, referrer@, subject@) || x.subjects.contains(r))
            &&& w matches TableWrite::DropSubject { repo, referrer, subject } ==> (
            n.subjects.contains(r) <==> r != (repo@, referrer@, subject@) && x.subjects.contains(r))
            &&& w matches TableWrite::PutEdge { repo, manifest, blob } ==> (n.edges.contains(r)
                <==> r == (repo@, manifest@, blob@) || x.edges.contains(r))
            &&& w matches TableWrite::DropEdges { repo, manifest } ==> (n.edges.contains(r) <==> !(
            r.0 == repo@ && r.1 == manifest@) && x.edges.contains(r))
            &&& w matches TableWrite::PutType { repo, subject, referrer, artifact_type } ==> (
            n.types[r] == (if r == (repo@, subject@, referrer@) {
                artifact_type@
            } else {
                x.types[r]
            })) && (n.types.contains_key(r) <==> r == (repo@, subject@, referrer@)
                || x.types.contains_key(r))
            &&& w matches TableWrite::DropType { repo, subject, referrer } ==> (
            n.types.contains_key(r) <==> r != (repo@, subject@, referrer@) && x.types.contains_key(
                r,
            ))
            &&& w matches TableWrite::PutTyped { repo, subject, artifact_type, referrer } ==> (
            n.typed.contains(q) <==> q == (repo@, subject@, artifact_type@, referrer@)
                || x.typed.contains(q))
            &&& w matches TableWrite::DropTyped { repo, subject, artifact_type, referrer } ==> (
            n.typed.contains(q) <==> q != (repo@, subject@, artifact_type@, referrer@)
                && x.typed.contains(q))
        }),
{
}

/// Writes take effect in their order.
pub proof fn writes_take_effect_in_order(x: Raw, ws: Seq<TableWrite>, w: TableWrite)
    ensures
        raw_writes(x, Seq::empty()) == x,
        raw_writes(x, ws.push(w)) == raw_write(raw_writes(x, ws), w),
{
    assert(ws.push(w).drop_last() =~= ws);
}

/// The index is what the primary tables say: tags, media types and referrers as they
/// stand, for each blob the manifests of its rows in order, and the checksums that
/// the stored bytes encode.
pub proof fn tables_say_what_the_index_holds(x: Raw, k: (Text, Text), m: Text)
    requires
        x.backrefs.finite(),
    ensures
        raw_tables(x).tags == x.tags,
        raw_tables(x).media_types == x.media_types,
        raw_tables(x).referrers == x.referrers,
        backrefs_at(raw_tables(x).backrefs, k).contains(m) <==> x.backrefs.contains((k.0, k.1, m)),
        forall|i: int, j: int|
            #![trigger backrefs_at(raw_tables(x).backrefs, k)[i], backrefs_at(
                raw_tables(x).backrefs,
                k,
            )[j]]
            0 <= i < j < backrefs_at(raw_tables(x).backrefs, k).len() ==> text_lt(
                backrefs_at(raw_tables(x).backrefs, k)[i],
                backrefs_at(raw_tables(x).backrefs, k)[j],
            ),
        raw_tables(x).checksums.contains_key(k) <==> x.checksums.contains_key(k),
        x.checksums.contains_key(k) ==> raw_tables(x).checksums[k].crc32c == spec_u32_from_le_bytes(
            x.checksums[k].subrange(0, 4),
        ) && raw_tables(x).checksums[k].size == spec_u64_from_le_bytes(
            x.checksums[k].subrange(4, 12),
        ),
{
    lemma_list_holds(x.backrefs, k, m);
    lemma_manifests_finite(x.backrefs, k);
    lemma_sorted_texts(manifests_of(x.backrefs, k));
}

/// Tables in step list every tag under its digest, every subject under its referrer,
/// every referrer under the `artifactType` of its descriptor, and every edge from
/// both its ends.
pub proof fn indexes_follow_their_tables(x: Raw, r: Text, a: Text, b: Text, t: Text)
    requires
        indexed(x),
    ensures
        x.tags_of.contains((r, a, b)) <==> x.tags.contains_key((r, b)) && x.tags[(r, b)].0 == a,
        x.subjects.contains((r, b, a)) <==> x.referrers.contains_key((r, a, b)),
        x.typed.contains((r, a, t, b)) <==> x.referrers.contains_key((r, a, b)) && typed(
            x.referrers[(r, a, b)],
            t,
        ),
        x.edges.contains((r, b, a)) <==> x.backrefs.contains((r, a, b)),
{
    if x.referrers.contains_key((r, a, b)) {
        artifact_type_is_that_field(x.referrers[(r, a, b)], t);
    }
}

} // verus!
