//! What holds of the state under mutations: a delta over a base follows the
//! merged state, and the image of a snapshot reproduces it.

use crate::metadata::compact::lemma_join_grows;
use crate::metadata::image::{
    backref_ops, checksum_ops, edge_ops, image_of, manifest_op, media_ops, referrer_ops, tag_media,
    tag_ops,
};
use crate::metadata::model::{
    apply_delta, apply_deltas, apply_op, apply_ops, backrefs_at, backrefs_ok, joined,
    layered_backrefs, live_manifests, no_delta, no_tables, overlay, with_backref, with_backrefs,
    without, without_backrefs, Delta, Op, Tables,
};
use crate::metadata::snapshot::{backref_rows, tag_rows, SnapshotState};
use crate::page::texts;
use crate::table::{
    lemma_push_rows, lemma_row_at, lemma_row_of, lemma_row_unique, rows_map, rows_sorted, TableKey,
};
use crate::text::Text;
use vstd::prelude::*;

verus! {

/// What is left without a text.
pub proof fn lemma_without_member(s: Seq<Text>, y: Text, x: Text)
    ensures
        without(s, x).contains(y) <==> s.contains(y) && y != x,
{
    lemma_without_push(s, y, x);
}

/// Dropping a text, with one more text at the end.
proof fn lemma_without_push(s: Seq<Text>, y: Text, x: Text)
    ensures
        without(s.push(y), x) == (if y == x {
            without(s, x)
        } else {
            without(s, x).push(y)
        }),
        without(s, x).contains(y) <==> s.contains(y) && y != x,
    decreases s.len(),
{
    reveal(Seq::filter);
    assert(s.push(y).drop_last() =~= s);
    if s.len() > 0 {
        let init = s.drop_last();
        lemma_without_push(init, y, x);
        if s.contains(y) {
            let i = choose|i: int| 0 <= i < s.len() && s[i] == y;
            if i < init.len() {
                assert(init[i] == y);
            }
        }
        if init.contains(y) {
            let i = choose|i: int| 0 <= i < init.len() && init[i] == y;
            assert(s[i] == y);
        }
        let kept = without(init, x);
        if s.last() != x {
            assert(without(s, x) == kept.push(s.last()));
            assert(kept.push(s.last())[kept.len() as int] == s.last());
            if kept.contains(y) {
                let i = choose|i: int| 0 <= i < kept.len() && kept[i] == y;
                assert(kept.push(s.last())[i] == y);
            }
            if kept.push(s.last()).contains(y) && y != s.last() {
                let i = choose|i: int|
                    0 <= i < kept.push(s.last()).len() && kept.push(s.last())[i] == y;
                assert(kept[i] == y);
            }
        }
    }
}

/// Dropping a text from a join is joining without it.
proof fn lemma_join_without(a: Seq<Text>, b: Seq<Text>, x: Text)
    ensures
        without(joined(a, b), x) == joined(without(a, x), without(b, x)),
    decreases b.len(),
{
    if b.len() == 0 {
        assert(without(b, x) =~= Seq::empty()) by {
            reveal(Seq::filter);
        }
    } else {
        let init = b.drop_last();
        let last = b.last();
        let j = joined(a, init);
        lemma_join_without(a, init, x);
        lemma_without_push(j, last, x);
        lemma_without_push(init, last, x);
        assert(b =~= init.push(last));
        if last != x {
            assert(without(b, x) == without(init, x).push(last));
            assert(without(b, x).drop_last() =~= without(init, x));
            assert(without(b, x).last() == last);
        }
    }
}

/// Deleting one more manifest filters it out of what was live.
proof fn lemma_live_insert(s: Seq<Text>, repo: Text, deleted: Set<(Text, Text)>, x: Text)
    ensures
        live_manifests(s, repo, deleted.insert((repo, x))) == without(
            live_manifests(s, repo, deleted),
            x,
        ),
    decreases s.len(),
{
    reveal(Seq::filter);
    if s.len() == 0 {
        assert(live_manifests(s, repo, deleted.insert((repo, x))) =~= without(
            live_manifests(s, repo, deleted),
            x,
        ));
    } else {
        let init = s.drop_last();
        lemma_live_insert(init, repo, deleted, x);
        let live = live_manifests(init, repo, deleted);
        if !deleted.contains((repo, s.last())) {
            assert(live.push(s.last()).drop_last() =~= live);
        }
    }
}

/// A deletion elsewhere changes nothing here.
proof fn lemma_live_other(s: Seq<Text>, repo: Text, deleted: Set<(Text, Text)>, other: (Text, Text))
    requires
        other.0 != repo,
    ensures
        live_manifests(s, repo, deleted.insert(other)) == live_manifests(s, repo, deleted),
    decreases s.len(),
{
    reveal(Seq::filter);
    if s.len() > 0 {
        lemma_live_other(s.drop_last(), repo, deleted, other);
    }
}

/// Recording an edge in the delta records it in the merged backrefs.
proof fn lemma_backref_follows(base: Tables, d: Delta, repo: Text, manifest: Text, blob: Text)
    ensures
        overlay(
            base,
            Delta {
                tables: Tables {
                    backrefs: with_backref(d.tables.backrefs, repo, manifest, blob),
                    ..d.tables
                },
                ..d
            },
        ).backrefs == with_backref(overlay(base, d).backrefs, repo, manifest, blob),
{
    let d2 = Delta {
        tables: Tables {
            backrefs: with_backref(d.tables.backrefs, repo, manifest, blob),
            ..d.tables
        },
        ..d
    };
    let k = (repo, blob);
    let left = overlay(base, d2).backrefs;
    let m = overlay(base, d).backrefs;
    let right = with_backref(m, repo, manifest, blob);
    let live = live_manifests(backrefs_at(base.backrefs, k), repo, d.deleted_digests);
    let old_list = backrefs_at(d.tables.backrefs, k);
    lemma_join_grows(live, old_list);
    assert(layered_backrefs(base, d, k) == joined(live, old_list));
    assert(backrefs_at(m, k) =~= joined(live, old_list));
    if !old_list.contains(manifest) {
        assert(old_list.push(manifest).drop_last() =~= old_list);
        assert(layered_backrefs(base, d2, k) == joined(live, old_list.push(manifest)));
    } else {
        assert(joined(live, old_list).contains(manifest));
    }
    assert forall|x: (Text, Text)|
        #![trigger left.contains_key(x)]
        left.contains_key(x) == right.contains_key(x) && (left.contains_key(x) ==> left[x]
            == right[x]) by {
        if x != k {
            assert(layered_backrefs(base, d2, x) == layered_backrefs(base, d, x));
        }
    }
    assert(left =~= right);
}

/// Recording edges in the delta records them in the merged backrefs.
proof fn lemma_backrefs_follow(base: Tables, d: Delta, repo: Text, manifest: Text, blobs: Seq<Text>)
    ensures
        overlay(
            base,
            Delta {
                tables: Tables {
                    backrefs: with_backrefs(d.tables.backrefs, repo, manifest, blobs),
                    ..d.tables
                },
                ..d
            },
        ).backrefs == with_backrefs(overlay(base, d).backrefs, repo, manifest, blobs),
    decreases blobs.len(),
{
    if blobs.len() == 0 {
        assert(Delta {
            tables: Tables {
                backrefs: with_backrefs(d.tables.backrefs, repo, manifest, blobs),
                ..d.tables
            },
            ..d
        } =~= d);
    } else {
        let init = blobs.drop_last();
        lemma_backrefs_follow(base, d, repo, manifest, init);
        let mid = Delta {
            tables: Tables {
                backrefs: with_backrefs(d.tables.backrefs, repo, manifest, init),
                ..d.tables
            },
            ..d
        };
        lemma_backref_follows(base, mid, repo, manifest, blobs.last());
    }
}

/// Backrefs depend on the delta's backrefs and deletions alone.
proof fn lemma_backrefs_only(base: Tables, a: Delta, b: Delta)
    requires
        a.tables.backrefs == b.tables.backrefs,
        a.deleted_digests == b.deleted_digests,
    ensures
        overlay(base, a).backrefs == overlay(base, b).backrefs,
{
    assert forall|k: (Text, Text)| layered_backrefs(base, a, k) == layered_backrefs(base, b, k) by {}
    assert(overlay(base, a).backrefs =~= overlay(base, b).backrefs);
}

/// Deleting a manifest in the delta drops it from the merged backrefs.
proof fn lemma_backrefs_delete(base: Tables, d: Delta, repo: Text, digest: Text)
    ensures
        overlay(base, apply_delta(d, Op::DeleteManifest { repo, digest })).backrefs
            == without_backrefs(overlay(base, d).backrefs, repo, digest),
{
    let d2 = apply_delta(d, Op::DeleteManifest { repo, digest });
    let left = overlay(base, d2).backrefs;
    let m = overlay(base, d).backrefs;
    let right = without_backrefs(m, repo, digest);
    assert forall|k: (Text, Text)|
        #![trigger left.contains_key(k)]
        left.contains_key(k) == right.contains_key(k) && (left.contains_key(k) ==> left[k]
            == right[k]) by {
        let b = backrefs_at(base.backrefs, k);
        let live = live_manifests(b, k.0, d.deleted_digests);
        let list = backrefs_at(d.tables.backrefs, k);
        if k.0 == repo {
            lemma_live_insert(b, repo, d.deleted_digests, digest);
            lemma_join_without(live, list, digest);
            assert(without(Seq::<Text>::empty(), digest) =~= Seq::<Text>::empty()) by {
                reveal(Seq::filter);
            }
            assert(backrefs_at(d2.tables.backrefs, k) =~= without(list, digest));
            assert(layered_backrefs(base, d2, k) == without(layered_backrefs(base, d, k), digest));
            if layered_backrefs(base, d, k).len() == 0 {
                assert(layered_backrefs(base, d, k) =~= Seq::<Text>::empty());
            }
        } else {
            lemma_live_other(b, k.0, d.deleted_digests, (repo, digest));
            assert(backrefs_at(d2.tables.backrefs, k) == list);
            assert(layered_backrefs(base, d2, k) == layered_backrefs(base, d, k));
        }
    }
    assert(left =~= right);
}

/// A mutation recorded over a base shows as if it had been made on the merged
/// index.
pub proof fn delta_follows_the_merged_index(base: Tables, d: Delta, op: Op)
    ensures
        overlay(base, apply_delta(d, op)) == apply_op(overlay(base, d), op),
{
    let d2 = apply_delta(d, op);
    let left = overlay(base, d2);
    let t = overlay(base, d);
    let right = apply_op(t, op);
    match op {
        Op::PutManifest { repo, digest, media_type, tag, references, referrer } => {
            lemma_backrefs_follow(base, d, repo, digest, references);
            lemma_backrefs_only(
                base,
                d2,
                Delta {
                    tables: Tables {
                        backrefs: with_backrefs(d.tables.backrefs, repo, digest, references),
                        ..d.tables
                    },
                    ..d
                },
            );
        },
        Op::PutBackrefs { repo, manifest, blobs } => {
            lemma_backrefs_follow(base, d, repo, manifest, blobs);
            lemma_backrefs_only(
                base,
                d2,
                Delta {
                    tables: Tables {
                        backrefs: with_backrefs(d.tables.backrefs, repo, manifest, blobs),
                        ..d.tables
                    },
                    ..d
                },
            );
        },
        Op::DeleteManifest { repo, digest } => {
            lemma_backrefs_delete(base, d, repo, digest);
        },
        _ => {
            lemma_backrefs_only(base, d2, d);
        },
    }
    assert(left.tags =~= right.tags);
    assert(left.media_types =~= right.media_types);
    assert(left.referrers =~= right.referrers);
    assert(left.checksums =~= right.checksums);
    assert(left =~= right);
}

/// A snapshot with the mutations made since shows the index that running them on
/// the snapshot's contents gives.
pub proof fn snapshot_and_tail_are_the_index(base: Tables, ops: Seq<Op>)
    requires
        backrefs_ok(base.backrefs),
    ensures
        overlay(base, apply_deltas(no_delta(), ops)) == apply_ops(base, ops),
    decreases ops.len(),
{
    if ops.len() == 0 {
        overlay_of_nothing(base);
    } else {
        let init = ops.drop_last();
        snapshot_and_tail_are_the_index(base, init);
        delta_follows_the_merged_index(base, apply_deltas(no_delta(), init), ops.last());
    }
}

/// A delta that changes nothing shows the base.
pub proof fn overlay_of_nothing(base: Tables)
    requires
        backrefs_ok(base.backrefs),
    ensures
        overlay(base, no_delta()) == base,
{
    let t = overlay(base, no_delta());
    assert(t.tags =~= base.tags);
    assert(t.media_types =~= base.media_types);
    assert(t.referrers =~= base.referrers);
    assert(t.checksums =~= base.checksums);
    assert(t.backrefs =~= base.backrefs) by {
        assert forall|k: (Text, Text)|
            #![trigger t.backrefs.contains_key(k)]
            t.backrefs.contains_key(k) == base.backrefs.contains_key(k) && (
            t.backrefs.contains_key(k) ==> t.backrefs[k] == base.backrefs[k]) by {
            lemma_all_live(backrefs_at(base.backrefs, k), k.0);
            if base.backrefs.contains_key(k) {
                assert(base.backrefs[k].len() > 0);
            }
        }
    }
    assert(t =~= base);
}

/// With nothing deleted everything is live.
proof fn lemma_all_live(s: Seq<Text>, repo: Text)
    ensures
        live_manifests(s, repo, Set::empty()) == s,
    decreases s.len(),
{
    reveal(Seq::filter);
    if s.len() == 0 {
        assert(live_manifests(s, repo, Set::empty()) =~= s);
    } else {
        lemma_all_live(s.drop_last(), repo);
        assert(s.drop_last().push(s.last()) =~= s);
    }
}

/// Running two runs is running the joint run.
pub proof fn lemma_apply_join(t: Tables, a: Seq<Op>, b: Seq<Op>)
    ensures
        apply_ops(t, a + b) == apply_ops(apply_ops(t, a), b),
    decreases b.len(),
{
    if b.len() == 0 {
        assert(a + b =~= a);
    } else {
        lemma_apply_join(t, a, b.drop_last());
        assert((a + b).drop_last() =~= a + b.drop_last());
        assert((a + b).last() == b.last());
    }
}

/// Every tag points at a manifest that is on record.
pub open spec fn tags_known(t: Tables) -> bool {
    forall|k: (Text, Text)|
        #![trigger t.tags[k]]
        t.tags.contains_key(k) ==> t.media_types.contains_key((k.0, t.tags[k].0))
}

/// Whatever is recorded and deleted, every tag points at a manifest that is on
/// record.
pub proof fn every_tagged_manifest_is_known(t: Tables, ops: Seq<Op>)
    requires
        tags_known(t),
    ensures
        tags_known(apply_ops(t, ops)),
    decreases ops.len(),
{
    if ops.len() > 0 {
        every_tagged_manifest_is_known(t, ops.drop_last());
        let prev = apply_ops(t, ops.drop_last());
        let r = apply_ops(t, ops);
        assert(r == apply_op(prev, ops.last()));
        assert forall|k: (Text, Text)| #![trigger r.tags[k]] r.tags.contains_key(k) implies
            r.media_types.contains_key((k.0, r.tags[k].0)) by {
            if prev.tags.contains_key(k) {
                assert(prev.media_types.contains_key((k.0, prev.tags[k].0)));
            }
        }
    }
}

/// After the tag records: the tags, and the media types that they leave.
proof fn lemma_tag_ops(snap: SnapshotState, n: int)
    requires
        snap.wf(),
        tags_known(snap.tables()),
        0 <= n <= snap.tags.rows().len(),
    ensures
        ({
            let rows = snap.tags.rows();
            let r = apply_ops(no_tables(), tag_ops(rows).take(n));
            &&& r.tags == tag_rows(rows_map(rows.take(n)))
            &&& r.referrers == no_tables().referrers
            &&& r.backrefs == no_tables().backrefs
            &&& r.checksums == no_tables().checksums
            &&& r.media_types == tag_media(rows.take(n))
            &&& forall|k: (Text, Text)| #[trigger]
                r.media_types.contains_key(k) ==> snap.tables().media_types.contains_key(k)
        }),
    decreases n,
{
    let rows = snap.tags.rows();
    let ops = tag_ops(rows);
    if n == 0 {
        assert(ops.take(0) =~= Seq::<Op>::empty());
        assert(rows.take(0) =~= Seq::empty());
        assert(tag_rows(rows_map(rows.take(0))) =~= Map::empty());
    } else {
        lemma_tag_ops(snap, n - 1);
        let prev = apply_ops(no_tables(), ops.take(n - 1));
        let r = apply_ops(no_tables(), ops.take(n));
        let row = rows[n - 1];
        let k = (row.0.0@, row.0.1@);
        let target = (row.0.0@, row.1.0@);
        assert(ops.take(n).drop_last() =~= ops.take(n - 1));
        assert(ops.take(n).last() == ops[n - 1]);
        assert(r == apply_op(prev, ops[n - 1]));
        let init = rows.take(n - 1);
        lemma_prefix_sorted(rows, n - 1);
        assert(rows.take(n) =~= init.push(row));
        assert(rows.take(n).drop_last() =~= init);
        lemma_push_rows(init, row);
        assert(row.0.deep_view() == k);
        assert(tag_rows(rows_map(rows.take(n))) =~= tag_rows(rows_map(init)).insert(
            k,
            (row.1.0@, row.1.1@),
        ));
        lemma_row_at(rows, n - 1);
        let full = snap.tables();
        assert(full.tags.contains_key(k) && full.tags[k] == (row.1.0@, row.1.1@));
        assert(full.media_types.contains_key(target));
        assert(r.media_types == prev.media_types.insert(target, row.1.1@));
        assert(r.backrefs == prev.backrefs);
    }
}

/// The first rows of sorted rows are sorted, and below the next.
proof fn lemma_prefix_sorted<K: TableKey, V>(rows: Seq<(K, V)>, n: int)
    requires
        rows_sorted(rows),
        0 <= n < rows.len(),
    ensures
        rows_sorted(rows.take(n)),
        forall|i: int|
            #![trigger rows.take(n)[i]]
            0 <= i < n ==> K::key_lt(rows.take(n)[i].0.deep_view(), rows[n].0.deep_view()),
{
    let init = rows.take(n);
    assert forall|i: int, j: int|
        #![trigger init[i], init[j]]
        0 <= i < j < init.len() implies K::key_lt(init[i].0.deep_view(), init[j].0.deep_view()) by {
        assert(init[i] == rows[i] && init[j] == rows[j]);
    }
    assert forall|i: int| #![trigger init[i]] 0 <= i < n implies K::key_lt(
        init[i].0.deep_view(),
        rows[n].0.deep_view(),
    ) by {
        assert(init[i] == rows[i]);
    }
}

/// One of the first `n` rows has key `k`.
spec fn listed_in(rows: Seq<((String, String), String)>, n: int, k: (Text, Text)) -> bool {
    exists|j: int| #![trigger rows[j]] 0 <= j < n && rows[j].0.deep_view() == k
}

/// After the records of the manifests: each listed media type, over what was left.
proof fn lemma_media_ops(snap: SnapshotState, t: Tables, n: int)
    requires
        snap.wf(),
        0 <= n <= snap.media_types.rows().len(),
    ensures
        ({
            let rows = snap.media_types.rows();
            let r = apply_ops(t, media_ops(rows.take(n), t.media_types));
            &&& r.tags == t.tags
            &&& r.referrers == t.referrers
            &&& r.backrefs == t.backrefs
            &&& r.checksums == t.checksums
            &&& forall|k: (Text, Text)| #[trigger]
                r.media_types.contains_key(k) <==> t.media_types.contains_key(k) || listed_in(
                    rows,
                    n,
                    k,
                )
            &&& forall|k: (Text, Text)|
                #![trigger r.media_types[k]]
                listed_in(rows, n, k) ==> r.media_types[k] == snap.tables().media_types[k]
            &&& forall|k: (Text, Text)|
                #![trigger r.media_types[k]]
                !listed_in(rows, n, k) && t.media_types.contains_key(k) ==> r.media_types[k]
                    == t.media_types[k]
        }),
    decreases n,
{
    let rows = snap.media_types.rows();
    let left = t.media_types;
    if n == 0 {
        assert(media_ops(rows.take(0), left) =~= Seq::<Op>::empty());
    } else {
        lemma_media_ops(snap, t, n - 1);
        let row = rows[n - 1];
        let k = (row.0.0@, row.0.1@);
        let cur = rows.take(n);
        assert(cur.drop_last() =~= rows.take(n - 1));
        assert(cur.last() == row);
        assert(row.0.deep_view() == k);
        lemma_row_at(rows, n - 1);
        assert(snap.tables().media_types[k] == row.1@);
        let before = media_ops(rows.take(n - 1), left);
        let prev = apply_ops(t, before);
        let r = apply_ops(t, media_ops(cur, left));
        let again = left.contains_key(k) && left[k] == row.1@;
        assert(!listed_in(rows, n - 1, k)) by {
            if listed_in(rows, n - 1, k) {
                let j = choose|j: int|
                    #![trigger rows[j]]
                    0 <= j < n - 1 && rows[j].0.deep_view() == k;
                lemma_row_unique(rows, j, n - 1);
            }
        }
        if !again {
            let op = manifest_op(k.0, k.1, row.1@, None);
            assert(before.push(op).drop_last() =~= before);
            assert(r == apply_op(prev, op));
            assert(r.backrefs == prev.backrefs);
            assert(r.media_types == prev.media_types.insert(k, row.1@));
        } else {
            assert(r == prev);
            assert(r.media_types[k] == left[k]);
        }
        assert forall|x: (Text, Text)| #[trigger] listed_in(rows, n, x) <==> x == k || listed_in(
            rows,
            n - 1,
            x,
        ) by {
            if listed_in(rows, n, x) {
                let j = choose|j: int|
                    #![trigger rows[j]]
                    0 <= j < n && rows[j].0.deep_view() == x;
                if j < n - 1 {
                    assert(listed_in(rows, n - 1, x));
                }
            }
            if x == k {
                assert(rows[n - 1].0.deep_view() == x);
            }
            if listed_in(rows, n - 1, x) {
                let j = choose|j: int|
                    #![trigger rows[j]]
                    0 <= j < n - 1 && rows[j].0.deep_view() == x;
                assert(rows[j].0.deep_view() == x);
            }
        }
    }
}

/// The edges of one blob, recorded one by one, build its list.
proof fn lemma_edge_ops(t: Tables, repo: Text, blob: Text, manifests: Seq<Text>, n: int)
    requires
        manifests.no_duplicates(),
        !t.backrefs.contains_key((repo, blob)),
        0 <= n <= manifests.len(),
    ensures
        ({
            let r = apply_ops(t, edge_ops(repo, blob, manifests).take(n));
            &&& r == (Tables { backrefs: r.backrefs, ..t })
            &&& r.backrefs == (if n == 0 {
                t.backrefs
            } else {
                t.backrefs.insert((repo, blob), manifests.take(n))
            })
        }),
    decreases n,
{
    let ops = edge_ops(repo, blob, manifests);
    if n == 0 {
        assert(ops.take(0) =~= Seq::<Op>::empty());
    } else {
        lemma_edge_ops(t, repo, blob, manifests, n - 1);
        let prev = apply_ops(t, ops.take(n - 1));
        assert(ops.take(n).drop_last() =~= ops.take(n - 1));
        assert(ops.take(n).last() == ops[n - 1]);
        let m = manifests[n - 1];
        let one = seq![blob];
        assert(one.drop_last() =~= Seq::<Text>::empty());
        assert(one.last() == blob);
        reveal_with_fuel(with_backrefs, 2);
        assert(with_backrefs(prev.backrefs, repo, m, one) == with_backref(
            prev.backrefs,
            repo,
            m,
            blob,
        ));
        let sofar = backrefs_at(prev.backrefs, (repo, blob));
        assert(sofar =~= manifests.take(n - 1));
        if sofar.contains(m) {
            let i = choose|i: int| 0 <= i < sofar.len() && sofar[i] == m;
            assert(manifests[i] == manifests[n - 1]);
        }
        assert(sofar.push(m) =~= manifests.take(n));
        assert(prev.backrefs.insert((repo, blob), manifests.take(n)) =~= t.backrefs.insert(
            (repo, blob),
            manifests.take(n),
        ));
    }
}

/// After the edge records: all backrefs.
proof fn lemma_backref_ops(snap: SnapshotState, t: Tables, n: int)
    requires
        snap.wf(),
        t.backrefs == no_tables().backrefs,
        0 <= n <= snap.backrefs.rows().len(),
    ensures
        ({
            let rows = snap.backrefs.rows();
            let r = apply_ops(t, backref_ops(rows.take(n)));
            &&& r == (Tables { backrefs: r.backrefs, ..t })
            &&& r.backrefs == backref_rows(rows_map(rows.take(n)))
        }),
    decreases n,
{
    let rows = snap.backrefs.rows();
    if n == 0 {
        assert(rows.take(0) =~= Seq::empty());
        assert(backref_ops(rows.take(0)) =~= Seq::<Op>::empty());
        assert(backref_rows(rows_map(rows.take(0))) =~= Map::empty());
    } else {
        lemma_backref_ops(snap, t, n - 1);
        let row = rows[n - 1];
        let k = (row.0.0@, row.0.1@);
        let cur = rows.take(n);
        let init = rows.take(n - 1);
        let ms = texts(row.1@);
        assert(cur.drop_last() =~= init);
        assert(cur.last() == row);
        assert(row.0.deep_view() == k);
        lemma_apply_join(t, backref_ops(init), edge_ops(k.0, k.1, ms));
        let prev = apply_ops(t, backref_ops(init));
        lemma_row_at(rows, n - 1);
        let full = snap.tables().backrefs;
        assert(full.contains_key(k) && full[k] == ms);
        assert(full[k].len() > 0 && full[k].no_duplicates());
        lemma_prefix_sorted(rows, n - 1);
        lemma_push_rows(init, row);
        assert(init.push(row) =~= cur);
        assert(!prev.backrefs.contains_key(k));
        lemma_edge_ops(prev, k.0, k.1, ms, ms.len() as int);
        let edges = edge_ops(k.0, k.1, ms);
        assert(edges.take(ms.len() as int) =~= edges);
        assert(ms.take(ms.len() as int) =~= ms);
        assert(backref_rows(rows_map(cur)) =~= backref_rows(rows_map(init)).insert(k, ms));
    }
}

/// After the referrer records: all referrers.
proof fn lemma_referrer_ops(snap: SnapshotState, t: Tables, n: int)
    requires
        snap.wf(),
        t.referrers == no_tables().referrers,
        0 <= n <= snap.referrers.rows().len(),
    ensures
        ({
            let rows = snap.referrers.rows();
            let r = apply_ops(t, referrer_ops(rows).take(n));
            &&& r == (Tables { referrers: r.referrers, ..t })
            &&& r.referrers == rows_map(rows.take(n)).map_values(|v: (String, Vec<u8>)| v.1@)
        }),
    decreases n,
{
    let rows = snap.referrers.rows();
    let ops = referrer_ops(rows);
    let f = |v: (String, Vec<u8>)| v.1@;
    if n == 0 {
        assert(rows.take(0) =~= Seq::empty());
        assert(ops.take(0) =~= Seq::<Op>::empty());
        assert(rows_map(rows.take(0)).map_values(f) =~= Map::empty());
    } else {
        lemma_referrer_ops(snap, t, n - 1);
        let row = rows[n - 1];
        let init = rows.take(n - 1);
        let k = (row.0.0@, row.0.1@, row.0.2@);
        assert(ops.take(n).drop_last() =~= ops.take(n - 1));
        assert(ops.take(n).last() == ops[n - 1]);
        assert(row.0.deep_view() == k);
        lemma_prefix_sorted(rows, n - 1);
        lemma_push_rows(init, row);
        assert(init.push(row) =~= rows.take(n));
        assert(rows_map(rows.take(n)).map_values(f) =~= rows_map(init).map_values(f).insert(
            k,
            row.1.1@,
        ));
    }
}

/// After the checksum records: all checksums.
proof fn lemma_checksum_ops(snap: SnapshotState, t: Tables, n: int)
    requires
        snap.wf(),
        t.checksums == no_tables().checksums,
        0 <= n <= snap.checksums.rows().len(),
    ensures
        ({
            let rows = snap.checksums.rows();
            let r = apply_ops(t, checksum_ops(rows).take(n));
            &&& r == (Tables { checksums: r.checksums, ..t })
            &&& r.checksums == rows_map(rows.take(n))
        }),
    decreases n,
{
    let rows = snap.checksums.rows();
    let ops = checksum_ops(rows);
    if n == 0 {
        assert(rows.take(0) =~= Seq::empty());
        assert(ops.take(0) =~= Seq::<Op>::empty());
        assert(rows_map(rows.take(0)) =~= Map::empty());
    } else {
        lemma_checksum_ops(snap, t, n - 1);
        let row = rows[n - 1];
        let init = rows.take(n - 1);
        let k = (row.0.0@, row.0.1@);
        assert(ops.take(n).drop_last() =~= ops.take(n - 1));
        assert(ops.take(n).last() == ops[n - 1]);
        assert(row.0.deep_view() == k);
        lemma_prefix_sorted(rows, n - 1);
        lemma_push_rows(init, row);
        assert(init.push(row) =~= rows.take(n));
    }
}

/// Replaying the image of a snapshot from nothing gives the snapshot's contents.
pub proof fn image_reproduces_the_snapshot(snap: SnapshotState)
    requires
        snap.wf(),
        tags_known(snap.tables()),
    ensures
        apply_ops(no_tables(), image_of(snap)) == snap.tables(),
{
    let full = snap.tables();
    let a = tag_ops(snap.tags.rows());
    let b = media_ops(snap.media_types.rows(), tag_media(snap.tags.rows()));
    let c = backref_ops(snap.backrefs.rows());
    let d = referrer_ops(snap.referrers.rows());
    let e = checksum_ops(snap.checksums.rows());
    lemma_apply_join(no_tables(), a, b);
    lemma_apply_join(no_tables(), a + b, c);
    lemma_apply_join(no_tables(), a + b + c, d);
    lemma_apply_join(no_tables(), a + b + c + d, e);
    let ta = apply_ops(no_tables(), a);
    let tb = apply_ops(ta, b);
    let tc = apply_ops(tb, c);
    let td = apply_ops(tc, d);
    let te = apply_ops(td, e);
    let n = snap.tags.rows().len() as int;
    lemma_tag_ops(snap, n);
    assert(a.take(n) =~= a);
    assert(snap.tags.rows().take(n) =~= snap.tags.rows());
    let mrows = snap.media_types.rows();
    let m = mrows.len() as int;
    lemma_media_ops(snap, ta, m);
    assert(mrows.take(m) =~= mrows);
    assert(tb.media_types =~= full.media_types) by {
        assert forall|k: (Text, Text)| #[trigger] full.media_types.contains_key(k) implies
            tb.media_types.contains_key(k) by {
            let j = lemma_row_of(mrows, k);
            assert(listed_in(mrows, m, k));
        }
        assert forall|k: (Text, Text)|
            #![trigger tb.media_types.contains_key(k)]
            #![trigger tb.media_types[k]]
            tb.media_types.contains_key(k) implies full.media_types.contains_key(k)
            && tb.media_types[k] == full.media_types[k] by {
            if ta.media_types.contains_key(k) || !listed_in(mrows, m, k) {
                let j = lemma_row_of(mrows, k);
                assert(listed_in(mrows, m, k));
            } else {
                let j = choose|j: int|
                    #![trigger mrows[j]]
                    0 <= j < m && mrows[j].0.deep_view() == k;
                lemma_row_at(mrows, j);
            }
        }
    }
    lemma_backref_ops(snap, tb, snap.backrefs.rows().len() as int);
    assert(snap.backrefs.rows().take(snap.backrefs.rows().len() as int) =~= snap.backrefs.rows());
    lemma_referrer_ops(snap, tc, snap.referrers.rows().len() as int);
    assert(snap.referrers.rows().take(snap.referrers.rows().len() as int)
        =~= snap.referrers.rows());
    assert(d.take(snap.referrers.rows().len() as int) =~= d);
    lemma_checksum_ops(snap, td, snap.checksums.rows().len() as int);
    assert(snap.checksums.rows().take(snap.checksums.rows().len() as int)
        =~= snap.checksums.rows());
    assert(e.take(snap.checksums.rows().len() as int) =~= e);
    assert(te =~= full);
}

/// Nothing of a deleted manifest is left: no tag resolves to it, it has no media
/// type and no checksum, it refers to nothing and pins no blob. Everything that
/// did not speak of it stays.
pub proof fn deleted_manifest_is_gone(t: Tables, repo: Text, digest: Text)
    ensures
        ({
            let r = apply_op(t, Op::DeleteManifest { repo, digest });
            &&& forall|k: (Text, Text)| #[trigger]
                r.tags.contains_key(k) <==> t.tags.contains_key(k) && !(k.0 == repo && t.tags[k].0
                    == digest)
            &&& forall|k: (Text, Text)| #[trigger]
                r.tags.contains_key(k) ==> r.tags[k] == t.tags[k]
            &&& r.media_types == t.media_types.remove((repo, digest))
            &&& r.checksums == t.checksums.remove((repo, digest))
            &&& forall|k: (Text, Text, Text)| #[trigger]
                r.referrers.contains_key(k) <==> t.referrers.contains_key(k) && !(k.0 == repo
                    && k.2 == digest)
            &&& forall|k: (Text, Text, Text)| #[trigger]
                r.referrers.contains_key(k) ==> r.referrers[k] == t.referrers[k]
            &&& forall|k: (Text, Text), m: Text|
                #![trigger backrefs_at(r.backrefs, k).contains(m)]
                backrefs_at(r.backrefs, k).contains(m) <==> backrefs_at(t.backrefs, k).contains(m)
                    && !(k.0 == repo && m == digest)
        }),
{
    let r = apply_op(t, Op::DeleteManifest { repo, digest });
    assert forall|k: (Text, Text), m: Text|
        #![trigger backrefs_at(r.backrefs, k).contains(m)]
        backrefs_at(r.backrefs, k).contains(m) <==> backrefs_at(t.backrefs, k).contains(m) && !(k.0
            == repo && m == digest) by {
        if k.0 == repo && t.backrefs.contains_key(k) {
            lemma_without_push(t.backrefs[k], m, digest);
            assert(backrefs_at(r.backrefs, k) =~= without(t.backrefs[k], digest));
        }
    }
}

/// A manifest that was put resolves: by its tag, by its digest, from its subject
/// and from every blob it references.
pub proof fn put_manifest_is_found(t: Tables, op: Op)
    requires
        op is PutManifest,
    ensures
        op matches Op::PutManifest { repo, digest, media_type, tag, references, referrer } ==> {
            let r = apply_op(t, op);
            &&& r.media_types.contains_key((repo, digest)) && r.media_types[(repo, digest)]
                == media_type
            &&& tag matches Some(tag) ==> r.tags.contains_key((repo, tag)) && r.tags[(repo, tag)]
                == (digest, media_type)
            &&& referrer matches Some(s) ==> r.referrers.contains_key((repo, s.0, digest))
                && r.referrers[(repo, s.0, digest)] == s.1
            &&& forall|i: int|
                #![trigger references[i]]
                0 <= i < references.len() ==> backrefs_at(
                    r.backrefs,
                    (repo, references[i]),
                ).contains(digest)
        },
{
    match op {
        Op::PutManifest { repo, digest, media_type, tag, references, referrer } => {
            lemma_edges_recorded(t.backrefs, repo, digest, references);
        },
        _ => {},
    }
}

/// Recording edges pins every blob named, and unpins none.
pub proof fn lemma_edges_recorded(
    m: Map<(Text, Text), Seq<Text>>,
    repo: Text,
    manifest: Text,
    blobs: Seq<Text>,
)
    ensures
        forall|i: int|
            #![trigger blobs[i]]
            0 <= i < blobs.len() ==> backrefs_at(
                with_backrefs(m, repo, manifest, blobs),
                (repo, blobs[i]),
            ).contains(manifest),
        forall|k: (Text, Text), x: Text|
            #![trigger backrefs_at(m, k).contains(x)]
            backrefs_at(m, k).contains(x) ==> backrefs_at(
                with_backrefs(m, repo, manifest, blobs),
                k,
            ).contains(x),
    decreases blobs.len(),
{
    if blobs.len() > 0 {
        let init = blobs.drop_last();
        lemma_edges_recorded(m, repo, manifest, init);
        let mid = with_backrefs(m, repo, manifest, init);
        let out = with_backrefs(m, repo, manifest, blobs);
        let list = backrefs_at(mid, (repo, blobs.last()));
        assert(list.push(manifest)[list.len() as int] == manifest);
        assert forall|k: (Text, Text), x: Text|
            #![trigger backrefs_at(mid, k).contains(x)]
            backrefs_at(mid, k).contains(x) implies backrefs_at(out, k).contains(x) by {
            if k == (repo, blobs.last()) && !list.contains(manifest) {
                let i = choose|i: int| 0 <= i < list.len() && list[i] == x;
                assert(list.push(manifest)[i] == x);
            }
        }
        assert forall|i: int| #![trigger blobs[i]] 0 <= i < blobs.len() implies backrefs_at(
            out,
            (repo, blobs[i]),
        ).contains(manifest) by {
            if i < init.len() {
                assert(init[i] == blobs[i]);
                assert(backrefs_at(mid, (repo, init[i])).contains(manifest));
            }
        }
    }
}

/// Dropping a text keeps the rest distinct.
proof fn lemma_without_distinct(s: Seq<Text>, x: Text)
    requires
        s.no_duplicates(),
    ensures
        without(s, x).no_duplicates(),
    decreases s.len(),
{
    reveal(Seq::filter);
    if s.len() > 0 {
        let init = s.drop_last();
        assert(init.no_duplicates());
        lemma_without_distinct(init, x);
        lemma_without_push(init, s.last(), x);
        assert(init.push(s.last()) =~= s);
        if init.contains(s.last()) {
            let i = choose|i: int| 0 <= i < init.len() && init[i] == s.last();
            assert(s[i] == s[s.len() - 1]);
        }
    }
}

/// Recording edges keeps every list distinct.
proof fn lemma_edges_distinct(
    m: Map<(Text, Text), Seq<Text>>,
    repo: Text,
    manifest: Text,
    blobs: Seq<Text>,
)
    requires
        backrefs_ok(m),
    ensures
        backrefs_ok(with_backrefs(m, repo, manifest, blobs)),
    decreases blobs.len(),
{
    if blobs.len() > 0 {
        lemma_edges_distinct(m, repo, manifest, blobs.drop_last());
        let mid = with_backrefs(m, repo, manifest, blobs.drop_last());
        let list = backrefs_at(mid, (repo, blobs.last()));
        if mid.contains_key((repo, blobs.last())) {
            assert(mid[(repo, blobs.last())].no_duplicates());
        }
        if !list.contains(manifest) {
            assert(list.push(manifest).no_duplicates());
        }
        let out = with_backrefs(m, repo, manifest, blobs);
        assert forall|k: (Text, Text)| #![trigger out[k]] out.contains_key(k) implies out[k].len()
            > 0 && out[k].no_duplicates() by {
            if k != (repo, blobs.last()) {
                assert(mid.contains_key(k) && mid[k] == out[k]);
            }
        }
    }
}

/// Whatever is done to the index, every blob entry names at least one manifest,
/// each of them once.
pub proof fn backrefs_name_manifests_once(t: Tables, ops: Seq<Op>)
    requires
        backrefs_ok(t.backrefs),
    ensures
        backrefs_ok(apply_ops(t, ops).backrefs),
    decreases ops.len(),
{
    if ops.len() > 0 {
        let prev = apply_ops(t, ops.drop_last());
        backrefs_name_manifests_once(t, ops.drop_last());
        match ops.last() {
            Op::PutManifest { repo, digest, media_type, tag, references, referrer } => {
                lemma_edges_distinct(prev.backrefs, repo, digest, references);
            },
            Op::PutBackrefs { repo, manifest, blobs } => {
                lemma_edges_distinct(prev.backrefs, repo, manifest, blobs);
            },
            Op::DeleteManifest { repo, digest } => {
                let out = without_backrefs(prev.backrefs, repo, digest);
                assert forall|k: (Text, Text)| #![trigger out[k]] out.contains_key(k) implies
                    out[k].len() > 0 && out[k].no_duplicates() by {
                    assert(prev.backrefs[k].no_duplicates());
                    lemma_without_distinct(prev.backrefs[k], digest);
                }
            },
            _ => {},
        }
    }
}

} // verus!
