//! What the two engines have in common.

use crate::metadata::model::{
    apply_op, apply_ops, backrefs_at, no_tables, same_backrefs, same_index, with_backrefs, without,
    without_backrefs, Op, Tables,
};
use crate::metadata::redb_model::{
    apply_ordered, in_order, lemma_sorted_texts, lemma_with_backrefs_at, sorted_texts,
};
use crate::metadata::state_laws::lemma_without_member;
use crate::text::Text;
use vstd::prelude::*;

verus! {

/// Putting lists in order changes what they hold in no way.
proof fn lemma_in_order(m: Map<(Text, Text), Seq<Text>>)
    ensures
        same_backrefs(m, in_order(m)),
{
    let r = in_order(m);
    assert(m.dom() =~= r.dom());
    assert forall|k: (Text, Text), x: Text|
        #![trigger backrefs_at(m, k).contains(x)]
        backrefs_at(m, k).contains(x) <==> backrefs_at(r, k).contains(x) by {
        if m.contains_key(k) {
            let s = m[k].to_set();
            vstd::seq_lib::seq_to_set_is_finite(m[k]);
            lemma_sorted_texts(s);
            assert(r[k] == sorted_texts(s));
            assert(m[k].contains(x) <==> s.contains(x));
            assert(r[k].contains(x) <==> r[k].to_set().contains(x));
        }
    }
}

/// Recording edges keeps the same backrefs the same.
proof fn lemma_edges_agree(
    a: Map<(Text, Text), Seq<Text>>,
    b: Map<(Text, Text), Seq<Text>>,
    repo: Text,
    manifest: Text,
    blobs: Seq<Text>,
)
    requires
        same_backrefs(a, b),
    ensures
        same_backrefs(
            with_backrefs(a, repo, manifest, blobs),
            with_backrefs(b, repo, manifest, blobs),
        ),
{
    let x = with_backrefs(a, repo, manifest, blobs);
    let y = with_backrefs(b, repo, manifest, blobs);
    assert forall|k: (Text, Text)| x.contains_key(k) <==> y.contains_key(k) by {
        lemma_with_backrefs_at(a, repo, manifest, blobs, k);
        lemma_with_backrefs_at(b, repo, manifest, blobs, k);
        assert(a.dom().contains(k) <==> b.dom().contains(k));
    }
    assert(x.dom() =~= y.dom());
    assert forall|k: (Text, Text), m: Text|
        #![trigger backrefs_at(x, k).contains(m)]
        backrefs_at(x, k).contains(m) <==> backrefs_at(y, k).contains(m) by {
        lemma_with_backrefs_at(a, repo, manifest, blobs, k);
        lemma_with_backrefs_at(b, repo, manifest, blobs, k);
        let p = backrefs_at(a, k);
        let q = backrefs_at(b, k);
        assert(p.contains(m) <==> q.contains(m));
        assert(p.contains(manifest) <==> q.contains(manifest));
        lemma_longer(p, manifest, m);
        lemma_longer(q, manifest, m);
    }
}

/// What a longer list contains.
proof fn lemma_longer(s: Seq<Text>, b: Text, y: Text)
    ensures
        s.push(b).contains(y) <==> s.contains(y) || y == b,
{
    let l = s.push(b);
    assert(l[s.len() as int] == b);
    if l.contains(y) {
        let i = choose|i: int| 0 <= i < l.len() && l[i] == y;
        if i < s.len() {
            assert(s[i] == y);
        }
    }
    if s.contains(y) {
        let i = choose|i: int| 0 <= i < s.len() && s[i] == y;
        assert(l[i] == y);
    }
}

/// Dropping a manifest keeps the same backrefs the same.
proof fn lemma_drops_agree(
    a: Map<(Text, Text), Seq<Text>>,
    b: Map<(Text, Text), Seq<Text>>,
    repo: Text,
    manifest: Text,
)
    requires
        same_backrefs(a, b),
    ensures
        same_backrefs(without_backrefs(a, repo, manifest), without_backrefs(b, repo, manifest)),
{
    let x = without_backrefs(a, repo, manifest);
    let y = without_backrefs(b, repo, manifest);
    assert forall|k: (Text, Text)| x.contains_key(k) <==> y.contains_key(k) by {
        assert(a.dom().contains(k) <==> b.dom().contains(k));
        if a.contains_key(k) && b.contains_key(k) && k.0 == repo {
            let p = without(a[k], manifest);
            let q = without(b[k], manifest);
            if p.len() > 0 {
                lemma_without_member(a[k], p[0], manifest);
                lemma_without_member(b[k], p[0], manifest);
                assert(p.contains(p[0]));
                assert(backrefs_at(a, k).contains(p[0]));
                assert(q.contains(p[0]));
            }
            if q.len() > 0 {
                lemma_without_member(a[k], q[0], manifest);
                lemma_without_member(b[k], q[0], manifest);
                assert(q.contains(q[0]));
                assert(backrefs_at(a, k).contains(q[0]) <==> backrefs_at(b, k).contains(q[0]));
                assert(p.contains(q[0]));
            }
        }
    }
    assert(x.dom() =~= y.dom());
    assert forall|k: (Text, Text), m: Text|
        #![trigger backrefs_at(x, k).contains(m)]
        backrefs_at(x, k).contains(m) <==> backrefs_at(y, k).contains(m) by {
        assert(a.dom().contains(k) <==> b.dom().contains(k));
        assert(x.dom().contains(k) <==> y.dom().contains(k));
        assert(backrefs_at(a, k).contains(m) <==> backrefs_at(b, k).contains(m));
        if a.contains_key(k) {
            lemma_without_member(a[k], m, manifest);
            lemma_without_member(b[k], m, manifest);
        }
    }
}

/// The engines take the same mutation the same way: what they hold alike before,
/// they hold alike after.
pub proof fn engines_agree(log: Tables, kv: Tables, op: Op)
    requires
        same_index(log, kv),
    ensures
        same_index(apply_op(log, op), apply_ordered(kv, op)),
{
    let a = apply_op(log, op);
    let b = apply_op(kv, op);
    match op {
        Op::PutManifest { repo, digest, media_type, tag, references, referrer } => {
            lemma_edges_agree(log.backrefs, kv.backrefs, repo, digest, references);
        },
        Op::PutBackrefs { repo, manifest, blobs } => {
            lemma_edges_agree(log.backrefs, kv.backrefs, repo, manifest, blobs);
        },
        Op::DeleteManifest { repo, digest } => {
            lemma_drops_agree(log.backrefs, kv.backrefs, repo, digest);
        },
        _ => {},
    }
    lemma_in_order(b.backrefs);
    let c = in_order(b.backrefs);
    assert forall|k: (Text, Text), m: Text|
        #![trigger backrefs_at(a.backrefs, k).contains(m)]
        backrefs_at(a.backrefs, k).contains(m) <==> backrefs_at(c, k).contains(m) by {
        assert(backrefs_at(a.backrefs, k).contains(m) <==> backrefs_at(b.backrefs, k).contains(m));
    }
}

/// What a run of mutations leaves in an engine that keeps its backrefs in order.
pub open spec fn apply_all_ordered(t: Tables, ops: Seq<Op>) -> Tables
    decreases ops.len(),
{
    if ops.len() == 0 {
        t
    } else {
        apply_ordered(apply_all_ordered(t, ops.drop_last()), ops.last())
    }
}

/// Both engines, given the same mutations from the start, hold the same index.
pub proof fn engines_agree_on_every_run(ops: Seq<Op>)
    ensures
        same_index(apply_ops(no_tables(), ops), apply_all_ordered(no_tables(), ops)),
    decreases ops.len(),
{
    if ops.len() > 0 {
        engines_agree_on_every_run(ops.drop_last());
        engines_agree(
            apply_ops(no_tables(), ops.drop_last()),
            apply_all_ordered(no_tables(), ops.drop_last()),
            ops.last(),
        );
    }
}

} // verus!
