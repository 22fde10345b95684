//! Queries over a snapshot base with the in-memory delta on top of it.

use crate::lists::{has_text, join_texts};
use crate::metadata::model::{
    backrefs_at, backrefs_ok, hides, joined, layered_backrefs, live_manifests, no_tables, overlay, Delta,
    Tables,
};
use crate::metadata::referrers::{is_referrer_page, referrer_digests, SubjectReferrers};
use crate::metadata::snapshot::SnapshotState;
use crate::metadata::state::{pair, State};
use crate::metadata::{BlobChecksum, Referrer};
use crate::page::{increasing, is_page, opt_text, page_of, page_of_prefix, seconds, texts, Page};
use crate::table::{
    keys_of, lemma_row_at, lemma_row_of, range_of_first, range_of_pairs, range_of_triples, Table,
};
use crate::text::{text_lt, Text};
use vstd::prelude::*;

verus! {

broadcast use vstd::string::group_string_axioms;

/// What the base holds; nothing when there is none.
pub open spec fn base_tables(base: Option<&SnapshotState>) -> Tables {
    match base {
        Some(s) => s.tables(),
        None => no_tables(),
    }
}

/// The base is in order.
pub open spec fn base_wf(base: Option<&SnapshotState>) -> bool {
    base matches Some(s) ==> s.wf()
}

/// The index as the queries see it.
pub open spec fn layered(state: &State, base: Option<&SnapshotState>) -> Tables {
    overlay(base_tables(base), state.delta())
}

/// The referrers of one subject.
pub open spec fn referrers_of(
    m: Map<(Text, Text, Text), Seq<u8>>,
    repo: Text,
    subject: Text,
) -> Map<Text, Seq<u8>> {
    Map::new(
        |d: Text| m.contains_key((repo, subject, d)),
        |d: Text| m[(repo, subject, d)],
    )
}

/// `repo` has a manifest or a referrer.
pub open spec fn has_repo(t: Tables, repo: Text) -> bool {
    (exists|d: Text| t.media_types.contains_key((repo, d))) || (exists|s: Text, d: Text|
        t.referrers.contains_key((repo, s, d)))
}

/// The repositories with at least one manifest or referrer.
pub open spec fn repos_of(t: Tables) -> Set<Text> {
    Set::new(|repo: Text| has_repo(t, repo))
}

/// Joining distinct texts to nothing gives them back.
pub proof fn lemma_join_nothing(s: Seq<Text>)
    requires
        s.no_duplicates(),
    ensures
        joined(Seq::empty(), s) == s,
    decreases s.len(),
{
    if s.len() == 0 {
        assert(s =~= Seq::empty());
    } else {
        let init = s.drop_last();
        assert(init.no_duplicates());
        lemma_join_nothing(init);
        if init.contains(s.last()) {
            let i = choose|i: int| 0 <= i < init.len() && init[i] == s.last();
            assert(s[i] == s[s.len() - 1]);
        }
        assert(init.push(s.last()) =~= s);
    }
}

/// Over no base the delta is the index.
pub proof fn overlay_on_nothing(d: Delta)
    requires
        backrefs_ok(d.tables.backrefs),
    ensures
        overlay(no_tables(), d) == d.tables,
{
    let t = overlay(no_tables(), d);
    assert(t.tags =~= d.tables.tags);
    assert(t.media_types =~= d.tables.media_types);
    assert(t.referrers =~= d.tables.referrers);
    assert(t.checksums =~= d.tables.checksums);
    assert(t.backrefs =~= d.tables.backrefs) by {
        assert forall|k: (Text, Text)|
            #![trigger t.backrefs.contains_key(k)]
            t.backrefs.contains_key(k) == d.tables.backrefs.contains_key(k) && (
            t.backrefs.contains_key(k) ==> t.backrefs[k] == d.tables.backrefs[k]) by {
            let none = live_manifests(Seq::<Text>::empty(), k.0, d.deleted_digests);
            assert(none =~= Seq::<Text>::empty()) by {
                reveal(Seq::filter);
            }
            let s = backrefs_at(d.tables.backrefs, k);
            if d.tables.backrefs.contains_key(k) {
                assert(d.tables.backrefs[k].no_duplicates());
            }
            lemma_join_nothing(s);
        }
    }
}

/// Resolves a tag to its digest and media type.
pub fn resolve_tag(state: &State, base: Option<&SnapshotState>, repo: &str, tag: &str) -> (r: Option<
    (String, String),
>)
    requires
        state.wf(),
        base_wf(base),
    ensures
        r is Some <==> layered(state, base).tags.contains_key((repo@, tag@)),
        r matches Some(v) ==> (v.0@, v.1@) == layered(state, base).tags[(repo@, tag@)],
{
    let key = pair(repo, tag);
    if let Some(v) = state.tags.get(&key) {
        return Some((v.0.clone(), v.1.clone()));
    }
    if let Some(snap) = base {
        if let Some(v) = snap.tags.get(&key) {
            if state.is_tag_hidden(repo, tag, v.0.as_str()) {
                return None;
            }
            return Some((v.0.clone(), v.1.clone()));
        }
    }
    None
}

/// The media type recorded for a manifest.
pub fn manifest_media_type(
    state: &State,
    base: Option<&SnapshotState>,
    repo: &str,
    digest: &str,
) -> (r: Option<String>)
    requires
        state.wf(),
        base_wf(base),
    ensures
        r is Some <==> layered(state, base).media_types.contains_key((repo@, digest@)),
        r matches Some(v) ==> v@ == layered(state, base).media_types[(repo@, digest@)],
{
    let key = pair(repo, digest);
    if let Some(v) = state.media_types.get(&key) {
        return Some(v.clone());
    }
    if state.is_digest_deleted(repo, digest) {
        return None;
    }
    if let Some(snap) = base {
        if let Some(v) = snap.media_types.get(&key) {
            return Some(v.clone());
        }
    }
    None
}

/// The tags of `repo`, base and delta together, with what they point at.
fn merged_tags(state: &State, base: Option<&SnapshotState>, repo: &str) -> (r: Table<
    String,
    (String, String),
>)
    requires
        state.wf(),
        base_wf(base),
    ensures
        r.wf(),
        r.map().dom() == seconds(layered(state, base).tags.dom(), repo@),
        forall|t: Text|
            #![trigger r.map()[t]]
            r.map().contains_key(t) ==> (r.map()[t].0@, r.map()[t].1@) == layered(
                state,
                base,
            ).tags[(repo@, t)],
{
    let ghost all = layered(state, base).tags;
    let ghost d = state.delta();
    let ghost bt = base_tables(base).tags;
    let mut merged: Table<String, (String, String)> = Table::new();
    if let Some(snap) = base {
        let (lo, hi) = range_of_pairs(&snap.tags, repo);
        let ghost rows = snap.tags.rows();
        let mut i: usize = lo;
        while i < hi
            invariant
                state.wf(),
                snap.tags.wf(),
                rows == snap.tags.rows(),
                d == state.delta(),
                lo <= i <= hi <= rows.len(),
                forall|j: int|
                    #![trigger rows[j]]
                    0 <= j < rows.len() ==> (lo <= j < hi <==> rows[j].0.0@ == repo@),
                merged.wf(),
                forall|j: int|
                    #![trigger rows[j]]
                    lo <= j < i && !hides(d, (repo@, rows[j].0.1@), rows[j].1.0@)
                        ==> merged.map().contains_key(rows[j].0.1@),
                forall|t: Text|
                    #![trigger merged.map().contains_key(t)]
                    merged.map().contains_key(t) ==> snap.tags.map().contains_key((repo@, t))
                        && !hides(d, (repo@, t), snap.tags.map()[(repo@, t)].0@)
                        && merged.map()[t].0@ == snap.tags.map()[(repo@, t)].0@
                        && merged.map()[t].1@ == snap.tags.map()[(repo@, t)].1@,
            decreases hi - i,
        {
            let key = snap.tags.key_at(i);
            let v = snap.tags.value_at(i);
            proof {
                lemma_row_at(rows, i as int);
                assert(rows[i as int].0.deep_view() == (repo@, key.1@));
            }
            if !state.is_tag_hidden(repo, key.1.as_str(), v.0.as_str()) {
                merged.insert(key.1.clone(), (v.0.clone(), v.1.clone()));
            }
            i += 1;
        }
        proof {
            assert forall|t: Text|
                #![trigger merged.map().contains_key(t)]
                snap.tags.map().contains_key((repo@, t)) && !hides(
                    d,
                    (repo@, t),
                    snap.tags.map()[(repo@, t)].0@,
                ) implies merged.map().contains_key(t) by {
                let j = lemma_row_of(rows, (repo@, t));
                assert(rows[j].0.deep_view() == (repo@, t));
            }
        }
    }
    let ghost mid = merged.map();
    proof {
        assert forall|t: Text|
            #![trigger mid.contains_key(t)]
            mid.contains_key(t) <==> bt.contains_key((repo@, t)) && !hides(
                d,
                (repo@, t),
                bt[(repo@, t)].0,
            ) by {}
    }
    let (lo, hi) = range_of_pairs(&state.tags, repo);
    let ghost rows = state.tags.rows();
    let ghost dm = state.tags.map();
    let mut i: usize = lo;
    while i < hi
        invariant
            state.wf(),
            state.tags.wf(),
            rows == state.tags.rows(),
            dm == state.tags.map(),
            lo <= i <= hi <= rows.len(),
            forall|j: int|
                #![trigger rows[j]]
                0 <= j < rows.len() ==> (lo <= j < hi <==> rows[j].0.0@ == repo@),
            merged.wf(),
            forall|j: int|
                #![trigger rows[j]]
                lo <= j < i ==> merged.map().contains_key(rows[j].0.1@)
                    && merged.map()[rows[j].0.1@].0@ == rows[j].1.0@
                    && merged.map()[rows[j].0.1@].1@ == rows[j].1.1@,
            forall|t: Text|
                #![trigger merged.map().contains_key(t)]
                mid.contains_key(t) ==> merged.map().contains_key(t),
            forall|t: Text|
                #![trigger merged.map().contains_key(t)]
                merged.map().contains_key(t) ==> (dm.contains_key((repo@, t))
                    && merged.map()[t].0@ == dm[(repo@, t)].0@ && merged.map()[t].1@ == dm[(
                    repo@,
                    t,
                )].1@) || (mid.contains_key(t) && merged.map()[t] == mid[t]),
        decreases hi - i,
    {
        let key = state.tags.key_at(i);
        let v = state.tags.value_at(i);
        proof {
            lemma_row_at(rows, i as int);
            assert(rows[i as int].0.deep_view() == (repo@, key.1@));
        }
        let ghost before = merged.map();
        merged.insert(key.1.clone(), (v.0.clone(), v.1.clone()));
        proof {
            assert forall|j: int| #![trigger rows[j]] lo <= j < i + 1 implies
                merged.map().contains_key(rows[j].0.1@) && merged.map()[rows[j].0.1@].0@
                == rows[j].1.0@ && merged.map()[rows[j].0.1@].1@ == rows[j].1.1@ by {
                if j < i && rows[j].0.1@ == key.1@ {
                    assert(rows[j].0.deep_view() == rows[i as int].0.deep_view());
                    crate::table::lemma_row_unique(rows, j, i as int);
                }
            }
        }
        i += 1;
    }
    proof {
        assert forall|t: Text|
            #![trigger merged.map().contains_key(t)]
            #![trigger all.contains_key((repo@, t))]
            merged.map().contains_key(t) == all.contains_key((repo@, t)) && (
            merged.map().contains_key(t) ==> (merged.map()[t].0@, merged.map()[t].1@) == all[(
                repo@,
                t,
            )]) by {
            if dm.contains_key((repo@, t)) {
                let j = lemma_row_of(rows, (repo@, t));
                assert(rows[j].0.deep_view() == (repo@, t));
                assert(merged.map().contains_key(rows[j].0.1@));
            }
        }
        assert(merged.map().dom() =~= seconds(all.dom(), repo@));
    }
    merged
}

/// One page of the tags of `repo`, in order; nothing when it has no tag.
pub fn tags_page(
    state: &State,
    base: Option<&SnapshotState>,
    repo: &str,
    last: Option<&str>,
    limit: usize,
) -> (r: Option<Page<String>>)
    requires
        state.wf(),
        base_wf(base),
    ensures
        r is None <==> seconds(layered(state, base).tags.dom(), repo@) =~= Set::<Text>::empty(),
        r matches Some(p) ==> is_page(
            texts(p.items@),
            p.more,
            seconds(layered(state, base).tags.dom(), repo@),
            opt_text(last),
            limit as nat,
        ),
{
    let ghost tags = seconds(layered(state, base).tags.dom(), repo@);
    if base.is_none() {
        proof {
            overlay_on_nothing(state.delta());
            assert(seconds(state.tags.map().dom(), repo@) =~= tags);
        }
        let (lo, hi) = range_of_pairs(&state.tags, repo);
        if lo == hi {
            proof {
                assert(tags =~= Set::<Text>::empty()) by {
                    assert forall|t: Text| !tags.contains(t) by {
                        if state.tags.map().contains_key((repo@, t)) {
                            let j = lemma_row_of(state.tags.rows(), (repo@, t));
                            assert(state.tags.rows()[j].0.deep_view() == (repo@, t));
                        }
                    }
                }
            }
            return None;
        }
        proof {
            lemma_row_at(state.tags.rows(), lo as int);
            let k = state.tags.rows()[lo as int].0;
            assert(k.deep_view() == (repo@, k.1@));
            assert(tags.contains(k.1@));
        }
        return Some(page_of_prefix(&state.tags, repo, last, limit));
    }
    let merged = merged_tags(state, base, repo);
    if merged.len() == 0 {
        assert(tags =~= Set::<Text>::empty()) by {
            assert forall|t: Text| !tags.contains(t) by {
                if merged.map().contains_key(t) {
                    let j = lemma_row_of(merged.rows(), t);
                }
            }
        }
        return None;
    }
    proof {
        lemma_row_at(merged.rows(), 0);
        assert(tags.contains(merged.rows()[0].0@));
    }
    Some(page_of(&merged, last, limit))
}

/// The live referrers of one subject, base and delta together.
fn merged_referrers(
    state: &State,
    base: Option<&SnapshotState>,
    repo: &str,
    subject: &str,
) -> (r: SubjectReferrers)
    requires
        state.wf(),
        base_wf(base),
    ensures
        r.model() == referrers_of(layered(state, base).referrers, repo@, subject@),
{
    let ghost all = layered(state, base).referrers;
    let ghost deleted = state.delta().deleted_digests;
    let mut merged = SubjectReferrers::new();
    let ghost bt = base_tables(base).referrers;
    let ghost live = Map::new(
        |d: Text| bt.contains_key((repo@, subject@, d)) && !deleted.contains((repo@, d)),
        |d: Text| bt[(repo@, subject@, d)],
    );
    if let Some(snap) = base {
        let (lo, hi) = range_of_triples(&snap.referrers, repo, subject);
        let ghost rows = snap.referrers.rows();
        let mut i: usize = lo;
        while i < hi
            invariant
                state.wf(),
                snap.referrers.wf(),
                rows == snap.referrers.rows(),
                deleted == state.delta().deleted_digests,
                bt == snap.tables().referrers,
                live == Map::new(
                    |d: Text|
                        bt.contains_key((repo@, subject@, d)) && !deleted.contains((repo@, d)),
                    |d: Text| bt[(repo@, subject@, d)],
                ),
                lo <= i <= hi <= rows.len(),
                forall|j: int|
                    #![trigger rows[j]]
                    0 <= j < rows.len() ==> (lo <= j < hi <==> rows[j].0.0@ == repo@
                        && rows[j].0.1@ == subject@),
                forall|j: int|
                    #![trigger rows[j]]
                    lo <= j < i && !deleted.contains((repo@, rows[j].0.2@))
                        ==> merged.model().contains_key(rows[j].0.2@),
                forall|d: Text|
                    #![trigger merged.model().contains_key(d)]
                    merged.model().contains_key(d) ==> live.contains_key(d) && merged.model()[d]
                        == live[d],
            decreases hi - i,
        {
            let key = snap.referrers.key_at(i);
            let v = snap.referrers.value_at(i);
            proof {
                lemma_row_at(rows, i as int);
                assert(rows[i as int].0.deep_view() == (repo@, subject@, key.2@));
            }
            if !state.is_digest_deleted(repo, key.2.as_str()) {
                merged.insert(key.2.as_str(), v.1.as_slice());
            }
            i += 1;
        }
        proof {
            assert forall|d: Text|
                #![trigger merged.model().contains_key(d)]
                live.contains_key(d) implies merged.model().contains_key(d) by {
                let j = lemma_row_of(rows, (repo@, subject@, d));
                assert(rows[j].0.deep_view() == (repo@, subject@, d));
            }
        }
    }
    assert(merged.model() =~= live);
    if let Some(refs) = state.referrers.get(&pair(repo, subject)) {
        refs.merge_into(&mut merged);
        assert(merged.model() =~= referrers_of(all, repo@, subject@));
    } else {
        assert(merged.model() =~= referrers_of(all, repo@, subject@));
    }
    merged
}

/// One page of the referrers of a subject; nothing when it has none.
pub fn referrers_page(
    state: &State,
    base: Option<&SnapshotState>,
    repo: &str,
    subject: &str,
    artifact_type: Option<&str>,
    last: Option<&str>,
    limit: usize,
) -> (r: Option<Page<Referrer>>)
    requires
        state.wf(),
        base_wf(base),
    ensures
        r is None <==> referrers_of(layered(state, base).referrers, repo@, subject@) =~= Map::<
            Text,
            Seq<u8>,
        >::empty(),
        r matches Some(p) ==> is_referrer_page(
            p.items@,
            p.more,
            referrers_of(layered(state, base).referrers, repo@, subject@),
            opt_text(artifact_type),
            opt_text(last),
            limit as nat,
        ),
{
    if base.is_none() {
        proof {
            overlay_on_nothing(state.delta());
        }
        let ghost want = referrers_of(layered(state, base).referrers, repo@, subject@);
        return match state.referrers.get(&pair(repo, subject)) {
            Some(refs) => {
                assert(refs.model() =~= want);
                Some(refs.page(artifact_type, last, limit))
            },
            None => {
                assert(want =~= Map::<Text, Seq<u8>>::empty());
                None
            },
        };
    }
    let merged = merged_referrers(state, base, repo, subject);
    if merged.is_empty() {
        return None;
    }
    Some(merged.page(artifact_type, last, limit))
}

/// Whether `referrer` is recorded as a referrer of `subject`.
pub fn has_referrer(
    state: &State,
    base: Option<&SnapshotState>,
    repo: &str,
    subject: &str,
    referrer: &str,
) -> (r: bool)
    requires
        state.wf(),
        base_wf(base),
    ensures
        r == layered(state, base).referrers.contains_key((repo@, subject@, referrer@)),
{
    if let Some(refs) = state.referrers.get(&pair(repo, subject)) {
        if refs.contains(referrer) {
            return true;
        }
    }
    if state.is_digest_deleted(repo, referrer) {
        return false;
    }
    if let Some(snap) = base {
        let key = (repo.to_owned(), subject.to_owned(), referrer.to_owned());
        assert(key.deep_view() == (repo@, subject@, referrer@));
        return snap.referrers.contains(&key);
    }
    false
}

/// The manifests of a snapshot entry that were not deleted since.
pub fn live_of(state: &State, repo: &str, manifests: &Vec<String>) -> (r: Vec<String>)
    requires
        state.wf(),
    ensures
        texts(r@) == live_manifests(texts(manifests@), repo@, state.delta().deleted_digests),
{
    let ghost deleted = state.delta().deleted_digests;
    let ghost f = |m: Text| !deleted.contains((repo@, m));
    let mut out: Vec<String> = Vec::new();
    let mut i: usize = 0;
    proof {
        reveal(Seq::filter);
        assert(texts(manifests@).take(0).filter(f) =~= texts(out@));
    }
    while i < manifests.len()
        invariant
            state.wf(),
            deleted == state.delta().deleted_digests,
            f == (|m: Text| !deleted.contains((repo@, m))),
            i <= manifests@.len(),
            texts(out@) == texts(manifests@).take(i as int).filter(f),
        decreases manifests@.len() - i,
    {
        let ghost next = texts(manifests@).take(i + 1);
        let ghost out0 = out@;
        proof {
            reveal(Seq::filter);
            assert(next.drop_last() =~= texts(manifests@).take(i as int));
            assert(next.last() == manifests@[i as int]@);
        }
        if !state.is_digest_deleted(repo, manifests[i].as_str()) {
            out.push(manifests[i].clone());
            assert(texts(out@) =~= texts(out0).push(manifests@[i as int]@));
        }
        i += 1;
    }
    assert(texts(manifests@).take(manifests@.len() as int) =~= texts(manifests@));
    out
}

/// The manifests recorded as referencing `blob`.
pub fn backrefs(state: &State, base: Option<&SnapshotState>, repo: &str, blob: &str) -> (r: Vec<
    String,
>)
    requires
        state.wf(),
        base_wf(base),
    ensures
        texts(r@) == backrefs_at(layered(state, base).backrefs, (repo@, blob@)),
{
    let key = pair(repo, blob);
    let ghost k = (repo@, blob@);
    let ghost deleted = state.delta().deleted_digests;
    let ghost bm = base_tables(base).backrefs;
    let mut result: Vec<String> = Vec::new();
    proof {
        assert(live_manifests(Seq::<Text>::empty(), repo@, deleted) =~= Seq::<Text>::empty()) by {
            reveal(Seq::filter);
        }
        assert(texts(result@) =~= Seq::<Text>::empty());
    }
    if let Some(snap) = base {
        if let Some(manifests) = snap.backrefs.get(&key) {
            result = live_of(state, repo, manifests);
        }
    }
    assert(texts(result@) == live_manifests(backrefs_at(bm, k), repo@, deleted));
    if let Some(delta) = state.backrefs.get(&key) {
        join_texts(&mut result, delta);
    }
    assert(texts(result@) == layered_backrefs(base_tables(base), state.delta(), k));
    assert(layered_backrefs(base_tables(base), state.delta(), k).len() == 0
        ==> layered_backrefs(base_tables(base), state.delta(), k) =~= Seq::<Text>::empty());
    result
}

/// The checksum recorded for a blob.
pub fn checksum(state: &State, base: Option<&SnapshotState>, repo: &str, digest: &str) -> (r: Option<
    BlobChecksum,
>)
    requires
        state.wf(),
        base_wf(base),
    ensures
        r is Some <==> layered(state, base).checksums.contains_key((repo@, digest@)),
        r matches Some(c) ==> c == layered(state, base).checksums[(repo@, digest@)],
{
    let key = pair(repo, digest);
    if let Some(v) = state.checksums.get(&key) {
        return Some(*v);
    }
    if state.deleted_checksums.contains(&key) || state.is_digest_deleted(repo, digest) {
        return None;
    }
    if let Some(snap) = base {
        if let Some(v) = snap.checksums.get(&key) {
            return Some(*v);
        }
    }
    None
}

/// The tags of `repo` with digest and media type, sorted by tag.
pub fn tags_snapshot(state: &State, base: Option<&SnapshotState>, repo: &str) -> (r: Vec<
    (String, String, String),
>)
    requires
        state.wf(),
        base_wf(base),
    ensures
        is_tag_listing(r@, layered(state, base).tags, repo@),
{
    let merged = merged_tags(state, base, repo);
    let ghost rows = merged.rows();
    let ghost all = layered(state, base).tags;
    let mut out: Vec<(String, String, String)> = Vec::new();
    let mut i: usize = 0;
    while i < merged.len()
        invariant
            rows == merged.rows(),
            i <= rows.len(),
            out@.len() == i,
            forall|j: int|
                #![trigger out@[j]]
                0 <= j < i ==> out@[j].0@ == rows[j].0@ && out@[j].1@ == rows[j].1.0@
                    && out@[j].2@ == rows[j].1.1@,
        decreases rows.len() - i,
    {
        let v = merged.value_at(i);
        out.push((merged.key_at(i).clone(), v.0.clone(), v.1.clone()));
        i += 1;
    }
    proof {
        let ts = listed_tags(out@);
        assert forall|a: int, b: int|
            #![trigger ts[a], ts[b]]
            0 <= a < b < ts.len() implies text_lt(ts[a], ts[b]) by {
            assert(out@[a].0@ == rows[a].0@ && out@[b].0@ == rows[b].0@);
            assert(text_lt(rows[a].0.deep_view(), rows[b].0.deep_view()));
        }
        assert forall|j: int| #![trigger out@[j]] 0 <= j < out@.len() implies all.contains_key(
            (repo@, out@[j].0@),
        ) && all[(repo@, out@[j].0@)] == (out@[j].1@, out@[j].2@) by {
            lemma_row_at(rows, j);
            assert(merged.map().dom().contains(out@[j].0@));
        }
        assert(ts.to_set() =~= seconds(all.dom(), repo@)) by {
            assert forall|t: Text| seconds(all.dom(), repo@).contains(t) implies ts.to_set().contains(
                t,
            ) by {
                assert(merged.map().dom().contains(t));
                let j = lemma_row_of(rows, t);
                assert(ts[j] == t);
            }
            assert forall|t: Text| ts.to_set().contains(t) implies seconds(
                all.dom(),
                repo@,
            ).contains(t) by {
                let j = choose|j: int| 0 <= j < ts.len() && ts[j] == t;
                assert(out@[j].0@ == t);
            }
        }
    }
    out
}

/// Every repository with a manifest or a referrer, sorted.
pub fn repos(state: &State, base: Option<&SnapshotState>) -> (r: Vec<String>)
    requires
        state.wf(),
        base_wf(base),
    ensures
        increasing(texts(r@)),
        texts(r@).to_set() == repos_of(layered(state, base)),
{
    let ghost t = layered(state, base);
    let ghost deleted = state.delta().deleted_digests;
    let mut set: Table<String, ()> = Table::new();
    let ghost media = state.media_types.rows();
    let mut i: usize = 0;
    while i < state.media_types.len()
        invariant
            state.wf(),
            media == state.media_types.rows(),
            t == layered(state, base),
            i <= media.len(),
            set.wf(),
            forall|j: int| #![trigger media[j]] 0 <= j < i ==> set.map().contains_key(media[j].0.0@),
            forall|x: Text| #[trigger] set.map().contains_key(x) ==> has_repo(t, x),
        decreases media.len() - i,
    {
        let key = state.media_types.key_at(i);
        proof {
            lemma_row_at(media, i as int);
            assert(media[i as int].0.deep_view() == (key.0@, key.1@));
            assert(t.media_types.contains_key((key.0@, key.1@)));
        }
        set.insert(key.0.clone(), ());
        i += 1;
    }
    let ghost subjects = state.referrers.rows();
    i = 0;
    while i < state.referrers.len()
        invariant
            state.wf(),
            media == state.media_types.rows(),
            subjects == state.referrers.rows(),
            t == layered(state, base),
            i <= subjects.len(),
            set.wf(),
            forall|j: int|
                #![trigger media[j]]
                0 <= j < media.len() ==> set.map().contains_key(media[j].0.0@),
            forall|j: int|
                #![trigger subjects[j]]
                0 <= j < i ==> set.map().contains_key(subjects[j].0.0@),
            forall|x: Text| #[trigger] set.map().contains_key(x) ==> has_repo(t, x),
        decreases subjects.len() - i,
    {
        let key = state.referrers.key_at(i);
        proof {
            lemma_row_at(subjects, i as int);
            let k = (key.0@, key.1@);
            assert(subjects[i as int].0.deep_view() == k);
            let refs = state.referrers.map()[k];
            assert(refs.model() != Map::<Text, Seq<u8>>::empty());
            if forall|d: Text| !refs.model().contains_key(d) {
                assert(refs.model() =~= Map::<Text, Seq<u8>>::empty());
            }
            let d = choose|d: Text| refs.model().contains_key(d);
            assert(state.delta().tables.referrers.contains_key((k.0, k.1, d)));
            assert(t.referrers.contains_key((k.0, k.1, d)));
        }
        set.insert(key.0.clone(), ());
        i += 1;
    }
    if let Some(snap) = base {
        let ghost brows = snap.media_types.rows();
        i = 0;
        while i < snap.media_types.len()
            invariant
                state.wf(),
                snap.wf(),
                base == Some(snap),
                deleted == state.delta().deleted_digests,
                media == state.media_types.rows(),
                subjects == state.referrers.rows(),
                brows == snap.media_types.rows(),
                t == layered(state, base),
                i <= brows.len(),
                set.wf(),
                forall|j: int|
                    #![trigger media[j]]
                    0 <= j < media.len() ==> set.map().contains_key(media[j].0.0@),
                forall|j: int|
                    #![trigger subjects[j]]
                    0 <= j < subjects.len() ==> set.map().contains_key(subjects[j].0.0@),
                forall|j: int|
                    #![trigger brows[j]]
                    0 <= j < i && !deleted.contains((brows[j].0.0@, brows[j].0.1@))
                        ==> set.map().contains_key(brows[j].0.0@),
                forall|x: Text| #[trigger] set.map().contains_key(x) ==> has_repo(t, x),
            decreases brows.len() - i,
        {
            let key = snap.media_types.key_at(i);
            if !state.is_digest_deleted(key.0.as_str(), key.1.as_str()) {
                proof {
                    lemma_row_at(brows, i as int);
                    assert(brows[i as int].0.deep_view() == (key.0@, key.1@));
                    assert(t.media_types.contains_key((key.0@, key.1@)));
                }
                set.insert(key.0.clone(), ());
            }
            i += 1;
        }
        let ghost rrows = snap.referrers.rows();
        i = 0;
        while i < snap.referrers.len()
            invariant
                state.wf(),
                snap.wf(),
                base == Some(snap),
                deleted == state.delta().deleted_digests,
                media == state.media_types.rows(),
                subjects == state.referrers.rows(),
                brows == snap.media_types.rows(),
                rrows == snap.referrers.rows(),
                t == layered(state, base),
                i <= rrows.len(),
                set.wf(),
                forall|j: int|
                    #![trigger media[j]]
                    0 <= j < media.len() ==> set.map().contains_key(media[j].0.0@),
                forall|j: int|
                    #![trigger subjects[j]]
                    0 <= j < subjects.len() ==> set.map().contains_key(subjects[j].0.0@),
                forall|j: int|
                    #![trigger brows[j]]
                    0 <= j < brows.len() && !deleted.contains((brows[j].0.0@, brows[j].0.1@))
                        ==> set.map().contains_key(brows[j].0.0@),
                forall|j: int|
                    #![trigger rrows[j]]
                    0 <= j < i && !deleted.contains((rrows[j].0.0@, rrows[j].0.2@))
                        ==> set.map().contains_key(rrows[j].0.0@),
                forall|x: Text| #[trigger] set.map().contains_key(x) ==> has_repo(t, x),
            decreases rrows.len() - i,
        {
            let key = snap.referrers.key_at(i);
            if !state.is_digest_deleted(key.0.as_str(), key.2.as_str()) {
                proof {
                    lemma_row_at(rrows, i as int);
                    assert(rrows[i as int].0.deep_view() == (key.0@, key.1@, key.2@));
                    assert(t.referrers.contains_key((key.0@, key.1@, key.2@)));
                }
                set.insert(key.0.clone(), ());
            }
            i += 1;
        }
        proof {
            assert forall|x: Text| has_repo(t, x) implies set.map().contains_key(x) by {
                if exists|d: Text| t.media_types.contains_key((x, d)) {
                    let d = choose|d: Text| t.media_types.contains_key((x, d));
                    if state.media_types.map().contains_key((x, d)) {
                        let j = lemma_row_of(media, (x, d));
                        assert(media[j].0.deep_view() == (x, d));
                    } else {
                        let j = lemma_row_of(brows, (x, d));
                        assert(brows[j].0.deep_view() == (x, d));
                    }
                } else {
                    let (s, d) = choose|s: Text, d: Text| t.referrers.contains_key((x, s, d));
                    if state.delta().tables.referrers.contains_key((x, s, d)) {
                        let j = lemma_row_of(subjects, (x, s));
                        assert(subjects[j].0.deep_view() == (x, s));
                    } else {
                        let j = lemma_row_of(rrows, (x, s, d));
                        assert(rrows[j].0.deep_view() == (x, s, d));
                    }
                }
            }
        }
    } else {
        proof {
            assert forall|x: Text| has_repo(t, x) implies set.map().contains_key(x) by {
                if exists|d: Text| t.media_types.contains_key((x, d)) {
                    let d = choose|d: Text| t.media_types.contains_key((x, d));
                    let j = lemma_row_of(media, (x, d));
                    assert(media[j].0.deep_view() == (x, d));
                } else {
                    let (s, d) = choose|s: Text, d: Text| t.referrers.contains_key((x, s, d));
                    assert(state.delta().tables.referrers.contains_key((x, s, d)));
                    let j = lemma_row_of(subjects, (x, s));
                    assert(subjects[j].0.deep_view() == (x, s));
                }
            }
        }
    }
    assert(set.map().dom() =~= repos_of(t));
    keys_of(&set)
}

/// Every manifest digest recorded in `repo`, each once.
pub fn manifests(state: &State, base: Option<&SnapshotState>, repo: &str) -> (r: Vec<String>)
    requires
        state.wf(),
        base_wf(base),
    ensures
        texts(r@).no_duplicates(),
        texts(r@).to_set() == seconds(layered(state, base).media_types.dom(), repo@),
{
    let ghost all = layered(state, base).media_types;
    let ghost deleted = state.delta().deleted_digests;
    let ghost want = seconds(all.dom(), repo@);
    let mut out: Vec<String> = Vec::new();
    let (lo, hi) = range_of_pairs(&state.media_types, repo);
    let ghost rows = state.media_types.rows();
    let mut i: usize = lo;
    while i < hi
        invariant
            state.wf(),
            rows == state.media_types.rows(),
            all == layered(state, base).media_types,
            want == seconds(all.dom(), repo@),
            lo <= i <= hi <= rows.len(),
            forall|j: int|
                #![trigger rows[j]]
                0 <= j < rows.len() ==> (lo <= j < hi <==> rows[j].0.0@ == repo@),
            out@.len() == i - lo,
            forall|j: int|
                #![trigger out@[j]]
                0 <= j < out@.len() ==> out@[j]@ == rows[lo + j].0.1@ && want.contains(out@[j]@),
        decreases hi - i,
    {
        let key = state.media_types.key_at(i);
        proof {
            lemma_row_at(rows, i as int);
            assert(rows[i as int].0.deep_view() == (repo@, key.1@));
            assert(all.contains_key((repo@, key.1@)));
        }
        out.push(key.1.clone());
        i += 1;
    }
    proof {
        let ts = texts(out@);
        assert forall|a: int, b: int| 0 <= a < b < ts.len() implies ts[a] != ts[b] by {
            assert(out@[a]@ == ts[a] && out@[b]@ == ts[b]);
            if ts[a] == ts[b] {
                assert(rows[lo + a].0.deep_view() == rows[lo + b].0.deep_view());
                crate::table::lemma_row_unique(rows, lo + a, lo + b);
            }
        }
        assert forall|d: Text| state.media_types.map().contains_key((repo@, d)) implies ts.contains(
            d,
        ) by {
            let j = lemma_row_of(rows, (repo@, d));
            assert(rows[j].0.deep_view() == (repo@, d));
            assert(out@[j - lo]@ == d);
            assert(ts[j - lo] == d);
        }
        assert forall|x: Text| ts.contains(x) implies want.contains(x) by {
            let j = choose|j: int| 0 <= j < ts.len() && ts[j] == x;
            assert(out@[j]@ == x);
        }
    }
    if let Some(snap) = base {
        let (lo, hi) = range_of_pairs(&snap.media_types, repo);
        let ghost rows = snap.media_types.rows();
        let mut i: usize = lo;
        while i < hi
            invariant
                state.wf(),
                snap.wf(),
                base == Some(snap),
                rows == snap.media_types.rows(),
                deleted == state.delta().deleted_digests,
                all == layered(state, base).media_types,
                want == seconds(all.dom(), repo@),
                lo <= i <= hi <= rows.len(),
                forall|j: int|
                    #![trigger rows[j]]
                    0 <= j < rows.len() ==> (lo <= j < hi <==> rows[j].0.0@ == repo@),
                texts(out@).no_duplicates(),
                forall|x: Text| #[trigger] texts(out@).contains(x) ==> want.contains(x),
                forall|d: Text|
                    #![trigger texts(out@).contains(d)]
                    state.media_types.map().contains_key((repo@, d)) ==> texts(out@).contains(d),
                forall|j: int|
                    #![trigger rows[j]]
                    lo <= j < i && !deleted.contains((repo@, rows[j].0.1@)) ==> texts(
                        out@,
                    ).contains(rows[j].0.1@),
            decreases hi - i,
        {
            let key = snap.media_types.key_at(i);
            let d = key.1.as_str();
            let ghost before = texts(out@);
            if !state.is_digest_deleted(repo, d) && !has_text(&out, d) {
                proof {
                    lemma_row_at(rows, i as int);
                    assert(rows[i as int].0.deep_view() == (repo@, d@));
                    assert(all.contains_key((repo@, d@)));
                }
                out.push(key.1.clone());
                proof {
                    let after = texts(out@);
                    assert(after =~= before.push(d@));
                    assert forall|x: Text| #[trigger] after.contains(x) <==> before.contains(x) || x
                        == d@ by {
                        if before.contains(x) {
                            let j = choose|j: int| 0 <= j < before.len() && before[j] == x;
                            assert(after[j] == x);
                        }
                        assert(after[before.len() as int] == d@);
                    }
                }
            }
            i += 1;
        }
        proof {
            assert forall|d: Text| want.contains(d) implies texts(out@).contains(d) by {
                if !state.media_types.map().contains_key((repo@, d)) {
                    let j = lemma_row_of(rows, (repo@, d));
                    assert(rows[j].0.deep_view() == (repo@, d));
                }
            }
        }
    }
    assert(texts(out@).to_set() =~= want);
    out
}

/// The subjects of `repo` that have referrers.
pub open spec fn subjects_of(m: Map<(Text, Text, Text), Seq<u8>>, repo: Text) -> Set<Text> {
    Set::new(|s: Text| exists|d: Text| m.contains_key((repo, s, d)))
}

/// The subjects of a referrer listing.
pub open spec fn listed_subjects(s: Seq<(String, Vec<Referrer>)>) -> Seq<Text> {
    Seq::new(s.len(), |i: int| s[i].0@)
}

/// `refs` lists exactly the referrers in `m`, in order, with their descriptors.
pub open spec fn is_full_listing(refs: Seq<Referrer>, m: Map<Text, Seq<u8>>) -> bool {
    &&& increasing(referrer_digests(refs))
    &&& referrer_digests(refs).to_set() == m.dom()
    &&& forall|i: int|
        #![trigger refs[i]]
        0 <= i < refs.len() ==> m.contains_key(refs[i].0@) && refs[i].1@ == m[refs[i].0@]
}

/// `s` lists exactly the subjects of `repo`, in order, with their referrers.
pub open spec fn is_referrer_listing(
    s: Seq<(String, Vec<Referrer>)>,
    m: Map<(Text, Text, Text), Seq<u8>>,
    repo: Text,
) -> bool {
    &&& increasing(listed_subjects(s))
    &&& listed_subjects(s).to_set() == subjects_of(m, repo)
    &&& forall|i: int|
        #![trigger s[i]]
        0 <= i < s.len() ==> is_full_listing(s[i].1@, referrers_of(m, repo, s[i].0@))
}

/// The subjects of `repo` that may have referrers.
fn candidate_subjects(state: &State, base: Option<&SnapshotState>, repo: &str) -> (r: Table<
    String,
    (),
>)
    requires
        state.wf(),
        base_wf(base),
    ensures
        r.wf(),
        forall|s: Text| #[trigger]
            subjects_of(layered(state, base).referrers, repo@).contains(s)
                ==> r.map().contains_key(s),
{
    let ghost m = layered(state, base).referrers;
    let mut set: Table<String, ()> = Table::new();
    let (lo, hi) = range_of_pairs(&state.referrers, repo);
    let ghost rows = state.referrers.rows();
    let mut i: usize = lo;
    while i < hi
        invariant
            rows == state.referrers.rows(),
            lo <= i <= hi <= rows.len(),
            set.wf(),
            forall|j: int| #![trigger rows[j]] lo <= j < i ==> set.map().contains_key(rows[j].0.1@),
        decreases hi - i,
    {
        set.insert(state.referrers.key_at(i).1.clone(), ());
        i += 1;
    }
    let ghost mid = set.map();
    if let Some(snap) = base {
        let (blo, bhi) = range_of_first(&snap.referrers, repo);
        let ghost brows = snap.referrers.rows();
        let mut i: usize = blo;
        while i < bhi
            invariant
                brows == snap.referrers.rows(),
                blo <= i <= bhi <= brows.len(),
                set.wf(),
                forall|s: Text| #[trigger] mid.contains_key(s) ==> set.map().contains_key(s),
                forall|j: int|
                    #![trigger brows[j]]
                    blo <= j < i ==> set.map().contains_key(brows[j].0.1@),
            decreases bhi - i,
        {
            set.insert(snap.referrers.key_at(i).1.clone(), ());
            i += 1;
        }
        proof {
            assert forall|s: Text| #[trigger] subjects_of(m, repo@).contains(s) implies
                set.map().contains_key(s) by {
                let d = choose|d: Text| m.contains_key((repo@, s, d));
                if state.delta().tables.referrers.contains_key((repo@, s, d)) {
                    let j = lemma_row_of(rows, (repo@, s));
                    assert(rows[j].0.deep_view() == (repo@, s));
                    assert(mid.contains_key(s));
                } else {
                    let j = lemma_row_of(brows, (repo@, s, d));
                    assert(brows[j].0.deep_view() == (repo@, s, d));
                }
            }
        }
    } else {
        proof {
            assert forall|s: Text| #[trigger] subjects_of(m, repo@).contains(s) implies
                set.map().contains_key(s) by {
                let d = choose|d: Text| m.contains_key((repo@, s, d));
                assert(state.delta().tables.referrers.contains_key((repo@, s, d)));
                let j = lemma_row_of(rows, (repo@, s));
                assert(rows[j].0.deep_view() == (repo@, s));
            }
        }
    }
    set
}

/// The referrers of `repo`, by subject.
pub fn referrers_snapshot(state: &State, base: Option<&SnapshotState>, repo: &str) -> (r: Vec<
    (String, Vec<Referrer>),
>)
    requires
        state.wf(),
        base_wf(base),
    ensures
        is_referrer_listing(r@, layered(state, base).referrers, repo@),
{
    let ghost m = layered(state, base).referrers;
    let set = candidate_subjects(state, base, repo);
    let ghost rows = set.rows();
    let mut out: Vec<(String, Vec<Referrer>)> = Vec::new();
    let mut i: usize = 0;
    while i < set.len()
        invariant
            state.wf(),
            base_wf(base),
            m == layered(state, base).referrers,
            set.wf(),
            rows == set.rows(),
            i <= rows.len(),
            increasing(listed_subjects(out@)),
            forall|j: int|
                #![trigger out@[j]]
                0 <= j < out@.len() ==> is_full_listing(
                    out@[j].1@,
                    referrers_of(m, repo@, out@[j].0@),
                ) && subjects_of(m, repo@).contains(out@[j].0@) && exists|x: int|
                    #![trigger rows[x]]
                    0 <= x < i && rows[x].0@ == out@[j].0@,
            forall|x: int|
                #![trigger rows[x]]
                0 <= x < i && subjects_of(m, repo@).contains(rows[x].0@) ==> listed_subjects(
                    out@,
                ).contains(rows[x].0@),
        decreases rows.len() - i,
    {
        let subject = set.key_at(i);
        let refs = merged_referrers(state, base, repo, subject.as_str());
        let ghost want = referrers_of(m, repo@, subject@);
        let ghost out0 = out@;
        let ghost ls0 = listed_subjects(out0);
        if !refs.is_empty() {
            out.push((subject.clone(), refs.listing()));
            proof {
                let ls = listed_subjects(out@);
                assert(ls =~= ls0.push(subject@));
                if forall|d: Text| !want.contains_key(d) {
                    assert(want =~= Map::<Text, Seq<u8>>::empty());
                }
                let d = choose|d: Text| want.contains_key(d);
                assert(m.contains_key((repo@, subject@, d)));
                assert forall|a: int, b: int|
                    #![trigger ls[a], ls[b]]
                    0 <= a < b < ls.len() implies text_lt(ls[a], ls[b]) by {
                    if b < ls0.len() {
                        assert(ls0[a] == ls[a] && ls0[b] == ls[b]);
                    } else {
                        assert(out0[a].0@ == ls[a]);
                        let x = choose|x: int|
                            #![trigger rows[x]]
                            0 <= x < i && rows[x].0@ == out0[a].0@;
                        assert(text_lt(rows[x].0.deep_view(), rows[i as int].0.deep_view()));
                    }
                }
                assert forall|j: int| #![trigger out@[j]] 0 <= j < out@.len() implies
                    is_full_listing(out@[j].1@, referrers_of(m, repo@, out@[j].0@))
                    && subjects_of(m, repo@).contains(out@[j].0@) && exists|x: int|
                    #![trigger rows[x]]
                    0 <= x < i + 1 && rows[x].0@ == out@[j].0@ by {
                    if j < out0.len() {
                        assert(out@[j] == out0[j]);
                        let x = choose|x: int|
                            #![trigger rows[x]]
                            0 <= x < i && rows[x].0@ == out0[j].0@;
                        assert(rows[x].0@ == out@[j].0@);
                    } else {
                        assert(rows[i as int].0@ == out@[j].0@);
                    }
                }
                assert forall|x: int|
                    #![trigger rows[x]]
                    0 <= x < i + 1 && subjects_of(m, repo@).contains(rows[x].0@) implies ls.contains(
                    rows[x].0@,
                ) by {
                    if x < i {
                        let j = choose|j: int| 0 <= j < ls0.len() && ls0[j] == rows[x].0@;
                        assert(ls[j] == rows[x].0@);
                    } else {
                        assert(ls[ls0.len() as int] == rows[x].0@);
                    }
                }
            }
        } else {
            proof {
                if subjects_of(m, repo@).contains(subject@) {
                    let d = choose|d: Text| m.contains_key((repo@, subject@, d));
                    assert(want.contains_key(d));
                }
            }
        }
        i += 1;
    }
    proof {
        let ls = listed_subjects(out@);
        assert forall|s: Text| ls.to_set().contains(s) <==> subjects_of(m, repo@).contains(s) by {
            if ls.to_set().contains(s) {
                let j = choose|j: int| 0 <= j < ls.len() && ls[j] == s;
                assert(out@[j].0@ == s);
            }
            if subjects_of(m, repo@).contains(s) {
                let x = lemma_row_of(rows, s);
                assert(rows[x].0.deep_view() == s);
            }
        }
        assert(ls.to_set() =~= subjects_of(m, repo@));
    }
    out
}

/// The tags of a tag listing.
pub open spec fn listed_tags(s: Seq<(String, String, String)>) -> Seq<Text> {
    Seq::new(s.len(), |i: int| s[i].0@)
}

/// `s` lists exactly the tags of `repo`, in order, each with what it points at.
pub open spec fn is_tag_listing(
    s: Seq<(String, String, String)>,
    tags: Map<(Text, Text), (Text, Text)>,
    repo: Text,
) -> bool {
    &&& increasing(listed_tags(s))
    &&& listed_tags(s).to_set() == seconds(tags.dom(), repo)
    &&& forall|i: int|
        #![trigger s[i]]
        0 <= i < s.len() ==> tags.contains_key((repo, s[i].0@)) && tags[(repo, s[i].0@)] == (
            s[i].1@,
            s[i].2@,
        )
}

} // verus!
