//! The buffer pool, the blob cache, the dedupe index, the presence filter and the
//! collector's bookkeeping.

use roci_storage::bufpool::BufPool;
use roci_storage::cache::{key, SmallBlobCache};
use roci_storage::dedupe::DedupeIndex;
use roci_storage::filter::BlobPresenceFilter;
use roci_storage::gc::GcTracker;
use roci_storage::page::page_sorted;

/// Seconds on the collector's clock.
const SECOND: u64 = 1_000_000_000;

#[test]
fn pool_is_bounded_and_rejects_shrunken_buffers() {
    let mut pool = BufPool::new(64, 1);
    pool.put(Vec::with_capacity(64));
    pool.put(Vec::with_capacity(64));
    pool.put(Vec::with_capacity(8));
    assert_eq!(pool.idle(), 1);
}

#[test]
fn pooled_buffers_come_back_empty_and_large_enough() {
    let mut pool = BufPool::new(64, 2);
    let mut a = pool.get();
    assert!(a.capacity() >= 64);
    a.extend_from_slice(b"hello");
    let before = a.as_ptr();
    pool.put(a);
    assert_eq!(pool.idle(), 1);
    let b = pool.get();
    assert_eq!((b.as_ptr(), b.len()), (before, 0));
    assert_eq!(pool.idle(), 0);
}

#[test]
fn caches_small_blobs_and_serves_hits() {
    let mut c = SmallBlobCache::new();
    assert!(c.get("r", "sha256:aa").is_none());
    c.put("r", "sha256:aa", b"manifest bytes");
    assert_eq!(&*c.get("r", "sha256:aa").unwrap(), b"manifest bytes");
    // The same digest in another repository has another key.
    assert!(c.get("other", "sha256:aa").is_none());
}

#[test]
fn rejects_blobs_over_threshold() {
    let mut c = SmallBlobCache::with_limits(8, 1024);
    c.put("r", "sha256:big", b"0123456789"); // 10 bytes > 8
    assert!(c.get("r", "sha256:big").is_none());
    c.put("r", "sha256:ok", b"01234567"); // 8 bytes == threshold
    assert!(c.get("r", "sha256:ok").is_some());
}

#[test]
fn evicts_lru_to_stay_within_byte_budget() {
    // Capacity 20 bytes, threshold 20.
    let mut c = SmallBlobCache::with_limits(20, 20);
    c.put("r", "a", b"0123456789");
    c.put("r", "b", b"0123456789");
    assert!(c.get("r", "a").is_some());
    // "a" is used again, so "b" is the least recently used.
    assert!(c.get("r", "a").is_some());
    c.put("r", "c", b"0123456789");
    assert!(c.get("r", "c").is_some());
    assert!(c.get("r", "a").is_some());
    assert!(c.get("r", "b").is_none());
}

#[test]
fn put_replaces_existing_and_adjusts_bytes() {
    let mut c = SmallBlobCache::with_limits(100, 100);
    c.put("r", "k", b"0123456789");
    c.put("r", "k", b"01");
    assert_eq!(&*c.get("r", "k").unwrap(), b"01");
    // 2 + 98 = 100 fits exactly.
    c.put("r", "big", &[0u8; 98]);
    assert!(c.get("r", "big").is_some());
    assert!(c.get("r", "k").is_some());
}

#[test]
fn invalidate_drops_entry_and_frees_bytes() {
    let mut c = SmallBlobCache::with_limits(100, 20);
    c.put("r", "a", b"0123456789");
    c.invalidate("r", "a");
    assert!(c.get("r", "a").is_none());
    // The freed bytes can be used again.
    c.put("r", "b", b"0123456789");
    c.put("r", "c", b"0123456789");
    assert!(c.get("r", "b").is_some());
    assert!(c.get("r", "c").is_some());
    // Invalidating an absent key does nothing.
    c.invalidate("r", "absent");
}

#[test]
fn content_larger_than_capacity_is_not_cached() {
    let mut c = SmallBlobCache::with_limits(1000, 8);
    c.put("r", "k", b"0123456789");
    assert!(c.get("r", "k").is_none());
}

#[test]
fn default_and_nonzero_capacity_are_sane() {
    let mut c = SmallBlobCache::default();
    c.put("r", "k", b"hi");
    assert!(c.get("r", "k").is_some());
    // An empty blob fits a threshold and a capacity of zero.
    let mut z = SmallBlobCache::with_limits(0, 0);
    z.put("r", "k", b"");
    assert!(z.get("r", "k").is_some());
}

#[test]
fn evicting_makes_room_for_several_entries_at_once() {
    let mut c = SmallBlobCache::with_limits(100, 30);
    c.put("r", "a", b"0123456789");
    c.put("r", "b", b"0123456789");
    c.put("r", "c", b"0123456789");
    // 25 bytes leave room for none of the others.
    c.put("r", "d", &[7u8; 25]);
    assert_eq!(c.get("r", "d"), Some(vec![7u8; 25]));
    assert!(c.get("r", "a").is_none());
    assert!(c.get("r", "b").is_none());
    assert!(c.get("r", "c").is_none());
}

#[test]
fn cache_keys_separate_repository_and_digest() {
    assert_eq!(key("r", "sha256:aa"), "r\0sha256:aa");
    assert_ne!(key("ab", "c"), key("a", "bc"));
    assert_eq!(SmallBlobCache::new().threshold(), 102400);
    assert_eq!(SmallBlobCache::with_limits(7, 9).threshold(), 7);
}

#[test]
fn first_location_is_canonical_and_excludes_the_asking_repo() {
    let mut d = DedupeIndex::new(true);
    d.insert("a", "sha256:x");
    d.insert("b", "sha256:x");
    assert_eq!(d.locate("sha256:x", "c").as_deref(), Some("a"));
    // The holder itself has nothing to link from.
    assert_eq!(d.locate("sha256:x", "a"), None);
    // Another holder leaving changes nothing.
    d.remove("b", "sha256:x");
    assert_eq!(d.locate("sha256:x", "c").as_deref(), Some("a"));
    // The holder leaving frees the place.
    d.remove("a", "sha256:x");
    assert_eq!(d.locate("sha256:x", "c"), None);
    d.insert("b", "sha256:x");
    assert_eq!(d.locate("sha256:x", "c").as_deref(), Some("b"));
}

#[test]
fn disabled_index_records_and_locates_nothing() {
    let mut d = DedupeIndex::new(false);
    d.insert("a", "sha256:x");
    assert!(!d.enabled());
    assert_eq!(d.locate("sha256:x", "b"), None);
}

#[test]
fn dedupe_entries_list_each_digest_once() {
    let mut d = DedupeIndex::new(true);
    d.insert("b", "sha256:y");
    d.insert("a", "sha256:x");
    d.insert("c", "sha256:x");
    assert_eq!(
        d.entries(),
        vec![
            ("sha256:x".to_string(), "a".to_string()),
            ("sha256:y".to_string(), "b".to_string()),
        ]
    );
}

#[test]
fn absent_is_definite_present_is_maybe() {
    let mut f = BlobPresenceFilter::new();
    assert!(!f.maybe_present("r", "sha256:aa"));
    f.insert("r", "sha256:aa");
    assert!(f.maybe_present("r", "sha256:aa"));
    // Other keys are still absent.
    assert!(!f.maybe_present("r", "sha256:zz"));
    assert!(!f.maybe_present("other", "sha256:aa"));
}

#[test]
fn remove_clears_membership() {
    let mut f = BlobPresenceFilter::new();
    f.insert("r", "sha256:aa");
    assert!(f.maybe_present("r", "sha256:aa"));
    f.remove("r", "sha256:aa");
    assert!(!f.maybe_present("r", "sha256:aa"));
    // Removing an absent key does nothing.
    f.remove("r", "sha256:absent");
}

#[test]
fn disabled_filter_reports_maybe_present() {
    let mut f = BlobPresenceFilter::disabled();
    assert!(f.maybe_present("r", "sha256:anything"));
    f.insert("r", "sha256:aa");
    f.remove("r", "sha256:aa");
    assert!(f.maybe_present("r", "sha256:aa"));
}

#[test]
fn default_constructs_enabled_filter() {
    let f = BlobPresenceFilter::default();
    assert!(!f.maybe_present("r", "sha256:aa"));
}

#[test]
fn overflow_disables_filter_via_insert_path() {
    // A tiny filter fills quickly; a failed insertion gives it up, and every
    // blob may be present from then on.
    let mut f = BlobPresenceFilter::with_capacity(1);
    for i in 0..10_000 {
        f.insert("r", &format!("sha256:{i:064x}"));
    }
    assert!(f.maybe_present("r", "sha256:definitely-never-inserted"));
}

#[test]
fn no_inserted_blob_is_ever_denied() {
    let mut f = BlobPresenceFilter::with_capacity(64);
    for i in 0..500 {
        f.insert("r", &format!("sha256:{i:064x}"));
        for j in 0..=i {
            assert!(f.maybe_present("r", &format!("sha256:{j:064x}")));
        }
    }
}

#[test]
fn each_removal_takes_one_entry_and_denies_no_other_blob() {
    // Four slots: four insertions fit, and four removals empty them again.
    let mut f = BlobPresenceFilter::with_capacity(4);
    let names: Vec<String> = (0..4).map(|i| format!("sha256:{i:064x}")).collect();
    for name in &names {
        f.insert("r", name);
    }
    for i in 0..names.len() {
        f.remove("r", &names[i]);
        for name in &names[i + 1..] {
            assert!(f.maybe_present("r", name));
        }
    }
    for name in &names {
        assert!(!f.maybe_present("r", name));
    }
    // What was recorded twice is still there after one removal.
    f.insert("r", &names[0]);
    f.insert("r", &names[0]);
    f.remove("r", &names[0]);
    assert!(f.maybe_present("r", &names[0]));
    f.remove("r", &names[0]);
    assert!(!f.maybe_present("r", &names[0]));
}

#[test]
fn a_filter_without_room_is_given_up() {
    // One bucket of four slots, whatever capacity up to four is asked for.
    for capacity in [0, 1, 4] {
        let mut f = BlobPresenceFilter::with_capacity(capacity);
        for i in 0..5 {
            f.insert("r", &format!("sha256:{i:064x}"));
        }
        for i in 0..5 {
            f.remove("r", &format!("sha256:{i:064x}"));
        }
        assert!(f.maybe_present("r", "sha256:never-inserted"));
    }
    // Eight slots do not fill with four entries.
    let mut f = BlobPresenceFilter::with_capacity(5);
    for i in 0..4 {
        f.insert("r", &format!("sha256:{i:064x}"));
    }
    for i in 0..4 {
        f.remove("r", &format!("sha256:{i:064x}"));
    }
    assert!(!f.maybe_present("r", "sha256:never-inserted"));
}

#[test]
fn candidates_become_due_after_the_delay_and_touch_restarts_it() {
    let mut gc = GcTracker::new(true, 60 * SECOND);
    let now = 1000 * SECOND;
    gc.mark("r", "sha256:a", now);
    assert!(gc.due(now).is_empty());
    assert!(!gc.is_due("r", "sha256:a", now));
    let later = now + 61 * SECOND;
    assert_eq!(gc.due(later), vec![("r".to_string(), "sha256:a".to_string())]);
    assert!(gc.is_due("r", "sha256:a", later));
    // Touching stamps it again.
    gc.touch("r", "sha256:a", later);
    assert!(!gc.is_due("r", "sha256:a", later));
    // Touching what is no candidate makes none.
    gc.touch("r", "sha256:b", later);
    assert_eq!(gc.len(), 1);
    gc.clear("r", "sha256:a");
    assert!(gc.is_empty());
}

#[test]
fn mark_at_allows_deterministic_timestamps() {
    let mut gc = GcTracker::new(true, 10 * SECOND);
    let base = 500 * SECOND;
    gc.mark_at("r", "sha256:a", base);
    assert!(!gc.is_due("r", "sha256:a", base + 5 * SECOND));
    assert!(gc.is_due("r", "sha256:a", base + 11 * SECOND));
}

#[test]
fn roots_and_unsafe_repos() {
    let mut gc = GcTracker::new(true, 60 * SECOND);
    assert!(!gc.is_root("r", "sha256:a"));
    gc.add_root("r", "sha256:a");
    assert!(gc.is_root("r", "sha256:a"));
    assert!(!gc.is_root("r", "sha256:b"));
    assert_eq!(gc.roots_len(), 1);

    assert!(!gc.is_unsafe("r"));
    gc.mark_unsafe("r");
    assert!(gc.is_unsafe("r"));
    assert!(!gc.is_unsafe("other"));
}

#[test]
fn disabled_tracker_records_nothing_and_never_sweeps() {
    let mut gc = GcTracker::disabled();
    gc.mark("r", "d", 5);
    assert!(gc.is_empty());
    gc.set_ready();
    assert!(!gc.is_ready());
    gc.add_root("r", "d");
    assert_eq!(gc.roots_len(), 0);
    gc.mark_unsafe("r");
    assert!(!gc.is_unsafe("r"));
    assert!(!gc.enabled());
    assert_eq!(gc.delay(), 0);
}

#[test]
fn tracker_lists_what_it_holds() {
    let mut gc = GcTracker::new(true, SECOND);
    assert!(!gc.is_ready());
    gc.set_ready();
    assert!(gc.is_ready());
    gc.mark("r", "sha256:b", 1);
    gc.mark("r", "sha256:a", 2);
    gc.add_root("r", "sha256:c");
    gc.mark_unsafe("broken");
    assert_eq!(
        gc.candidate_keys(),
        vec![
            ("r".to_string(), "sha256:a".to_string()),
            ("r".to_string(), "sha256:b".to_string()),
        ]
    );
    assert_eq!(gc.root_keys(), vec![("r".to_string(), "sha256:c".to_string())]);
    assert_eq!(gc.unsafe_repo_names(), vec!["broken".to_string()]);
    // A stamp in the future counts as just now.
    assert!(!gc.is_due("r", "sha256:b", 0));
}

#[test]
fn sorted_items_are_paged_after_the_cursor() {
    let items = || vec!["a".to_string(), "b".to_string(), "d".to_string()];
    let page = |last, limit| {
        let p = page_sorted(items(), last, limit);
        (p.items, p.more)
    };
    assert_eq!(page(None, 2), (vec!["a".to_string(), "b".to_string()], true));
    assert_eq!(page(None, 3), (items(), false));
    assert_eq!(page(Some("b"), 5), (vec!["d".to_string()], false));
    // A cursor that is no item, and one past the end.
    assert_eq!(page(Some("c"), 1), (vec!["d".to_string()], false));
    assert_eq!(page(Some("d"), 1), (Vec::new(), false));
    assert_eq!(page(Some("a"), 1), (vec!["b".to_string()], true));
}
