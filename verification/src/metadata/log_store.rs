//! The default engine: the index in memory, mirrored to the append-only log.
//!
//! Reading and writing files is left to the caller: [`LogMetadataStore::open_with`]
//! takes what the files hold and says what is to become of them,
//! [`LogMetadataStore::append_record`] gives the bytes to append before a mutation
//! is applied, and [`LogMetadataStore::do_maintain`] gives the image that replaces
//! the log.

use crate::json::parsed;
use crate::metadata::codec::{op_json, op_payload, textual, utf8_op};
use crate::metadata::image::{image_head, image_of, image_whole, log_image, op_frames};
use crate::metadata::log::{
    check_log_framing, encode, encode_raw, extend, frame, framing_of, intact_end, intact_len,
    legacy_ops, records, replay_legacy, replay_log, replay_ops, tag_len, LogFramingCheck,
};
use crate::metadata::model::{
    apply_delta, apply_deltas, no_delta, no_tables, overlay, Delta, Op, Tables,
};
use crate::metadata::query;
use crate::metadata::snapshot::{label_of, SnapshotState};
use crate::metadata::state::State;
use crate::metadata::state_laws::{delta_follows_the_merged_index, overlay_of_nothing};
use crate::metadata::store::MetadataStore;
use crate::metadata::wal_hmac::{encode_header, framing_mode, header_payload, mode_for, HmacKey};
use crate::metadata::{BlobChecksum, MetaOp, Referrer};
use crate::page::Page;
use vstd::prelude::*;

verus! {

/// What stands in the place of the snapshot file.
pub enum SnapshotFile {
    /// No file.
    Missing,
    /// A file that failed verification.
    Invalid,
    /// A file that was verified, and what it holds.
    Valid(SnapshotState),
}

/// What is to be done to the files once a store is open.
#[derive(Debug, Clone, Copy, PartialEq, Eq, Structural)]
pub struct OpenActions {
    /// The log cannot be used and is kept under another name.
    pub move_log_aside: bool,
    /// The log is cut to this length: what stands behind is torn.
    pub cut_log: Option<u64>,
    /// The snapshot cannot be used and is removed.
    pub remove_snapshot: bool,
}

/// What replaces the log.
pub struct Upkeep {
    /// The bytes of the new log.
    pub image: Vec<u8>,
    /// The state that the image reproduces; as a snapshot it covers the image.
    pub full: SnapshotState,
    /// Whether the state is also written as the snapshot.
    pub snapshot: bool,
}

/// Whether a log cannot be used with the configured key.
pub open spec fn log_refused(log: Option<Seq<u8>>, key: Option<Seq<u8>>) -> bool {
    match log {
        None => false,
        Some(bytes) => bytes.len() > 0 && match framing_of(bytes, mode_for(key), key) {
            LogFramingCheck::Compatible => false,
            LogFramingCheck::Incompatible => true,
            LogFramingCheck::NoHeader => key is Some,
        },
    }
}

/// What of a log is kept: everything up to the end of its last intact record, or
/// nothing of a log that cannot be used.
pub open spec fn kept_log(log: Option<Seq<u8>>, key: Option<Seq<u8>>) -> Seq<u8> {
    match log {
        Some(bytes) => if log_refused(log, key) {
            Seq::empty()
        } else {
            bytes.take(intact_end(bytes, 0, key))
        },
        None => Seq::empty(),
    }
}

/// The length that a log is cut to, if anything is torn at its end.
pub open spec fn log_cut(log: Option<Seq<u8>>, key: Option<Seq<u8>>) -> Option<u64> {
    match log {
        Some(bytes) => if !log_refused(log, key) && intact_end(bytes, 0, key) < bytes.len() {
            Some(intact_end(bytes, 0, key) as u64)
        } else {
            None
        },
        None => None,
    }
}

/// The mutations that opening a log applies.
pub open spec fn opened_ops(
    log: Option<Seq<u8>>,
    key: Option<Seq<u8>>,
    covered: Option<(u64, u64)>,
) -> Seq<Op> {
    match log {
        None => Seq::empty(),
        Some(bytes) => if bytes.len() == 0 || log_refused(log, key) {
            Seq::empty()
        } else if framing_of(bytes, mode_for(key), key) == LogFramingCheck::Compatible {
            replay_ops(records(bytes, 0, key), 0, 0, covered)
        } else {
            legacy_ops(records(bytes, 0, None))
        },
    }
}

/// The snapshot that is taken into account.
pub open spec fn used_snapshot(file: SnapshotFile, enabled: bool) -> Option<SnapshotState> {
    match file {
        SnapshotFile::Valid(s) => if enabled {
            Some(s)
        } else {
            None
        },
        _ => None,
    }
}

/// What a snapshot covers of the log.
pub open spec fn covered_by(s: Option<SnapshotState>) -> Option<(u64, u64)> {
    match s {
        Some(s) => Some((s.generation, s.log_offset)),
        None => None,
    }
}

/// The index in memory, over the base that a snapshot gives.
pub struct LogMetadataStore {
    state: State,
    base: Option<SnapshotState>,
    key: Option<HmacKey>,
    appended: u64,
    synced: u64,
    compact_threshold: u64,
    snapshot_enabled: bool,
    generation: u64,
    image_len: u64,
}

impl LogMetadataStore {
    /// The mutations since the base.
    pub closed spec fn delta(&self) -> Delta {
        self.state.delta()
    }

    /// The snapshot under the mutations.
    pub closed spec fn base(&self) -> Option<SnapshotState> {
        self.base
    }

    /// The key that authenticates records.
    pub closed spec fn key(&self) -> Option<Seq<u8>> {
        match self.key {
            Some(k) => Some(k.bytes()),
            None => None,
        }
    }

    /// How many records were appended.
    pub closed spec fn appended(&self) -> u64 {
        self.appended
    }

    /// How many appended records are durable.
    pub closed spec fn synced(&self) -> u64 {
        self.synced
    }

    /// How far the log may outgrow its last image; 0 is without limit.
    pub closed spec fn compact_threshold(&self) -> u64 {
        self.compact_threshold
    }

    /// Whether upkeep cuts snapshots.
    pub closed spec fn snapshot_enabled(&self) -> bool {
        self.snapshot_enabled
    }

    /// The generation of the log.
    pub closed spec fn current_generation(&self) -> u64 {
        self.generation
    }

    /// How long the log's last image was.
    pub closed spec fn image_len(&self) -> u64 {
        self.image_len
    }

    /// What the base holds.
    pub open spec fn base_held(&self) -> Tables {
        match self.base() {
            Some(s) => s.tables(),
            None => no_tables(),
        }
    }

    /// Everything but the index itself is as in `other`.
    pub open spec fn same_setup(&self, other: &LogMetadataStore) -> bool {
        &&& self.key() == other.key()
        &&& self.compact_threshold() == other.compact_threshold()
        &&& self.snapshot_enabled() == other.snapshot_enabled()
    }

    /// Opens a store from what its files hold. Replays the log onto the
    /// snapshot's state, or onto nothing, and has what is torn at its end cut
    /// away; a log that the key does not fit is refused, and the snapshot with
    /// it.
    pub fn open_with(
        log: Option<&[u8]>,
        snapshot: SnapshotFile,
        compact_threshold: u64,
        snapshot_enabled: bool,
        key: Option<HmacKey>,
    ) -> (r: (LogMetadataStore, OpenActions))
        requires
            snapshot matches SnapshotFile::Valid(s) ==> s.wf(),
        ensures
            ({
                let (store, actions) = r;
                let bytes = match log {
                    Some(b) => Some(b@),
                    None => None,
                };
                let k = match key {
                    Some(k) => Some(k.bytes()),
                    None => None,
                };
                let used = used_snapshot(snapshot, snapshot_enabled);
                let refused = log_refused(bytes, k);
                &&& store.wf()
                &&& store.base() == (if refused {
                    None
                } else {
                    used
                })
                &&& store.delta() == apply_deltas(
                    no_delta(),
                    opened_ops(bytes, k, covered_by(used)),
                )
                &&& store.key() == k
                &&& store.compact_threshold() == compact_threshold
                &&& store.snapshot_enabled() == snapshot_enabled
                &&& store.appended() == 0
                &&& store.synced() == 0
                &&& store.current_generation() == (match used {
                    Some(s) => s.generation,
                    None => 0,
                })
                &&& store.image_len() == (match used {
                    Some(s) => s.log_offset,
                    None => 0,
                })
                &&& actions.move_log_aside == refused
                &&& actions.cut_log == log_cut(bytes, k)
                &&& actions.remove_snapshot == (snapshot_enabled && (snapshot is Invalid || (refused
                    && snapshot is Valid)))
            }),
    {
        let mut state = State::new();
        let mut actions = OpenActions {
            move_log_aside: false,
            cut_log: None,
            remove_snapshot: false,
        };
        let mut base: Option<SnapshotState> = None;
        let mut generation: u64 = 0;
        let mut image_len: u64 = 0;
        let mut covered: Option<(u64, u64)> = None;
        if snapshot_enabled {
            match snapshot {
                SnapshotFile::Missing => {},
                SnapshotFile::Invalid => {
                    actions.remove_snapshot = true;
                },
                SnapshotFile::Valid(s) => {
                    generation = s.generation;
                    image_len = s.log_offset;
                    covered = Some((s.generation, s.log_offset));
                    base = Some(s);
                },
            }
        }
        let k = key.as_ref();
        if let Some(bytes) = log {
            if bytes.len() > 0 {
                let refused = match check_log_framing(bytes, framing_mode(k), k) {
                    LogFramingCheck::Compatible => {
                        replay_log(bytes, &mut state, k, covered);
                        false
                    },
                    LogFramingCheck::Incompatible => true,
                    LogFramingCheck::NoHeader => {
                        if k.is_some() {
                            true
                        } else {
                            replay_legacy(bytes, &mut state);
                            false
                        }
                    },
                };
                if refused {
                    actions.move_log_aside = true;
                    if base.is_some() {
                        base = None;
                        actions.remove_snapshot = true;
                    }
                } else {
                    let intact = intact_len(bytes, k);
                    if intact < bytes.len() {
                        actions.cut_log = Some(intact as u64);
                    }
                }
            }
        }
        let store = LogMetadataStore {
            state,
            base,
            key,
            appended: 0,
            synced: 0,
            compact_threshold,
            snapshot_enabled,
            generation,
            image_len,
        };
        (store, actions)
    }

    /// Opens a store from its log alone, without a key, upkeep or snapshots.
    pub fn open(log: Option<&[u8]>) -> (r: (LogMetadataStore, OpenActions))
        ensures
            ({
                let (store, actions) = r;
                let bytes = match log {
                    Some(b) => Some(b@),
                    None => None,
                };
                &&& store.wf()
                &&& store.base() is None
                &&& store.delta() == apply_deltas(no_delta(), opened_ops(bytes, None, None))
                &&& store.key() is None
                &&& store.compact_threshold() == 0
                &&& !store.snapshot_enabled()
                &&& store.appended() == 0
                &&& store.synced() == 0
                &&& store.current_generation() == 0
                &&& store.image_len() == 0
                &&& actions.move_log_aside == log_refused(bytes, None)
                &&& actions.cut_log == log_cut(bytes, None)
                &&& !actions.remove_snapshot
            }),
    {
        LogMetadataStore::open_with(log, SnapshotFile::Missing, 0, false, None)
    }

    /// The bytes that record `op` at the end of the log: the record, after the
    /// header when the log is empty.
    pub fn append_record(&self, op: &MetaOp, log_is_empty: bool) -> (r: Vec<u8>)
        ensures
            r@ == (if log_is_empty {
                frame(header_payload(mode_for(self.key())), self.key())
            } else {
                Seq::<u8>::empty()
            }) + frame(op_payload(op.model()), self.key()),
            parsed(op_payload(op.model())) == Some(op_json(op.model())),
            utf8_op(op.model()) ==> textual(op.model()),
            frame(op_payload(op.model()), self.key()).len() == 8 + op_payload(op.model()).len()
                + tag_len(self.key()),
    {
        let key = self.key.as_ref();
        let record = encode(op, key);
        let mut out: Vec<u8> = Vec::new();
        if log_is_empty {
            let header = encode_header(framing_mode(key));
            out = encode_raw(header.as_slice(), key);
        }
        extend(&mut out, record.as_slice());
        out
    }

    /// Whether the record numbered `my_seq` still has to be made durable, and if
    /// so how many records one sync makes durable.
    pub fn group_commit_through(&self, my_seq: u64) -> (r: Option<u64>)
        ensures
            r == (if self.synced() >= my_seq {
                None
            } else {
                Some(self.appended())
            }),
    {
        if self.synced >= my_seq {
            None
        } else {
            Some(self.appended)
        }
    }

    /// Notes that the first `covered` records are durable. Returns how many of
    /// them were not before.
    pub fn synced_through(&mut self, covered: u64) -> (batch: u64)
        requires
            old(self).wf(),
        ensures
            final(self).wf(),
            final(self).tables() == old(self).tables(),
            final(self).synced() == (if covered > old(self).synced() {
                covered
            } else {
                old(self).synced()
            }),
            final(self).appended() == old(self).appended(),
            final(self).current_generation() == old(self).current_generation(),
            final(self).image_len() == old(self).image_len(),
            final(self).base() == old(self).base(),
            final(self).delta() == old(self).delta(),
            final(self).same_setup(old(self)),
            batch == (if covered > old(self).synced() {
                covered - old(self).synced()
            } else {
                0
            }),
    {
        if covered > self.synced {
            let batch = covered - self.synced;
            self.synced = covered;
            batch
        } else {
            0
        }
    }

    /// How many records were appended so far: the number of the last one.
    pub fn last_seq(&self) -> (r: u64)
        ensures
            r == self.appended(),
    {
        self.appended
    }

    /// The generation of the log.
    pub fn generation(&self) -> (r: u64)
        ensures
            r == self.current_generation(),
    {
        self.generation
    }

    /// What is to replace a log of `log_size` bytes, if it has outgrown its last
    /// image: the image of the index, bound to the next generation when
    /// snapshots are cut.
    pub fn do_maintain(&self, log_size: u64) -> (r: Option<Upkeep>)
        requires
            self.wf(),
            self.snapshot_enabled() ==> self.current_generation() < u64::MAX,
        ensures
            r is None <==> self.compact_threshold() == 0 || log_size - self.image_len()
                <= self.compact_threshold(),
            r matches Some(u) ==> {
                let generation = if self.snapshot_enabled() {
                    Some((self.current_generation() + 1) as u64)
                } else {
                    None
                };
                &&& u.full.wf()
                &&& u.full.tables() == self.tables()
                &&& u.full.labels() == self.tables().referrers.map_values(
                    |d: Seq<u8>| label_of(d),
                )
                &&& u.full.log_offset == u.image@.len()
                &&& u.snapshot == self.snapshot_enabled()
                &&& u.full.generation == (match generation {
                    Some(g) => g,
                    None => self.current_generation(),
                })
                &&& u.image@ == image_head(generation, self.key()) + op_frames(
                    image_of(u.full),
                    self.key(),
                )
                &&& image_whole(generation, image_of(u.full), self.key())
            },
    {
        let grown: u64 = if log_size > self.image_len {
            log_size - self.image_len
        } else {
            0
        };
        if self.compact_threshold == 0 || grown <= self.compact_threshold {
            return None;
        }
        let full = self.state.materialize(self.base.as_ref());
        proof {
            query::overlay_on_nothing(full.delta());
        }
        let (generation, number): (Option<u64>, u64) = if self.snapshot_enabled {
            (Some(self.generation + 1), self.generation + 1)
        } else {
            (None, self.generation)
        };
        let mut snap = full.state_to_snapshot(number, 0);
        let image = log_image(&snap, generation, self.key.as_ref());
        let ghost ops = image_of(snap);
        snap.log_offset = image.len() as u64;
        assert(image_of(snap) == ops);
        Some(Upkeep { image, full: snap, snapshot: self.snapshot_enabled })
    }

    /// Notes that the log was replaced. Every record so far is in the image, so
    /// all are durable; a snapshot that was cut is the new base, with nothing
    /// over it.
    pub fn install_log(&mut self, upkeep: Upkeep)
        requires
            old(self).wf(),
            upkeep.full.wf(),
            upkeep.full.tables() == old(self).tables(),
        ensures
            final(self).wf(),
            final(self).tables() == old(self).tables(),
            final(self).appended() == old(self).appended(),
            final(self).synced() == old(self).appended(),
            final(self).image_len() == upkeep.image@.len(),
            final(self).same_setup(old(self)),
            upkeep.snapshot ==> final(self).base() == Some(upkeep.full) && final(self).delta()
                == no_delta() && final(self).current_generation() == upkeep.full.generation,
            !upkeep.snapshot ==> final(self).base() == old(self).base() && final(self).delta()
                == old(self).delta() && final(self).current_generation() == old(
                self,
            ).current_generation(),
    {
        self.synced = self.appended;
        self.image_len = upkeep.image.len() as u64;
        if upkeep.snapshot {
            self.generation = upkeep.full.generation;
            self.state = State::new();
            proof {
                overlay_of_nothing(upkeep.full.tables());
            }
            self.base = Some(upkeep.full);
        }
    }
}

impl MetadataStore for LogMetadataStore {
    closed spec fn wf(&self) -> bool {
        &&& self.state.wf()
        &&& self.base matches Some(s) ==> s.wf()
    }

    open spec fn tables(&self) -> Tables {
        overlay(self.base_held(), self.delta())
    }

    open spec fn after(&self, op: Op) -> Tables {
        overlay(self.base_held(), apply_delta(self.delta(), op))
    }

    proof fn mutation_shows(&self, op: Op) {
        delta_follows_the_merged_index(self.base_held(), self.delta(), op);
    }

    fn resolve_tag(&self, repo: &str, tag: &str) -> (r: Option<(String, String)>) {
        query::resolve_tag(&self.state, self.base.as_ref(), repo, tag)
    }

    fn manifest_media_type(&self, repo: &str, digest: &str) -> (r: Option<String>) {
        query::manifest_media_type(&self.state, self.base.as_ref(), repo, digest)
    }

    fn tags_page(&self, repo: &str, last: Option<&str>, limit: usize) -> (r: Option<Page<String>>) {
        query::tags_page(&self.state, self.base.as_ref(), repo, last, limit)
    }

    fn referrers_page(
        &self,
        repo: &str,
        subject: &str,
        artifact_type: Option<&str>,
        last: Option<&str>,
        limit: usize,
    ) -> (r: Option<Page<Referrer>>) {
        query::referrers_page(
            &self.state,
            self.base.as_ref(),
            repo,
            subject,
            artifact_type,
            last,
            limit,
        )
    }

    fn has_referrer(&self, repo: &str, subject: &str, referrer: &str) -> (r: bool) {
        query::has_referrer(&self.state, self.base.as_ref(), repo, subject, referrer)
    }

    fn backrefs(&self, repo: &str, blob: &str) -> (r: Vec<String>) {
        query::backrefs(&self.state, self.base.as_ref(), repo, blob)
    }

    fn checksum(&self, repo: &str, digest: &str) -> (r: Option<BlobChecksum>) {
        query::checksum(&self.state, self.base.as_ref(), repo, digest)
    }

    fn apply(&mut self, op: MetaOp)
        ensures
            final(self).appended() == (if old(self).appended() == u64::MAX {
                0
            } else {
                (old(self).appended() + 1) as u64
            }),
            final(self).synced() == old(self).synced(),
            final(self).delta() == apply_delta(old(self).delta(), op.model()),
            final(self).base() == old(self).base(),
            final(self).image_len() == old(self).image_len(),
            final(self).current_generation() == old(self).current_generation(),
            final(self).same_setup(old(self)),
    {
        self.appended = self.appended.wrapping_add(1);
        self.state.apply_in_ram(&op);
    }

    fn repos(&self) -> (r: Vec<String>) {
        query::repos(&self.state, self.base.as_ref())
    }

    fn manifests(&self, repo: &str) -> (r: Vec<String>) {
        query::manifests(&self.state, self.base.as_ref(), repo)
    }

    fn tags_snapshot(&self, repo: &str) -> (r: Vec<(String, String, String)>) {
        query::tags_snapshot(&self.state, self.base.as_ref(), repo)
    }

    fn referrers_snapshot(&self, repo: &str) -> (r: Vec<(String, Vec<Referrer>)>) {
        query::referrers_snapshot(&self.state, self.base.as_ref(), repo)
    }
}

} // verus!
