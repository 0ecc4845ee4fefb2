//! The ingestion pipeline: one record at a time, apply to the store, then
//! offer the offset for commit; drain cooperatively on termination.
//!
//! The surrounding process consumes records, performs the durable write
//! and the commit call, and hands their outcomes back. The functions here
//! decide everything else: a record without a key is a protocol violation
//! and is skipped; a record whose topic was never declared is a
//! configuration defect and fatal; a medium failure is fatal and the
//! record's offset is never offered for commit; only a durably applied
//! record's offset is offered.

use vstd::prelude::*;

use crate::database::{apply_value, Database, StoreView};
use crate::error::KafkaRocksDBError;
use crate::kafka_stream_ext::{advance, CommitPolicy, ProgressTracker};
use crate::record::{Record, RecordView};
use crate::settings::Settings;
use crate::stream_signal_ext::{GateState, TerminationGate};

verus! {

/// The storage medium's answer to the durable write of one record.
#[derive(Clone, Copy, PartialEq, Eq, Structural, Debug)]
pub enum StorageAck {
    /// The change is durable on the local medium.
    Durable,
    /// The medium failed; its state may be inconsistent.
    MediumFailure,
}

/// An offset the upstream log system should be told is safe to resume
/// from.
pub struct OffsetCommit {
    pub topic: String,
    pub partition: u32,
    pub offset: u64,
}

/// What one record's processing asks of the surrounding process.
pub enum Step {
    /// The record had no key: logged and skipped, nothing applied,
    /// nothing committed, processing continues.
    Skipped,
    /// The record was durably applied; its offset may now be offered for
    /// commit.
    Commit(OffsetCommit),
    /// Processing must stop with this error.
    Fatal(KafkaRocksDBError),
}

/// What one record means for the store: nothing without a key or for an
/// undeclared topic; otherwise the write lands in the topic's namespace.
pub open spec fn step_store(store: StoreView, r: RecordView) -> StoreView {
    match r.key {
        Option::None => store,
        Option::Some(k) => if store.dom().contains(r.topic) {
            store.insert(r.topic, apply_value(store[r.topic], k, r.value))
        } else {
            store
        },
    }
}

/// The store after a sequence of records, each durably applied in
/// delivery order.
pub open spec fn run_store(store: StoreView, rs: Seq<RecordView>) -> StoreView
    decreases rs.len(),
{
    if rs.len() == 0 {
        store
    } else {
        step_store(run_store(store, rs.drop_last()), rs.last())
    }
}

/// A record never creates or deletes a namespace.
pub proof fn lemma_step_store_dom(store: StoreView, r: RecordView)
    ensures
        step_store(store, r).dom() == store.dom(),
{
    match r.key {
        Option::None => {
        },
        Option::Some(k) => {
            if store.dom().contains(r.topic) {
                assert(step_store(store, r).dom() =~= store.dom());
            }
        },
    }
}

/// A run of records never creates or deletes a namespace.
pub proof fn lemma_run_store_dom(store: StoreView, rs: Seq<RecordView>)
    ensures
        run_store(store, rs).dom() == store.dom(),
    decreases rs.len(),
{
    if rs.len() > 0 {
        lemma_run_store_dom(store, rs.drop_last());
        lemma_step_store_dom(run_store(store, rs.drop_last()), rs.last());
    }
}

/// Namespaces are isolated: a record only ever touches its own topic's
/// namespace.
pub proof fn lemma_namespace_isolation(store: StoreView, r: RecordView, t: Seq<char>)
    requires
        t != r.topic,
    ensures
        step_store(store, r).dom().contains(t) == store.dom().contains(t),
        store.dom().contains(t) ==> step_store(store, r)[t] == store[t],
{
}

/// Replaying a record that was already applied changes nothing: the
/// apply is an overwrite keyed by (namespace, key), so at-least-once
/// redelivery is safe.
pub proof fn lemma_replay_idempotent(store: StoreView, r: RecordView)
    ensures
        step_store(step_store(store, r), r) == step_store(store, r),
{
    match r.key {
        Option::None => {
        },
        Option::Some(k) => {
            if store.dom().contains(r.topic) {
                let once = step_store(store, r);
                assert(once.dom().contains(r.topic));
                assert(apply_value(once[r.topic], k, r.value) =~= apply_value(
                    store[r.topic],
                    k,
                    r.value,
                ));
                assert(step_store(once, r) =~= once);
            }
        },
    }
}

/// Last value wins: after a sequence of keyed records of one declared
/// topic with distinct keys, the topic's namespace holds, for the key of
/// each record, exactly that record's value — and no entry at all where
/// the record's value was absent.
pub proof fn lemma_last_value_wins(store: StoreView, rs: Seq<RecordView>, t: Seq<char>, i: int)
    requires
        store.dom().contains(t),
        forall|j: int| 0 <= j < rs.len() ==> (#[trigger] rs[j].topic) == t,
        forall|j: int| 0 <= j < rs.len() ==> (#[trigger] rs[j].key) is Some,
        forall|x: int, y: int| 0 <= x < y < rs.len() ==> rs[x].key != rs[y].key,
        0 <= i < rs.len(),
    ensures
        run_store(store, rs).dom().contains(t),
        rs[i].key matches Some(k) ==> (rs[i].value matches Some(v) ==> run_store(store, rs)[t].dom()
            .contains(k) && run_store(store, rs)[t][k] == v),
        rs[i].key matches Some(k) ==> (rs[i].value is None ==> !run_store(store, rs)[t].dom()
            .contains(k)),
    decreases rs.len(),
{
    lemma_run_store_dom(store, rs);
    let prior = run_store(store, rs.drop_last());
    lemma_run_store_dom(store, rs.drop_last());
    if i == rs.len() - 1 {
        assert(run_store(store, rs) == step_store(prior, rs[i]));
    } else {
        lemma_last_value_wins(store, rs.drop_last(), t, i);
        assert(rs.drop_last()[i] == rs[i]);
        let last = rs.last();
        assert(rs[i].key != last.key);
        match (rs[i].key, last.key) {
            (Option::Some(k), Option::Some(kl)) => {
                assert(k != kl);
                assert(run_store(store, rs) == step_store(prior, last));
                assert(step_store(prior, last)[t] == apply_value(prior[t], kl, last.value));
            },
            _ => {
            },
        }
    }
}

/// The ingestion pipeline's state: the materialized store, the commit
/// cursors under the fail-soft policy, the termination gate, and the
/// count of records durably applied.
pub struct KafkaRocksDB {
    db: Database,
    tracker: ProgressTracker,
    gate: TerminationGate,
    messages: u64,
}

impl KafkaRocksDB {
    /// The materialized store's contents.
    pub closed spec fn store(&self) -> StoreView {
        self.db@
    }

    /// The committed cursor per (topic, partition).
    pub closed spec fn cursors(&self) -> Map<(Seq<char>, u32), u64> {
        self.tracker@
    }

    /// The termination gate's state.
    pub closed spec fn gate(&self) -> GateState {
        self.gate.state
    }

    /// How many records have been durably applied (the "processed"
    /// counter): skipped records and failed applies do not count.
    pub closed spec fn processed(&self) -> u64 {
        self.messages
    }

    /// The store and the cursors are well formed, and the main pipeline
    /// commits fail-soft: a failed commit never aborts processing.
    pub closed spec fn wf(&self) -> bool {
        &&& self.db.wf()
        &&& self.tracker.wf()
        &&& self.tracker.spec_policy() == CommitPolicy::FailSoft
    }

    /// Opens the pipeline over the configured topics: an empty namespace
    /// per distinct topic, no cursors, gate running, nothing processed.
    pub fn new(config: &Settings) -> (r: KafkaRocksDB)
        ensures
            r.wf(),
            r.store().dom() == crate::database::topics_set(config.topics@),
            forall|t: Seq<char>| #[trigger]
                r.store().dom().contains(t) ==> r.store()[t] == Map::<Seq<u8>, Seq<u8>>::empty(),
            r.cursors() == Map::<(Seq<char>, u32), u64>::empty(),
            r.gate() == GateState::Running,
            r.processed() == 0,
    {
        KafkaRocksDB {
            db: Database::new(config),
            tracker: ProgressTracker::new(CommitPolicy::FailSoft),
            gate: TerminationGate::new(),
            messages: 0,
        }
    }

    /// Takes one delivered record together with the storage medium's
    /// answer to its durable write (consulted only when the record calls
    /// for a write), applies it, and says what must happen next. A commit
    /// is requested exactly for a keyed record of a declared topic whose
    /// write became durable — never after a medium failure, and never for
    /// a skipped record — and the "processed" counter rises exactly on
    /// that apply success.
    pub fn handle_message(&mut self, msg: &Record, ack: StorageAck) -> (r: Step)
        requires
            old(self).wf(),
        ensures
            final(self).wf(),
            final(self).gate() == old(self).gate(),
            final(self).cursors() == old(self).cursors(),
            final(self).processed() == if (msg@.key is Some && old(self).store().dom().contains(
                msg@.topic,
            ) && ack == StorageAck::Durable && old(self).processed() < u64::MAX) {
                (old(self).processed() + 1) as u64
            } else {
                old(self).processed()
            },
            msg@.key is None ==> r == Step::Skipped && final(self).store() == old(self).store(),
            msg@.key is Some && !old(self).store().dom().contains(msg@.topic) ==> (
            r matches Step::Fatal(KafkaRocksDBError::ColumnFamilyNotFound(t)) && t@ == msg@.topic)
                && final(self).store() == old(self).store(),
            msg@.key is Some && old(self).store().dom().contains(msg@.topic) && ack
                == StorageAck::MediumFailure ==> r == Step::Fatal(KafkaRocksDBError::RocksDBError)
                && final(self).store() == old(self).store(),
            msg@.key is Some && old(self).store().dom().contains(msg@.topic) && ack
                == StorageAck::Durable ==> final(self).store() == step_store(
                old(self).store(),
                msg@,
            ) && (r matches Step::Commit(c) && c.topic@ == msg@.topic && c.partition
                == msg@.partition && c.offset == msg@.offset),
            (r is Commit) <==> (msg@.key is Some && old(self).store().dom().contains(msg@.topic)
                && ack == StorageAck::Durable),
            ack == StorageAck::Durable ==> final(self).store() == step_store(
                old(self).store(),
                msg@,
            ),
    {
        match &msg.key {
            None => Step::Skipped,
            Some(key) => {
                if !self.db.has_namespace(msg.topic.as_str()) {
                    Step::Fatal(KafkaRocksDBError::ColumnFamilyNotFound(msg.topic.clone()))
                } else if ack == StorageAck::MediumFailure {
                    Step::Fatal(KafkaRocksDBError::RocksDBError)
                } else {
                    let value_slice: Option<&[u8]> = match &msg.value {
                        Some(v) => Some(v.as_slice()),
                        None => None,
                    };
                    match self.db.update(msg.topic.as_str(), key.as_slice(), value_slice) {
                        Ok(_) => {
                            if self.messages < u64::MAX {
                                self.messages = self.messages + 1;
                            }
                            Step::Commit(
                                OffsetCommit {
                                    topic: msg.topic.clone(),
                                    partition: msg.partition,
                                    offset: msg.offset,
                                },
                            )
                        },
                        Err(e) => {
                            proof {
                                assert(false);
                            }
                            Step::Fatal(e)
                        },
                    }
                }
            },
        }
    }

    /// Takes the outcome of the commit call for an offset that
    /// `handle_message` asked to commit. A delivered commit advances the
    /// pair's cursor; a failed one changes nothing — and, the pipeline
    /// being fail-soft, never aborts processing.
    pub fn on_commit_result(&mut self, c: &OffsetCommit, delivered: bool) -> (r: Result<
        (),
        KafkaRocksDBError,
    >)
        requires
            old(self).wf(),
        ensures
            final(self).wf(),
            final(self).store() == old(self).store(),
            final(self).gate() == old(self).gate(),
            final(self).processed() == old(self).processed(),
            r is Ok,
            delivered ==> final(self).cursors() == advance(
                old(self).cursors(),
                c.topic@,
                c.partition,
                c.offset,
            ),
            !delivered ==> final(self).cursors() == old(self).cursors(),
    {
        match self.tracker.record_commit(c.topic.as_str(), c.partition, c.offset, delivered) {
            Ok(_) => Ok(()),
            Err(e) => {
                proof {
                    assert(false);
                }
                Err(e)
            },
        }
    }

    /// A termination signal arrived: stop requesting new records after
    /// the in-flight one. Repeated signals change nothing.
    pub fn on_termination_signal(&mut self)
        ensures
            final(self).store() == old(self).store(),
            final(self).cursors() == old(self).cursors(),
            final(self).processed() == old(self).processed(),
            final(self).wf() == old(self).wf(),
            old(self).gate() == GateState::Running ==> final(self).gate() == GateState::Draining,
            old(self).gate() != GateState::Running ==> final(self).gate() == old(self).gate(),
    {
        self.gate.on_signal();
    }

    /// The stream has been drained after a signal: draining ends in
    /// `Stopped`.
    pub fn drain_complete(&mut self)
        ensures
            final(self).store() == old(self).store(),
            final(self).cursors() == old(self).cursors(),
            final(self).processed() == old(self).processed(),
            final(self).wf() == old(self).wf(),
            old(self).gate() == GateState::Draining ==> final(self).gate() == GateState::Stopped,
            old(self).gate() != GateState::Draining ==> final(self).gate() == old(self).gate(),
    {
        self.gate.complete();
    }

    /// Whether the pipeline may request another upstream record.
    pub fn request_allowed(&self) -> (r: bool)
        ensures
            r == (self.gate() == GateState::Running),
    {
        self.gate.request_allowed()
    }

    /// The termination state, for observation.
    pub fn gate_state(&self) -> (r: GateState)
        ensures
            r == self.gate(),
    {
        self.gate.state
    }

    /// The "records processed" counter.
    pub fn messages_processed(&self) -> (r: u64)
        ensures
            r == self.processed(),
    {
        self.messages
    }

    /// The value materialized for `key` in `topic`'s namespace, if any.
    pub fn get(&self, topic: &str, key: &[u8]) -> (r: Option<&Vec<u8>>)
        requires
            self.wf(),
        ensures
            match r {
                Some(v) => self.store().dom().contains(topic@) && self.store()[topic@].dom()
                    .contains(key@) && v@ == self.store()[topic@][key@],
                None => !self.store().dom().contains(topic@) || !self.store()[topic@].dom()
                    .contains(key@),
            },
    {
        self.db.get(topic, key)
    }

    /// The committed offset for a (topic, partition) pair, if any.
    pub fn committed(&self, topic: &str, partition: u32) -> (r: Option<u64>)
        requires
            self.wf(),
        ensures
            match r {
                Some(o) => self.cursors().dom().contains((topic@, partition)) && o
                    == self.cursors()[(topic@, partition)],
                None => !self.cursors().dom().contains((topic@, partition)),
            },
    {
        self.tracker.committed(topic, partition)
    }
}

} // verus!
