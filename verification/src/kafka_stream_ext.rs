//! Offset-commit discipline: after a record has been durably applied, its
//! offset is offered to the upstream log system as "safe to resume from"
//! for the record's (topic, partition) pair.
//!
//! The commit call is best-effort. Under the fail-soft policy a failed
//! commit is swallowed — the applied record is already durable in the
//! store, so the only consequence is a possible reprocessing after a
//! restart, which the store's overwrite semantics makes safe. Under the
//! fail-loud policy a failed commit becomes a terminal error.

use vstd::prelude::*;

use crate::error::KafkaRocksDBError;
use crate::settings::str_eq;

verus! {

/// What a failed offset commit does to the pipeline.
#[derive(Clone, Copy, PartialEq, Eq, Structural, Debug)]
pub enum CommitPolicy {
    /// Log and ignore the failure; keep processing.
    FailSoft,
    /// Turn the failure into a terminal error.
    FailLoud,
}

/// The highest offset acknowledged as committed for one
/// (topic, partition) pair.
pub struct CommitCursor {
    pub topic: String,
    pub partition: u32,
    pub offset: u64,
}

/// The cursor map a sequence of cursors denotes.
pub open spec fn cursors_map(s: Seq<CommitCursor>) -> Map<(Seq<char>, u32), u64>
    decreases s.len(),
{
    if s.len() == 0 {
        Map::empty()
    } else {
        cursors_map(s.drop_last()).insert((s.last().topic@, s.last().partition), s.last().offset)
    }
}

/// No two cursors share a (topic, partition) pair.
pub open spec fn cursor_keys_unique(s: Seq<CommitCursor>) -> bool {
    forall|i: int, j: int|
        0 <= i < j < s.len() ==> (s[i].topic@, s[i].partition) != (s[j].topic@, s[j].partition)
}

/// What a delivered commit does to the cursor map: the cursor for the
/// pair moves up to the offset, never down.
pub open spec fn advance(
    m: Map<(Seq<char>, u32), u64>,
    topic: Seq<char>,
    partition: u32,
    offset: u64,
) -> Map<(Seq<char>, u32), u64> {
    if m.dom().contains((topic, partition)) && m[(topic, partition)] >= offset {
        m
    } else {
        m.insert((topic, partition), offset)
    }
}

/// A cursor never moves backwards.
pub proof fn lemma_advance_monotonic(
    m: Map<(Seq<char>, u32), u64>,
    topic: Seq<char>,
    partition: u32,
    offset: u64,
)
    ensures
        m.dom().contains((topic, partition)) ==> advance(m, topic, partition, offset)[(
            topic,
            partition,
        )] >= m[(topic, partition)],
        advance(m, topic, partition, offset)[(topic, partition)] >= offset,
        advance(m, topic, partition, offset).dom().contains((topic, partition)),
{
}

proof fn lemma_cursors_map_absent(s: Seq<CommitCursor>, k: (Seq<char>, u32))
    requires
        forall|i: int| 0 <= i < s.len() ==> (s[i].topic@, s[i].partition) != k,
    ensures
        !cursors_map(s).dom().contains(k),
    decreases s.len(),
{
    if s.len() > 0 {
        lemma_cursors_map_absent(s.drop_last(), k);
    }
}

proof fn lemma_cursors_map_index(s: Seq<CommitCursor>, i: int)
    requires
        cursor_keys_unique(s),
        0 <= i < s.len(),
    ensures
        cursors_map(s).dom().contains((s[i].topic@, s[i].partition)),
        cursors_map(s)[(s[i].topic@, s[i].partition)] == s[i].offset,
    decreases s.len(),
{
    if i < s.len() - 1 {
        lemma_cursors_map_index(s.drop_last(), i);
    }
}

proof fn lemma_cursors_map_update(s: Seq<CommitCursor>, i: int, c: CommitCursor)
    requires
        cursor_keys_unique(s),
        0 <= i < s.len(),
        c.topic@ == s[i].topic@,
        c.partition == s[i].partition,
    ensures
        cursors_map(s.update(i, c)) == cursors_map(s).insert((c.topic@, c.partition), c.offset),
    decreases s.len(),
{
    if i == s.len() - 1 {
        assert(s.update(i, c).drop_last() =~= s.drop_last());
        assert(cursors_map(s.update(i, c)) =~= cursors_map(s).insert(
            (c.topic@, c.partition),
            c.offset,
        ));
    } else {
        assert(s.update(i, c).drop_last() =~= s.drop_last().update(i, c));
        lemma_cursors_map_update(s.drop_last(), i, c);
        assert((s.last().topic@, s.last().partition) != (c.topic@, c.partition));
        assert(cursors_map(s.update(i, c)) =~= cursors_map(s).insert(
            (c.topic@, c.partition),
            c.offset,
        ));
    }
}

/// Tracks, per (topic, partition), the highest offset whose record has
/// been durably applied and acknowledged to the upstream log system.
pub struct ProgressTracker {
    policy: CommitPolicy,
    cursors: Vec<CommitCursor>,
}

impl View for ProgressTracker {
    type V = Map<(Seq<char>, u32), u64>;

    closed spec fn view(&self) -> Map<(Seq<char>, u32), u64> {
        cursors_map(self.cursors@)
    }
}

impl ProgressTracker {
    /// Cursor pairs are distinct.
    pub closed spec fn wf(&self) -> bool {
        cursor_keys_unique(self.cursors@)
    }

    /// The tracker's escalation policy.
    pub closed spec fn spec_policy(&self) -> CommitPolicy {
        self.policy
    }

    /// A fresh tracker with no cursor yet.
    pub fn new(policy: CommitPolicy) -> (r: ProgressTracker)
        ensures
            r.wf(),
            r@ == Map::<(Seq<char>, u32), u64>::empty(),
            r.spec_policy() == policy,
    {
        ProgressTracker { policy, cursors: Vec::new() }
    }

    /// The policy this tracker was built with.
    pub fn policy(&self) -> (r: CommitPolicy)
        ensures
            r == self.spec_policy(),
    {
        self.policy
    }

    /// The position of the cursor for the pair, if any.
    fn find(&self, topic: &str, partition: u32) -> (r: Option<usize>)
        ensures
            match r {
                Some(i) => i < self.cursors@.len() && self.cursors@[i as int].topic@ == topic@
                    && self.cursors@[i as int].partition == partition,
                None => forall|j: int|
                    0 <= j < self.cursors@.len() ==> (
                    #[trigger] self.cursors@[j].topic@,
                    self.cursors@[j].partition,
                    ) != (topic@, partition),
            },
    {
        let n = self.cursors.len();
        let mut i: usize = 0;
        while i < n
            invariant
                i <= n,
                n == self.cursors@.len(),
                forall|j: int|
                    0 <= j < i ==> (#[trigger] self.cursors@[j].topic@, self.cursors@[j].partition)
                        != (topic@, partition),
            decreases n - i,
        {
            if self.cursors[i].partition == partition && str_eq(
                self.cursors[i].topic.as_str(),
                topic,
            ) {
                return Some(i);
            }
            i = i + 1;
        }
        None
    }

    /// The committed offset for the pair, if any was acknowledged.
    pub fn committed(&self, topic: &str, partition: u32) -> (r: Option<u64>)
        requires
            self.wf(),
        ensures
            match r {
                Some(o) => self@.dom().contains((topic@, partition)) && o == self@[(
                    topic@,
                    partition,
                )],
                None => !self@.dom().contains((topic@, partition)),
            },
    {
        match self.find(topic, partition) {
            Some(i) => {
                proof {
                    lemma_cursors_map_index(self.cursors@, i as int);
                }
                Some(self.cursors[i].offset)
            },
            None => {
                proof {
                    lemma_cursors_map_absent(self.cursors@, (topic@, partition));
                }
                None
            },
        }
    }

    /// Takes the outcome of one offset-commit call. A delivered commit
    /// advances the pair's cursor. A failed commit leaves the cursors
    /// unchanged; under fail-soft it is swallowed and processing goes on,
    /// under fail-loud it is a terminal error.
    pub fn record_commit(
        &mut self,
        topic: &str,
        partition: u32,
        offset: u64,
        delivered: bool,
    ) -> (r: Result<(), KafkaRocksDBError>)
        requires
            old(self).wf(),
        ensures
            final(self).wf(),
            final(self).spec_policy() == old(self).spec_policy(),
            delivered ==> r is Ok && final(self)@ == advance(old(self)@, topic@, partition, offset),
            !delivered ==> final(self)@ == old(self)@,
            !delivered && old(self).spec_policy() == CommitPolicy::FailSoft ==> r is Ok,
            !delivered && old(self).spec_policy() == CommitPolicy::FailLoud ==> r == Err::<
                (),
                KafkaRocksDBError,
            >(KafkaRocksDBError::KafkaError),
    {
        if !delivered {
            return match self.policy {
                CommitPolicy::FailSoft => Ok(()),
                CommitPolicy::FailLoud => Err(KafkaRocksDBError::KafkaError),
            };
        }
        match self.find(topic, partition) {
            Some(i) => {
                proof {
                    lemma_cursors_map_index(self.cursors@, i as int);
                }
                if self.cursors[i].offset < offset {
                    let ghost before = self.cursors@;
                    let t = self.cursors[i].topic.clone();
                    self.cursors[i] = CommitCursor { topic: t, partition, offset };
                    proof {
                        assert(cursor_keys_unique(self.cursors@));
                        lemma_cursors_map_update(before, i as int, self.cursors@[i as int]);
                    }
                }
                Ok(())
            },
            None => {
                proof {
                    lemma_cursors_map_absent(self.cursors@, (topic@, partition));
                }
                let ghost before = self.cursors@;
                self.cursors.push(CommitCursor { topic: topic.to_owned(), partition, offset });
                proof {
                    assert(self.cursors@.drop_last() =~= before);
                    assert(cursor_keys_unique(self.cursors@));
                }
                Ok(())
            },
        }
    }
}

} // verus!
