//! Commit requests, commit policies, and the two sides of commit state:
//! the member's pending (not yet acknowledged) requests and the broker's
//! durable positions.
//!
//! One outstanding commit per `(topic, partition)` is sufficient: a newer
//! offset supersedes an older pending one. A failed commit never advances
//! the durable position, which is what makes delivery at-least-once.

use crate::group::GroupOwnership;
use crate::partition_map::PartitionTable;
use vstd::prelude::*;

verus! {

/// How a commit request is issued: fire-and-forget, or waited for.
#[derive(Clone, Copy, Debug, PartialEq, Eq, Structural)]
pub enum CommitMode {
    Async,
    Sync,
}

/// When processed offsets are acknowledged to the broker: explicitly after
/// each record, or by the broker client's own periodic timer.
#[derive(Clone, Copy, Debug, PartialEq, Eq, Structural)]
pub enum CommitPolicy {
    ManualAsync,
    AutomaticPeriodic,
}

/// A request to durably record that `offset` of `(topic, partition)` has
/// been processed.
pub struct CommitRequest {
    pub topic: String,
    pub partition: u32,
    pub offset: u64,
    pub mode: CommitMode,
}

/// The offsets a member has asked the broker to commit and not yet seen
/// acknowledged, at most one per partition.
pub struct PendingCommits {
    pub table: PartitionTable,
}

impl PendingCommits {
    pub open spec fn wf(self) -> bool {
        self.table.wf()
    }

    /// The offset pending for `(topic, partition)`, if any.
    pub open spec fn pending(self, topic: Seq<char>, partition: u32) -> Option<u64> {
        self.table.lookup(topic, partition)
    }

    /// No commit outstanding anywhere.
    pub fn new() -> (pending: PendingCommits)
        ensures
            pending.wf(),
            forall|t: Seq<char>, p: u32| pending.pending(t, p) is None,
    {
        PendingCommits { table: PartitionTable::new() }
    }

    /// Stages `offset` as the outstanding commit for `(topic, partition)`:
    /// the newer offset supersedes whatever was pending for that partition,
    /// and no other partition is touched.
    pub fn stage(&mut self, topic: &String, partition: u32, offset: u64)
        requires
            old(self).wf(),
        ensures
            final(self).wf(),
            final(self).pending(topic@, partition) == Some(offset),
            forall|t: Seq<char>, p: u32|
                !(t == topic@ && p == partition) ==> final(self).pending(t, p) == old(
                    self,
                ).pending(t, p),
    {
        self.table.put(topic, partition, Some(offset));
    }

    /// Clears the outstanding commit for `(topic, partition)` once the
    /// broker has acknowledged it.
    pub fn acknowledged(&mut self, topic: &String, partition: u32)
        requires
            old(self).wf(),
        ensures
            final(self).wf(),
            final(self).pending(topic@, partition) is None,
            forall|t: Seq<char>, p: u32|
                !(t == topic@ && p == partition) ==> final(self).pending(t, p) == old(
                    self,
                ).pending(t, p),
    {
        self.table.put(topic, partition, None);
    }

    /// Reads the pending offset for `(topic, partition)`.
    pub fn pending_for(&self, topic: &String, partition: u32) -> (offset: Option<u64>)
        ensures
            offset == self.pending(topic@, partition),
    {
        self.table.get(topic, partition)
    }

    /// The best-effort final commits issued while draining: one synchronous
    /// request for every partition with an outstanding offset, and nothing
    /// else.
    pub fn drain_requests(&self) -> (requests: Vec<CommitRequest>)
        requires
            self.wf(),
        ensures
            forall|k: int|
                0 <= k < requests@.len() ==> (#[trigger] requests@[k]).mode == CommitMode::Sync
                    && self.pending(requests@[k].topic@, requests@[k].partition) == Some(
                    requests@[k].offset,
                ),
            forall|t: Seq<char>, p: u32|
                #[trigger] self.pending(t, p) is Some ==> exists|k: int|
                    0 <= k < requests@.len() && (#[trigger] requests@[k]).topic@ == t
                        && requests@[k].partition == p && Some(requests@[k].offset)
                        == self.pending(t, p),
    {
        let rows = &self.table.rows;
        let n = rows.len();
        let mut requests: Vec<CommitRequest> = Vec::new();
        let mut i: usize = 0;
        while i < n
            invariant
                self.wf(),
                n == rows@.len(),
                rows@ == self.table.rows@,
                0 <= i <= n,
                forall|k: int|
                    0 <= k < requests@.len() ==> (#[trigger] requests@[k]).mode
                        == CommitMode::Sync && self.pending(
                        requests@[k].topic@,
                        requests@[k].partition,
                    ) == Some(requests@[k].offset),
                forall|j: int|
                    0 <= j < i && (#[trigger] rows@[j]).value is Some ==> exists|k: int|
                        0 <= k < requests@.len() && (#[trigger] requests@[k]).topic@
                            == rows@[j].topic@ && requests@[k].partition == rows@[j].partition
                            && Some(requests@[k].offset) == rows@[j].value,
            decreases n - i,
        {
            let ghost reqs0 = requests@;
            let row = &rows[i];
            match row.value {
                Some(offset) => {
                    proof {
                        crate::partition_map::lemma_lookup_at_index(self.table.rows@, i as int);
                    }
                    requests.push(
                        CommitRequest {
                            topic: row.topic.clone(),
                            partition: row.partition,
                            offset,
                            mode: CommitMode::Sync,
                        },
                    );
                },
                None => {},
            }
            proof {
                assert forall|j: int|
                    0 <= j < i + 1 && (#[trigger] rows@[j]).value is Some implies exists|k: int|
                    0 <= k < requests@.len() && (#[trigger] requests@[k]).topic@ == rows@[j].topic@
                        && requests@[k].partition == rows@[j].partition && Some(
                        requests@[k].offset,
                    ) == rows@[j].value by {
                    if j < i {
                        let k0 = choose|k: int|
                            0 <= k < reqs0.len() && (#[trigger] reqs0[k]).topic@ == rows@[j].topic@
                                && reqs0[k].partition == rows@[j].partition && Some(
                                reqs0[k].offset,
                            ) == rows@[j].value;
                        assert(requests@[k0] == reqs0[k0]);
                    } else {
                        assert(requests@[requests@.len() - 1].topic@ == rows@[j].topic@);
                    }
                }
            }
            i = i + 1;
        }
        proof {
            assert forall|t: Seq<char>, p: u32| #[trigger] self.pending(t, p) is Some implies exists|k: int|
                0 <= k < requests@.len() && (#[trigger] requests@[k]).topic@ == t
                    && requests@[k].partition == p && Some(requests@[k].offset) == self.pending(
                t,
                p,
            ) by {
                crate::partition_map::lemma_lookup_some_row(self.table.rows@, t, p);
                let j = choose|j: int|
                    0 <= j < self.table.rows@.len()
                        && #[trigger] crate::partition_map::row_has_key(self.table.rows@[j], t, p)
                        && self.table.rows@[j].value == self.pending(t, p);
                assert(self.table.rows@[j].value is Some);
            }
        }
        requests
    }
}

/// Why a commit request was refused rather than sent.
#[derive(Clone, Copy, Debug, PartialEq, Eq, Structural)]
pub enum CommitRefused {
    RevokedPartition,
}

/// A member must not commit from a partition it no longer owns: a commit
/// request is passed through exactly when the ownership registry still
/// shows the member as the partition's owner, and a commit after revocation
/// is refused as a recoverable error, never sent.
pub fn guard_commit(
    registry: &GroupOwnership,
    member: u64,
    request: CommitRequest,
) -> (outcome: Result<CommitRequest, CommitRefused>)
    ensures
        (outcome is Ok) <==> registry.owner(request.topic@, request.partition) == Some(member),
        outcome matches Ok(passed) ==> passed == request,
        outcome matches Err(refusal) ==> refusal == CommitRefused::RevokedPartition,
{
    if registry.member_owns(member, &request.topic, request.partition) {
        Result::Ok(request)
    } else {
        Result::Err(CommitRefused::RevokedPartition)
    }
}

/// The broker's durable commit positions for one group: for each partition,
/// the offset from which a (re)started member resumes. Only an acknowledged
/// commit moves a position.
pub struct DurableOffsets {
    pub table: PartitionTable,
}

impl DurableOffsets {
    pub open spec fn wf(self) -> bool {
        self.table.wf()
    }

    /// The recorded position for `(topic, partition)`, if any commit ever
    /// succeeded there.
    pub open spec fn position(self, topic: Seq<char>, partition: u32) -> Option<u64> {
        self.table.lookup(topic, partition)
    }

    /// Where a restarted member resumes: the recorded position, or the start
    /// of the partition when nothing was ever committed.
    pub open spec fn resume(self, topic: Seq<char>, partition: u32) -> u64 {
        match self.position(topic, partition) {
            Some(next) => next,
            None => 0,
        }
    }

    /// A broker with nothing committed: every partition resumes from its
    /// start.
    pub fn new() -> (durable: DurableOffsets)
        ensures
            durable.wf(),
            forall|t: Seq<char>, p: u32| durable.position(t, p) is None,
    {
        DurableOffsets { table: PartitionTable::new() }
    }

    /// Applies the outcome of a commit of `offset`. An acknowledged commit
    /// moves the partition's resume position just past the committed record;
    /// a failed commit changes nothing at all, so the uncommitted record
    /// will be delivered again after a restart.
    pub fn record_commit(&mut self, topic: &String, partition: u32, offset: u64, acked: bool)
        requires
            old(self).wf(),
            offset < u64::MAX,
        ensures
            final(self).wf(),
            acked ==> final(self).position(topic@, partition) == Some((offset + 1) as u64),
            acked ==> forall|t: Seq<char>, p: u32|
                !(t == topic@ && p == partition) ==> final(self).position(t, p) == old(
                    self,
                ).position(t, p),
            !acked ==> *final(self) == *old(self),
    {
        if acked {
            self.table.put(topic, partition, Some(offset + 1));
        }
    }

    /// Reads the resume position for `(topic, partition)`.
    pub fn resume_position(&self, topic: &String, partition: u32) -> (next: u64)
        ensures
            next == self.resume(topic@, partition),
    {
        match self.table.get(topic, partition) {
            Some(next) => next,
            None => 0,
        }
    }
}

} // verus!
