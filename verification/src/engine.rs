//! The pull-process-commit engine of one worker.
//!
//! A worker's loop is driven by events: each pull either delivers a record,
//! times out, or reports a transient broker error, and a cancellation signal
//! may arrive instead. The engine decides, for every event, what the worker
//! records and which commit requests it issues; the unverified shell only
//! performs the broker I/O and feeds the outcomes back. Transient errors are
//! logged and never terminate the loop; only cancellation does.

use crate::commit::{CommitMode, CommitPolicy, CommitRequest, DurableOffsets, PendingCommits};
use crate::record::Record;
use vstd::prelude::*;

verus! {

/// What the message processor reported for one record. A failure is
/// recoverable: it is counted and logged, the loop continues, and the
/// commit still proceeds under the chosen policy.
#[derive(Clone, Copy, Debug, PartialEq, Eq, Structural)]
pub enum ProcessOutcome {
    Success,
    Failure,
}

/// The lifecycle of one worker: created, subscribed, running its loop,
/// draining after cancellation, failed at setup, or terminated.
#[derive(Clone, Copy, Debug, PartialEq, Eq, Structural)]
pub enum WorkerState {
    Created,
    Subscribed,
    Running,
    Draining,
    Failed,
    Terminated,
}

/// One observation handed to the running loop: a record together with its
/// processing outcome and whether the commit issued for it was eventually
/// acknowledged; a poll timeout; a transient broker error; or the
/// cancellation signal.
pub enum PollEvent {
    Delivery { record: Record, outcome: ProcessOutcome, acked: bool },
    Timeout,
    TransientError,
    Cancel,
}

/// The state of one worker's consumption loop, together with its full
/// observable history: the records delivered in order, the commit requests
/// issued in order, the commits still unacknowledged, the broker's durable
/// positions, and the counts of warnings and processing failures.
pub struct WorkerLoop {
    pub policy: CommitPolicy,
    pub state: WorkerState,
    pub delivered: Vec<Record>,
    pub commits: Vec<CommitRequest>,
    pub pending: PendingCommits,
    pub durable: DurableOffsets,
    pub warnings: u64,
    pub failures: u64,
    pub polls: u64,
}

impl WorkerLoop {
    pub open spec fn wf(self) -> bool {
        self.pending.wf() && self.durable.wf()
    }

    /// A fresh worker against a broker with nothing committed.
    pub fn new(policy: CommitPolicy) -> (worker: WorkerLoop)
        ensures
            worker.wf(),
            worker.policy == policy,
            worker.state is Created,
            worker.delivered@.len() == 0,
            worker.commits@.len() == 0,
            forall|t: Seq<char>, p: u32| worker.pending.pending(t, p) is None,
            forall|t: Seq<char>, p: u32| worker.durable.position(t, p) is None,
            worker.warnings == 0,
            worker.failures == 0,
            worker.polls == 0,
    {
        WorkerLoop {
            policy,
            state: WorkerState::Created,
            delivered: Vec::new(),
            commits: Vec::new(),
            pending: PendingCommits::new(),
            durable: DurableOffsets::new(),
            warnings: 0,
            failures: 0,
            polls: 0,
        }
    }

    /// A fresh worker resuming against a broker that already holds durable
    /// positions, as after a restart of the group.
    pub fn resume_with(policy: CommitPolicy, durable: DurableOffsets) -> (worker: WorkerLoop)
        requires
            durable.wf(),
        ensures
            worker.wf(),
            worker.policy == policy,
            worker.state is Created,
            worker.delivered@.len() == 0,
            worker.commits@.len() == 0,
            forall|t: Seq<char>, p: u32| worker.pending.pending(t, p) is None,
            worker.durable == durable,
            worker.warnings == 0,
            worker.failures == 0,
            worker.polls == 0,
    {
        WorkerLoop {
            policy,
            state: WorkerState::Created,
            delivered: Vec::new(),
            commits: Vec::new(),
            pending: PendingCommits::new(),
            durable,
            warnings: 0,
            failures: 0,
            polls: 0,
        }
    }

    /// Applies the outcome of subscribing to the topic set. A subscription
    /// failure is fatal for this worker: it moves to `Failed` and its error
    /// is the one reported to the pool.
    pub fn subscribe_outcome(&mut self, subscribed: bool)
        requires
            old(self).state is Created,
        ensures
            final(self).state == (if subscribed {
                WorkerState::Subscribed
            } else {
                WorkerState::Failed
            }),
            final(self).policy == old(self).policy,
            final(self).delivered == old(self).delivered,
            final(self).commits == old(self).commits,
            final(self).pending == old(self).pending,
            final(self).durable == old(self).durable,
            final(self).warnings == old(self).warnings,
            final(self).failures == old(self).failures,
            final(self).polls == old(self).polls,
    {
        if subscribed {
            self.state = WorkerState::Subscribed;
        } else {
            self.state = WorkerState::Failed;
        }
    }

    /// Starts the consumption loop of a subscribed worker.
    pub fn start(&mut self)
        requires
            old(self).state is Subscribed,
        ensures
            final(self).state is Running,
            final(self).policy == old(self).policy,
            final(self).delivered == old(self).delivered,
            final(self).commits == old(self).commits,
            final(self).pending == old(self).pending,
            final(self).durable == old(self).durable,
            final(self).warnings == old(self).warnings,
            final(self).failures == old(self).failures,
            final(self).polls == old(self).polls,
    {
        self.state = WorkerState::Running;
    }

    /// Handles one event of the running loop and says whether the loop goes
    /// on. A timeout changes nothing; a transient error is only counted and
    /// never stops the loop; cancellation moves the worker to draining. A
    /// delivered record is appended to the history, its processing failure
    /// (if any) is counted, and under the manual policy an asynchronous
    /// commit request for its offset is issued, superseding the partition's
    /// pending commit; an acknowledged commit advances the broker's durable
    /// position just past the record, a failed one leaves it untouched.
    pub fn handle(&mut self, event: PollEvent) -> (more: bool)
        requires
            old(self).wf(),
            old(self).state is Running,
            old(self).polls < u64::MAX,
            old(self).warnings < u64::MAX,
            old(self).failures < u64::MAX,
            event matches PollEvent::Delivery { record, .. } ==> record.offset < u64::MAX,
        ensures
            final(self).wf(),
            final(self).policy == old(self).policy,
            final(self).polls == old(self).polls + 1,
            more == !(event is Cancel),
            final(self).state == (if event is Cancel {
                WorkerState::Draining
            } else {
                WorkerState::Running
            }),
            final(self).warnings == old(self).warnings + (if event is TransientError {
                1int
            } else {
                0int
            }),
            !(event is Delivery) ==> {
                &&& final(self).delivered == old(self).delivered
                &&& final(self).commits == old(self).commits
                &&& final(self).pending == old(self).pending
                &&& final(self).durable == old(self).durable
                &&& final(self).failures == old(self).failures
            },
            event matches PollEvent::Delivery { record, outcome, acked } ==> {
                &&& final(self).delivered@ == old(self).delivered@.push(record)
                &&& final(self).failures == old(self).failures + (if outcome is Failure {
                    1int
                } else {
                    0int
                })
                &&& (old(self).policy is ManualAsync ==> {
                    &&& final(self).commits@ == old(self).commits@.push(
                        (CommitRequest {
                            topic: record.topic,
                            partition: record.partition,
                            offset: record.offset,
                            mode: CommitMode::Async,
                        }),
                    )
                    &&& final(self).pending.pending(record.topic@, record.partition) == (if acked {
                        Option::<u64>::None
                    } else {
                        Some(record.offset)
                    })
                    &&& (forall|t: Seq<char>, p: u32|
                        !(t == record.topic@ && p == record.partition)
                            ==> final(self).pending.pending(t, p) == old(self).pending.pending(
                            t,
                            p,
                        ))
                    &&& final(self).durable.position(record.topic@, record.partition) == (if acked {
                        Some((record.offset + 1) as u64)
                    } else {
                        old(self).durable.position(record.topic@, record.partition)
                    })
                    &&& (forall|t: Seq<char>, p: u32|
                        !(t == record.topic@ && p == record.partition)
                            ==> final(self).durable.position(t, p) == old(self).durable.position(
                            t,
                            p,
                        ))
                })
                &&& (old(self).policy is AutomaticPeriodic ==> {
                    &&& final(self).commits == old(self).commits
                    &&& final(self).pending == old(self).pending
                    &&& final(self).durable == old(self).durable
                })
            },
    {
        self.polls = self.polls + 1;
        match event {
            PollEvent::Timeout => true,
            PollEvent::TransientError => {
                self.warnings = self.warnings + 1;
                true
            },
            PollEvent::Cancel => {
                self.state = WorkerState::Draining;
                false
            },
            PollEvent::Delivery { record, outcome, acked } => {
                if outcome == ProcessOutcome::Failure {
                    self.failures = self.failures + 1;
                }
                if self.policy == CommitPolicy::ManualAsync {
                    let topic = record.topic.clone();
                    self.commits.push(
                        CommitRequest {
                            topic: topic.clone(),
                            partition: record.partition,
                            offset: record.offset,
                            mode: CommitMode::Async,
                        },
                    );
                    self.pending.stage(&topic, record.partition, record.offset);
                    if acked {
                        self.pending.acknowledged(&topic, record.partition);
                        self.durable.record_commit(&topic, record.partition, record.offset, true);
                    }
                }
                self.delivered.push(record);
                true
            },
        }
    }

    /// Completes the drain of a cancelled worker: it issues one best-effort
    /// synchronous commit request per partition with an unacknowledged
    /// offset (none under the automatic policy, which never commits
    /// explicitly) and terminates.
    pub fn finish(&mut self) -> (drain: Vec<CommitRequest>)
        requires
            old(self).wf(),
            old(self).state is Draining,
        ensures
            final(self).wf(),
            final(self).state is Terminated,
            final(self).policy == old(self).policy,
            final(self).delivered == old(self).delivered,
            final(self).commits == old(self).commits,
            final(self).pending == old(self).pending,
            final(self).durable == old(self).durable,
            final(self).warnings == old(self).warnings,
            final(self).failures == old(self).failures,
            final(self).polls == old(self).polls,
            old(self).policy is AutomaticPeriodic ==> drain@.len() == 0,
            old(self).policy is ManualAsync ==> forall|k: int|
                0 <= k < drain@.len() ==> (#[trigger] drain@[k]).mode == CommitMode::Sync && old(
                    self,
                ).pending.pending(drain@[k].topic@, drain@[k].partition) == Some(drain@[k].offset),
            old(self).policy is ManualAsync ==> forall|t: Seq<char>, p: u32|
                #[trigger] old(self).pending.pending(t, p) is Some ==> exists|k: int|
                    0 <= k < drain@.len() && (#[trigger] drain@[k]).topic@ == t
                        && drain@[k].partition == p && Some(drain@[k].offset) == old(
                        self,
                    ).pending.pending(t, p),
    {
        self.state = WorkerState::Terminated;
        if self.policy == CommitPolicy::ManualAsync {
            self.pending.drain_requests()
        } else {
            Vec::new()
        }
    }
}

/// The records a run of the loop delivers for `script`, in order: every
/// delivery before the first cancellation.
pub open spec fn deliveries(script: Seq<PollEvent>) -> Seq<Record>
    decreases script.len(),
{
    if script.len() == 0 {
        Seq::<Record>::empty()
    } else {
        match script[0] {
            PollEvent::Cancel => Seq::<Record>::empty(),
            PollEvent::Delivery { record, .. } => seq![record] + deliveries(script.skip(1)),
            _ => deliveries(script.skip(1)),
        }
    }
}

/// Every record the broker put into `script`, cancellation ignored.
pub open spec fn all_records(script: Seq<PollEvent>) -> Seq<Record>
    decreases script.len(),
{
    if script.len() == 0 {
        Seq::<Record>::empty()
    } else {
        match script[0] {
            PollEvent::Delivery { record, .. } => seq![record] + all_records(script.skip(1)),
            _ => all_records(script.skip(1)),
        }
    }
}

/// How many transient broker errors the loop observes before stopping.
pub open spec fn error_count(script: Seq<PollEvent>) -> int
    decreases script.len(),
{
    if script.len() == 0 {
        0
    } else {
        match script[0] {
            PollEvent::Cancel => 0,
            PollEvent::TransientError => 1 + error_count(script.skip(1)),
            _ => error_count(script.skip(1)),
        }
    }
}

/// How many delivered records failed processing before the loop stops.
pub open spec fn failure_count(script: Seq<PollEvent>) -> int
    decreases script.len(),
{
    if script.len() == 0 {
        0
    } else {
        match script[0] {
            PollEvent::Cancel => 0,
            PollEvent::Delivery { outcome, .. } => (if outcome is Failure {
                1int
            } else {
                0int
            }) + failure_count(script.skip(1)),
            _ => failure_count(script.skip(1)),
        }
    }
}

/// How many events the loop consumes: everything up to and including the
/// first cancellation, or the whole script when none arrives.
pub open spec fn consumed(script: Seq<PollEvent>) -> int
    decreases script.len(),
{
    if script.len() == 0 {
        0
    } else if script[0] is Cancel {
        1
    } else {
        1 + consumed(script.skip(1))
    }
}

/// Whether the script carries a cancellation signal.
pub open spec fn has_cancel(script: Seq<PollEvent>) -> bool
    decreases script.len(),
{
    if script.len() == 0 {
        false
    } else {
        script[0] is Cancel || has_cancel(script.skip(1))
    }
}

/// The offset and acknowledgement flag of the last record the loop delivers
/// for `(topic, partition)`, if any.
pub open spec fn last_delivery(script: Seq<PollEvent>, topic: Seq<char>, partition: u32) -> Option<
    (u64, bool),
>
    decreases script.len(),
{
    if script.len() == 0 {
        None
    } else {
        match script[0] {
            PollEvent::Cancel => None,
            PollEvent::Delivery { record, acked, .. } => {
                let rest = last_delivery(script.skip(1), topic, partition);
                if rest is Some {
                    rest
                } else if record.topic@ == topic && record.partition == partition {
                    Some((record.offset, acked))
                } else {
                    None
                }
            },
            _ => last_delivery(script.skip(1), topic, partition),
        }
    }
}

/// What is pending for `(topic, partition)` after the loop ran `script`
/// over a partition that had `base` pending: the last delivered offset if
/// its commit is still unacknowledged, nothing if it was acknowledged, and
/// `base` if the script never touched the partition.
pub open spec fn pending_after(
    script: Seq<PollEvent>,
    base: Option<u64>,
    topic: Seq<char>,
    partition: u32,
) -> Option<u64> {
    match last_delivery(script, topic, partition) {
        Some((offset, acked)) => if acked {
            Option::<u64>::None
        } else {
            Some(offset)
        },
        None => base,
    }
}

/// Event `i` of `script` delivers `(topic, partition, offset)` and its
/// commit was acknowledged.
pub open spec fn acked_delivery_at(
    script: Seq<PollEvent>,
    i: int,
    topic: Seq<char>,
    partition: u32,
    offset: u64,
) -> bool {
    &&& 0 <= i < script.len()
    &&& script[i] matches PollEvent::Delivery { record, acked, .. } && acked && record.topic@
        == topic && record.partition == partition && record.offset == offset
}

/// Some event of `script` delivers `(topic, partition, offset)` with an
/// acknowledged commit.
pub open spec fn has_acked_delivery(
    script: Seq<PollEvent>,
    topic: Seq<char>,
    partition: u32,
    offset: u64,
) -> bool {
    exists|i: int| #[trigger] acked_delivery_at(script, i, topic, partition, offset)
}

/// Every delivery in `script` fits the offset arithmetic of a commit.
pub open spec fn offsets_in_range(script: Seq<PollEvent>) -> bool {
    forall|i: int|
        0 <= i < script.len() ==> ((#[trigger] script[i]) matches PollEvent::Delivery {
            record,
            ..
        } ==> record.offset < u64::MAX)
}

/// The asynchronous commit requests issued for `records`, one per record,
/// in delivery order.
pub open spec fn async_requests(records: Seq<Record>) -> Seq<CommitRequest> {
    records.map_values(
        |r: Record|
            (CommitRequest {
                topic: r.topic,
                partition: r.partition,
                offset: r.offset,
                mode: CommitMode::Async,
            }),
    )
}

impl WorkerLoop {
    /// Runs the loop over `script` until the script is exhausted or a
    /// cancellation arrives: exactly the deliveries before the first
    /// cancellation are appended to the history, transient errors are only
    /// counted, under the manual policy one asynchronous commit request is
    /// issued per delivered record, and the broker's durable positions move
    /// only to just past an acknowledged delivery.
    pub fn run(&mut self, script: Vec<PollEvent>)
        requires
            old(self).wf(),
            old(self).state is Running,
            old(self).polls + script@.len() <= u64::MAX,
            old(self).warnings + script@.len() <= u64::MAX,
            old(self).failures + script@.len() <= u64::MAX,
            offsets_in_range(script@),
        ensures
            final(self).wf(),
            final(self).policy == old(self).policy,
            final(self).delivered@ == old(self).delivered@ + deliveries(script@),
            final(self).state == (if has_cancel(script@) {
                WorkerState::Draining
            } else {
                WorkerState::Running
            }),
            final(self).warnings == old(self).warnings + error_count(script@),
            final(self).failures == old(self).failures + failure_count(script@),
            final(self).polls == old(self).polls + consumed(script@),
            old(self).policy is AutomaticPeriodic ==> {
                &&& final(self).commits == old(self).commits
                &&& final(self).pending == old(self).pending
                &&& final(self).durable == old(self).durable
            },
            old(self).policy is ManualAsync ==> final(self).commits@ == old(self).commits@
                + async_requests(deliveries(script@)),
            old(self).policy is ManualAsync ==> forall|t: Seq<char>, p: u32|
                (#[trigger] final(self).pending.pending(t, p)) == pending_after(
                    script@,
                    old(self).pending.pending(t, p),
                    t,
                    p,
                ),
            forall|t: Seq<char>, p: u32|
                (#[trigger] final(self).durable.position(t, p)) == old(self).durable.position(t, p)
                    || (final(self).durable.position(t, p) matches Some(next) && next >= 1
                    && has_acked_delivery(script@, t, p, (next - 1) as u64)),
    {
        let mut script = script;
        let ghost all = script@;
        let ghost mut processed: int = 0;
        let mut go: bool = true;
        proof {
            assert(all.skip(0) =~= all);
        }
        while go && script.len() > 0
            invariant
                self.wf(),
                self.policy == old(self).policy,
                0 <= processed <= all.len(),
                script@ == all.skip(processed),
                offsets_in_range(all),
                old(self).polls + all.len() <= u64::MAX,
                old(self).warnings + all.len() <= u64::MAX,
                old(self).failures + all.len() <= u64::MAX,
                self.polls <= old(self).polls + processed,
                self.warnings <= old(self).warnings + processed,
                self.failures <= old(self).failures + processed,
                go ==> self.state is Running,
                go ==> old(self).delivered@ + deliveries(all) == self.delivered@ + deliveries(
                    script@,
                ),
                go ==> old(self).warnings + error_count(all) == self.warnings + error_count(
                    script@,
                ),
                go ==> old(self).failures + failure_count(all) == self.failures + failure_count(
                    script@,
                ),
                go ==> old(self).polls + consumed(all) == self.polls + consumed(script@),
                go ==> has_cancel(all) == has_cancel(script@),
                go && old(self).policy is ManualAsync ==> old(self).commits@ + async_requests(
                    deliveries(all),
                ) == self.commits@ + async_requests(deliveries(script@)),
                go && old(self).policy is ManualAsync ==> forall|t: Seq<char>, p: u32|
                    pending_after(all, (#[trigger] old(self).pending.pending(t, p)), t, p)
                        == pending_after(script@, self.pending.pending(t, p), t, p),
                old(self).policy is AutomaticPeriodic ==> {
                    &&& self.commits == old(self).commits
                    &&& self.pending == old(self).pending
                    &&& self.durable == old(self).durable
                },
                forall|t: Seq<char>, p: u32|
                    (#[trigger] self.durable.position(t, p)) == old(self).durable.position(t, p)
                        || (self.durable.position(t, p) matches Some(next) && next >= 1
                        && has_acked_delivery(all, t, p, (next - 1) as u64)),
                !go ==> {
                    &&& self.state is Draining
                    &&& has_cancel(all)
                    &&& self.delivered@ == old(self).delivered@ + deliveries(all)
                    &&& self.warnings == old(self).warnings + error_count(all)
                    &&& self.failures == old(self).failures + failure_count(all)
                    &&& self.polls == old(self).polls + consumed(all)
                },
                !go && old(self).policy is ManualAsync ==> self.commits@ == old(self).commits@
                    + async_requests(deliveries(all)),
                !go && old(self).policy is ManualAsync ==> forall|t: Seq<char>, p: u32|
                    (#[trigger] self.pending.pending(t, p)) == pending_after(
                        all,
                        old(self).pending.pending(t, p),
                        t,
                        p,
                    ),
            decreases script@.len(),
        {
            let ghost suffix = script@;
            let ev = script.remove(0);
            let ghost eg = ev;
            proof {
                assert(suffix[0] == eg);
                assert(script@ =~= suffix.skip(1));
            }
            let more = self.handle(ev);
            proof {
                let ghost prev = suffix;
                let ghost rest = script@;
                assert(deliveries(prev) == match prev[0] {
                    PollEvent::Cancel => Seq::<Record>::empty(),
                    PollEvent::Delivery { record, .. } => seq![record] + deliveries(rest),
                    _ => deliveries(rest),
                });
                processed = processed + 1;
                assert(script@ =~= all.skip(processed));
            }
            if !more {
                go = false;
            }
            proof {
                if eg is Cancel {
                    assert(deliveries(suffix) =~= Seq::<Record>::empty());
                    assert(self.delivered@ + deliveries(suffix) =~= self.delivered@);
                    assert(self.delivered@ =~= old(self).delivered@ + deliveries(all));
                    if old(self).policy is ManualAsync {
                        assert(async_requests(deliveries(suffix)) =~= Seq::<
                            CommitRequest,
                        >::empty());
                        assert(self.commits@ + async_requests(deliveries(suffix))
                            =~= self.commits@);
                        assert(self.commits@ =~= old(self).commits@ + async_requests(
                            deliveries(all),
                        ));
                        assert forall|t: Seq<char>, p: u32|
                            (#[trigger] self.pending.pending(t, p)) == pending_after(
                                all,
                                old(self).pending.pending(t, p),
                                t,
                                p,
                            ) by {
                            assert(last_delivery(suffix, t, p) is None);
                            assert(pending_after(suffix, self.pending.pending(t, p), t, p)
                                == self.pending.pending(t, p));
                        }
                    }
                }
                if let PollEvent::Delivery { record: r, outcome: _, acked } = eg {
                    assert(deliveries(suffix) == seq![r] + deliveries(script@));
                    assert(old(self).delivered@ + (seq![r] + deliveries(script@)) =~= (old(
                        self,
                    ).delivered@ + seq![r]) + deliveries(script@));
                    if old(self).policy is ManualAsync {
                        let req = CommitRequest {
                            topic: r.topic,
                            partition: r.partition,
                            offset: r.offset,
                            mode: CommitMode::Async,
                        };
                        assert(async_requests(seq![r] + deliveries(script@)) =~= seq![req]
                            + async_requests(deliveries(script@)));
                        assert(old(self).commits@ + (seq![req] + async_requests(
                            deliveries(script@),
                        )) =~= (old(self).commits@ + seq![req]) + async_requests(
                            deliveries(script@),
                        ));
                        if acked {
                            assert(acked_delivery_at(all, processed - 1, r.topic@, r.partition, r.offset));
                        }
                        assert forall|t: Seq<char>, p: u32|
                            pending_after(all, (#[trigger] old(self).pending.pending(t, p)), t, p)
                                == pending_after(script@, self.pending.pending(t, p), t, p) by {
                            if t == r.topic@ && p == r.partition {
                                assert(last_delivery(suffix, t, p) == if last_delivery(
                                    script@,
                                    t,
                                    p,
                                ) is Some {
                                    last_delivery(script@, t, p)
                                } else {
                                    Some((r.offset, acked))
                                });
                            } else {
                                assert(last_delivery(suffix, t, p) == last_delivery(
                                    script@,
                                    t,
                                    p,
                                ));
                            }
                        }
                    }
                }
                assert forall|t: Seq<char>, p: u32|
                    (#[trigger] self.durable.position(t, p)) == old(self).durable.position(t, p)
                        || (self.durable.position(t, p) matches Some(next) && next >= 1
                        && has_acked_delivery(all, t, p, (next - 1) as u64)) by {}
            }
        }
        proof {
            if go {
                assert(script@.len() == 0);
                assert(deliveries(script@) == Seq::<Record>::empty());
                assert(old(self).delivered@ + deliveries(all) =~= self.delivered@);
                assert(self.delivered@ =~= old(self).delivered@ + deliveries(all));
                if old(self).policy is ManualAsync {
                    assert(async_requests(deliveries(script@)) =~= Seq::<CommitRequest>::empty());
                    assert(self.commits@ =~= old(self).commits@ + async_requests(
                        deliveries(all),
                    ));
                }
            }
        }
    }
}

/// Backpressure: the loop holds at most one record in flight, so a run over
/// `script` delivers at most one record per consumed poll and counts each
/// event at most once; there is no buffering beyond the single in-flight
/// record, and a processor that takes time per record bounds the pull rate
/// accordingly.
pub proof fn lemma_bounded_pull(script: Seq<PollEvent>)
    ensures
        0 <= error_count(script) <= script.len(),
        0 <= failure_count(script) <= script.len(),
        0 <= consumed(script) <= script.len(),
        deliveries(script).len() <= consumed(script),
    decreases script.len(),
{
    if script.len() > 0 {
        lemma_bounded_pull(script.skip(1));
    }
}

/// What a run delivers is a prefix of what the broker put into the script:
/// the loop neither reorders, drops, nor invents records before the first
/// cancellation.
pub proof fn lemma_deliveries_prefix(script: Seq<PollEvent>)
    ensures
        deliveries(script).len() <= all_records(script).len(),
        deliveries(script) == all_records(script).take(deliveries(script).len() as int),
    decreases script.len(),
{
    if script.len() == 0 {
        assert(all_records(script).take(0) =~= deliveries(script));
    } else {
        lemma_deliveries_prefix(script.skip(1));
        match script[0] {
            PollEvent::Cancel => {
                assert(all_records(script).take(0) =~= Seq::<Record>::empty());
            },
            PollEvent::Delivery { record, .. } => {
                let d = deliveries(script.skip(1));
                let a = all_records(script.skip(1));
                assert((seq![record] + a).take(d.len() as int + 1) =~= seq![record] + a.take(
                    d.len() as int,
                ));
            },
            _ => {},
        }
    }
}

/// Per-partition offsets never decrease along `records`.
pub open spec fn per_partition_ordered(records: Seq<Record>) -> bool {
    forall|i: int, j: int| #![trigger records[i], records[j]]
        0 <= i < j < records.len() && records[i].topic@ == records[j].topic@
            && records[i].partition == records[j].partition ==> records[i].offset
            <= records[j].offset
}

/// Ordering: when the broker produces each partition's records in
/// non-decreasing offset order, a run of the loop delivers them in that
/// same order — a record with a smaller offset is never delivered after one
/// with a larger offset of the same partition.
pub proof fn lemma_delivery_order(script: Seq<PollEvent>)
    requires
        per_partition_ordered(all_records(script)),
    ensures
        per_partition_ordered(deliveries(script)),
{
    lemma_deliveries_prefix(script);
    let d = deliveries(script);
    let a = all_records(script);
    assert forall|i: int, j: int| #![trigger d[i], d[j]]
        0 <= i < j < d.len() && d[i].topic@ == d[j].topic@ && d[i].partition
        == d[j].partition implies d[i].offset <= d[j].offset by {
        assert(d[i] == a[i]);
        assert(d[j] == a[j]);
    }
}

/// Resilience to transient poll errors: a burst of broker errors ahead of
/// the remaining script changes nothing about what is delivered or about
/// termination — every error is only counted, and the records that follow
/// are still delivered.
pub proof fn lemma_poll_error_resilience(noise: Seq<PollEvent>, rest: Seq<PollEvent>)
    requires
        forall|i: int| 0 <= i < noise.len() ==> (#[trigger] noise[i]) is TransientError,
    ensures
        deliveries(noise + rest) == deliveries(rest),
        has_cancel(noise + rest) == has_cancel(rest),
        error_count(noise + rest) == noise.len() + error_count(rest),
        consumed(noise + rest) == noise.len() + consumed(rest),
    decreases noise.len(),
{
    if noise.len() == 0 {
        assert(noise + rest =~= rest);
    } else {
        assert((noise + rest)[0] == noise[0]);
        assert((noise + rest).skip(1) =~= noise.skip(1) + rest);
        assert forall|i: int| 0 <= i < noise.skip(1).len() implies (#[trigger] noise.skip(
            1,
        )[i]) is TransientError by {
            assert(noise.skip(1)[i] == noise[i + 1]);
        }
        lemma_poll_error_resilience(noise.skip(1), rest);
    }
}

/// At-least-once: suppose offset `offset` of `(topic, partition)` was not
/// yet durably committed before a run, and no commit the broker
/// acknowledged during the run reached it — as when the commit issued right
/// after processing it failed. Then the durable resume position after the
/// run is still at most `offset`, so a restarted member re-delivers the
/// record rather than skipping past an uncommitted offset. The last premise
/// is exactly what `WorkerLoop::run` ensures about the durable positions.
pub proof fn lemma_at_least_once(
    before: DurableOffsets,
    after: DurableOffsets,
    script: Seq<PollEvent>,
    topic: Seq<char>,
    partition: u32,
    offset: u64,
)
    requires
        before.resume(topic, partition) <= offset,
        forall|o: u64| has_acked_delivery(script, topic, partition, o) ==> o < offset,
        after.position(topic, partition) == before.position(topic, partition) || (after.position(
            topic,
            partition,
        ) matches Some(next) && next >= 1 && has_acked_delivery(
            script,
            topic,
            partition,
            (next - 1) as u64,
        )),
    ensures
        after.resume(topic, partition) <= offset,
{
    if after.position(topic, partition) == before.position(topic, partition) {
    } else {
        let next = after.position(topic, partition)->Some_0;
        assert(has_acked_delivery(script, topic, partition, (next - 1) as u64));
        assert(((next - 1) as u64) < offset);
    }
}

} // verus!
