//! The worker pool: the spawn plan for a group of workers and the
//! aggregation of their terminal reports.
//!
//! The pool launches its workers concurrently and never cancels a sibling
//! because one worker failed: every worker drains on its own, and the pool
//! reports the first fatal error, if any, once all have terminated.

use crate::group::GroupMembership;
use vstd::prelude::*;

verus! {

/// Why a worker failed at setup. Only setup errors are fatal for a worker;
/// everything later is handled inside its loop.
#[derive(Clone, Copy, Debug, PartialEq, Eq, Structural)]
pub enum SetupError {
    ClientCreation,
    Subscription,
}

/// The terminal report of one worker: its index and how its loop ended.
pub struct WorkerHandle {
    pub index: usize,
    pub termination: Result<(), SetupError>,
}

/// The first fatal error among the workers' reports, scanning by index.
pub open spec fn first_fatal(handles: Seq<WorkerHandle>) -> Option<SetupError>
    decreases handles.len(),
{
    if handles.len() == 0 {
        None
    } else {
        match handles[0].termination {
            Result::Err(error) => Some(error),
            Result::Ok(_) => first_fatal(handles.skip(1)),
        }
    }
}

/// Clones a topic list, value for value.
fn clone_topics(topics: &Vec<String>) -> (cloned: Vec<String>)
    ensures
        cloned@ == topics@,
{
    let n = topics.len();
    let mut cloned: Vec<String> = Vec::new();
    let mut i: usize = 0;
    while i < n
        invariant
            n == topics@.len(),
            0 <= i <= n,
            cloned@.len() == i,
            forall|j: int| 0 <= j < i ==> cloned@[j] == topics@[j],
        decreases n - i,
    {
        cloned.push(topics[i].clone());
        i = i + 1;
    }
    proof {
        assert(cloned@ =~= topics@);
    }
    cloned
}

/// The spawn plan for `count` workers: each worker receives its own
/// membership, tagged with a distinct member index so callbacks and log
/// lines are unambiguous, but all share the same group id and topic set —
/// how partitions split across them is the broker's decision.
pub fn spawn_plan(count: usize, group_id: &String, topics: &Vec<String>) -> (plan: Vec<
    GroupMembership,
>)
    ensures
        plan@.len() == count,
        forall|i: int|
            0 <= i < count ==> (#[trigger] plan@[i]).member_index == i && plan@[i].group_id@
                == group_id@ && plan@[i].subscribed_topics@ == topics@,
{
    let mut plan: Vec<GroupMembership> = Vec::new();
    let mut i: usize = 0;
    while i < count
        invariant
            0 <= i <= count,
            plan@.len() == i,
            forall|j: int|
                0 <= j < i ==> (#[trigger] plan@[j]).member_index == j && plan@[j].group_id@
                    == group_id@ && plan@[j].subscribed_topics@ == topics@,
        decreases count - i,
    {
        plan.push(
            GroupMembership {
                group_id: group_id.clone(),
                member_index: i,
                subscribed_topics: clone_topics(topics),
            },
        );
        i = i + 1;
    }
    plan
}

/// Waits out the whole pool: success exactly when every worker terminated
/// cleanly, and otherwise the first fatal error by worker index — siblings
/// of a failed worker are still accounted for, never cancelled.
pub fn await_all(handles: &Vec<WorkerHandle>) -> (outcome: Result<(), SetupError>)
    ensures
        outcome == (match first_fatal(handles@) {
            None => Result::<(), SetupError>::Ok(()),
            Some(error) => Result::<(), SetupError>::Err(error),
        }),
        (outcome is Ok) <==> (forall|i: int|
            0 <= i < handles@.len() ==> (#[trigger] handles@[i]).termination is Ok),
    {
        let n = handles.len();
        let mut i: usize = 0;
        proof {
            assert(handles@.skip(0) =~= handles@);
        }
        while i < n
            invariant
                n == handles@.len(),
                0 <= i <= n,
                first_fatal(handles@) == first_fatal(handles@.skip(i as int)),
                forall|j: int| 0 <= j < i ==> (#[trigger] handles@[j]).termination is Ok,
            decreases n - i,
        {
            proof {
                assert(handles@.skip(i as int)[0] == handles@[i as int]);
                assert(handles@.skip(i as int).skip(1) =~= handles@.skip(i as int + 1));
            }
            match handles[i].termination {
                Result::Err(error) => {
                    return Result::Err(error);
                },
                Result::Ok(_) => {},
            }
            i = i + 1;
        }
        proof {
            assert(handles@.skip(n as int) =~= Seq::<WorkerHandle>::empty());
        }
        Result::Ok(())
    }

/// The process exit status the pool reports: zero for a clean shutdown and
/// one when a fatal setup error surfaced after draining.
pub fn exit_code(outcome: &Result<(), SetupError>) -> (code: i32)
    ensures
        (code == 0) <==> (outcome is Ok),
        outcome is Err ==> code == 1,
{
    match outcome {
        Result::Ok(_) => 0,
        Result::Err(_) => 1,
    }
}

} // verus!
