use exploring_kafka::commit::{CommitMode, CommitPolicy};
use exploring_kafka::engine::{PollEvent, ProcessOutcome, WorkerLoop, WorkerState};
use exploring_kafka::record::{payload_text, Record, RecordHeader};

fn record(topic: &str, partition: u32, offset: u64, payload: &[u8]) -> Record {
    Record {
        topic: topic.to_string(),
        partition,
        offset,
        key: None,
        payload: Some(payload.to_vec()),
        headers: Vec::new(),
    }
}

fn delivery(topic: &str, partition: u32, offset: u64, payload: &[u8], acked: bool) -> PollEvent {
    PollEvent::Delivery {
        record: record(topic, partition, offset, payload),
        outcome: ProcessOutcome::Success,
        acked,
    }
}

fn running_worker(policy: CommitPolicy) -> WorkerLoop {
    let mut worker = WorkerLoop::new(policy);
    assert_eq!(worker.state, WorkerState::Created);
    worker.subscribe_outcome(true);
    assert_eq!(worker.state, WorkerState::Subscribed);
    worker.start();
    assert_eq!(worker.state, WorkerState::Running);
    worker
}

#[test]
fn delivers_in_poll_order_per_partition() {
    let mut worker = running_worker(CommitPolicy::ManualAsync);
    worker.run(vec![
        delivery("orders", 0, 1, b"a", true),
        PollEvent::Timeout,
        delivery("orders", 0, 2, b"b", true),
        delivery("orders", 0, 5, b"c", true),
    ]);
    assert_eq!(worker.delivered.len(), 3);
    assert_eq!(worker.delivered[0].offset, 1);
    assert_eq!(worker.delivered[1].offset, 2);
    assert_eq!(worker.delivered[2].offset, 5);
    assert_eq!(worker.state, WorkerState::Running);
}

#[test]
fn three_transient_errors_then_delivery() {
    let mut worker = running_worker(CommitPolicy::ManualAsync);
    worker.run(vec![
        PollEvent::TransientError,
        PollEvent::TransientError,
        PollEvent::TransientError,
        delivery("orders", 0, 7, b"x", true),
    ]);
    assert_eq!(worker.warnings, 3);
    assert_eq!(worker.delivered.len(), 1);
    assert_eq!(worker.delivered[0].offset, 7);
    assert_eq!(worker.state, WorkerState::Running);
}

#[test]
fn at_most_one_record_per_poll() {
    let mut worker = running_worker(CommitPolicy::ManualAsync);
    worker.run(vec![
        PollEvent::Timeout,
        delivery("orders", 0, 1, b"a", true),
        PollEvent::TransientError,
        delivery("orders", 0, 2, b"b", true),
    ]);
    assert_eq!(worker.polls, 4);
    assert!(worker.delivered.len() as u64 <= worker.polls);
}

#[test]
fn manual_policy_issues_one_async_commit_per_record() {
    let mut worker = running_worker(CommitPolicy::ManualAsync);
    worker.run(vec![
        delivery("orders", 0, 1, b"a", true),
        delivery("orders", 1, 4, b"b", true),
    ]);
    assert_eq!(worker.commits.len(), 2);
    assert_eq!(worker.commits[0].topic, "orders");
    assert_eq!(worker.commits[0].partition, 0);
    assert_eq!(worker.commits[0].offset, 1);
    assert_eq!(worker.commits[0].mode, CommitMode::Async);
    assert_eq!(worker.commits[1].partition, 1);
    assert_eq!(worker.commits[1].offset, 4);
}

#[test]
fn automatic_policy_never_commits_explicitly() {
    let mut worker = running_worker(CommitPolicy::AutomaticPeriodic);
    worker.run(vec![
        delivery("orders", 0, 1, b"a", true),
        delivery("orders", 0, 2, b"b", false),
    ]);
    assert_eq!(worker.commits.len(), 0);
    assert_eq!(worker.delivered.len(), 2);
}

#[test]
fn failed_commit_never_advances_durable_position() {
    let topic = "orders".to_string();
    let mut worker = running_worker(CommitPolicy::ManualAsync);
    worker.run(vec![
        delivery("orders", 0, 0, b"a", true),
        delivery("orders", 0, 1, b"b", false),
    ]);
    // Only offset 0 was acknowledged: the resume position stays at 1, at or
    // before the uncommitted offset 1.
    assert_eq!(worker.durable.resume_position(&topic, 0), 1);
    assert!(worker.durable.resume_position(&topic, 0) <= 1);

    // A restarted member against the same group resumes at 1 and is handed
    // offset 1 again: the record is redelivered, never skipped.
    let mut restarted = WorkerLoop::resume_with(CommitPolicy::ManualAsync, worker.durable);
    restarted.subscribe_outcome(true);
    restarted.start();
    let resume = restarted.durable.resume_position(&topic, 0);
    assert_eq!(resume, 1);
    restarted.run(vec![delivery("orders", 0, resume, b"b", true)]);
    assert_eq!(restarted.delivered.len(), 1);
    assert_eq!(restarted.delivered[0].offset, 1);
    assert_eq!(restarted.durable.resume_position(&topic, 0), 2);
}

#[test]
fn newer_offset_supersedes_pending_commit() {
    let topic = "orders".to_string();
    let mut worker = running_worker(CommitPolicy::ManualAsync);
    worker.run(vec![
        delivery("orders", 0, 5, b"a", false),
        delivery("orders", 0, 7, b"b", false),
    ]);
    assert_eq!(worker.pending.pending_for(&topic, 0), Some(7));
    worker.run(vec![delivery("orders", 0, 9, b"c", true)]);
    assert_eq!(worker.pending.pending_for(&topic, 0), None);
}

#[test]
fn cancellation_drains_with_sync_commits() {
    let topic = "orders".to_string();
    let mut worker = running_worker(CommitPolicy::ManualAsync);
    worker.run(vec![
        delivery("orders", 0, 5, b"a", false),
        PollEvent::Cancel,
        delivery("orders", 0, 6, b"b", true),
    ]);
    assert_eq!(worker.state, WorkerState::Draining);
    // Nothing after the cancellation is pulled.
    assert_eq!(worker.delivered.len(), 1);
    assert_eq!(worker.polls, 2);
    let drain = worker.finish();
    assert_eq!(worker.state, WorkerState::Terminated);
    assert_eq!(drain.len(), 1);
    assert_eq!(drain[0].topic, "orders");
    assert_eq!(drain[0].partition, 0);
    assert_eq!(drain[0].offset, 5);
    assert_eq!(drain[0].mode, CommitMode::Sync);
    assert_eq!(worker.pending.pending_for(&topic, 0), Some(5));
}

#[test]
fn automatic_policy_drains_without_commits() {
    let mut worker = running_worker(CommitPolicy::AutomaticPeriodic);
    worker.run(vec![delivery("orders", 0, 5, b"a", false), PollEvent::Cancel]);
    let drain = worker.finish();
    assert!(drain.is_empty());
    assert_eq!(worker.state, WorkerState::Terminated);
}

#[test]
fn processing_failure_is_recoverable_and_still_committed() {
    let mut worker = running_worker(CommitPolicy::ManualAsync);
    worker.run(vec![
        PollEvent::Delivery {
            record: record("orders", 0, 3, b"bad"),
            outcome: ProcessOutcome::Failure,
            acked: true,
        },
        delivery("orders", 0, 4, b"good", true),
    ]);
    assert_eq!(worker.failures, 1);
    assert_eq!(worker.delivered.len(), 2);
    assert_eq!(worker.commits.len(), 2);
    assert_eq!(worker.state, WorkerState::Running);
}

#[test]
fn subscription_failure_is_fatal() {
    let mut worker = WorkerLoop::new(CommitPolicy::ManualAsync);
    worker.subscribe_outcome(false);
    assert_eq!(worker.state, WorkerState::Failed);
}

#[test]
fn timeout_changes_nothing_but_the_poll_count() {
    let mut worker = running_worker(CommitPolicy::ManualAsync);
    worker.run(vec![PollEvent::Timeout, PollEvent::Timeout]);
    assert_eq!(worker.polls, 2);
    assert_eq!(worker.warnings, 0);
    assert_eq!(worker.delivered.len(), 0);
    assert_eq!(worker.commits.len(), 0);
    assert_eq!(worker.state, WorkerState::Running);
}

#[test]
fn headers_ride_along_in_order() {
    let mut worker = running_worker(CommitPolicy::ManualAsync);
    worker.run(vec![PollEvent::Delivery {
        record: Record {
            topic: "orders".to_string(),
            partition: 0,
            offset: 1,
            key: Some(b"k".to_vec()),
            payload: Some(b"v".to_vec()),
            headers: vec![
                RecordHeader { name: "first".to_string(), value: b"1".to_vec() },
                RecordHeader { name: "second".to_string(), value: Vec::new() },
            ],
        },
        outcome: ProcessOutcome::Success,
        acked: true,
    }]);
    let delivered = &worker.delivered[0];
    assert_eq!(delivered.headers.len(), 2);
    assert_eq!(delivered.headers[0].name, "first");
    assert_eq!(delivered.headers[0].value, b"1".to_vec());
    assert_eq!(delivered.headers[1].name, "second");
    assert!(delivered.headers[1].value.is_empty());
    assert_eq!(delivered.key.as_deref(), Some(b"k".as_ref()));
}

#[test]
fn payload_decodes_or_falls_back_to_sentinel() {
    let (text, malformed) = payload_text(&None);
    assert_eq!(text, "");
    assert!(!malformed);

    let (text, malformed) = payload_text(&Some(b"hello".to_vec()));
    assert_eq!(text, "hello");
    assert!(!malformed);

    let (text, malformed) = payload_text(&Some(vec![0xff, 0xfe]));
    assert_eq!(text, "");
    assert!(malformed);

    let (text, malformed) = payload_text(&Some(Vec::new()));
    assert_eq!(text, "");
    assert!(!malformed);
}
