use exploring_kafka::commit::{guard_commit, CommitMode, CommitPolicy, CommitRefused, CommitRequest};
use exploring_kafka::config::consumer_settings;
use exploring_kafka::engine::{PollEvent, ProcessOutcome, WorkerLoop, WorkerState};
use exploring_kafka::group::{GroupOwnership, PartitionAssignment};
use exploring_kafka::log_level_for;
use exploring_kafka::pool::{await_all, exit_code, spawn_plan, SetupError, WorkerHandle};
use exploring_kafka::record::Record;
use exploring_kafka::LogLevel;

fn assign(registry: &mut GroupOwnership, topic: &str, partition: u32, member: u64) {
    registry.record_assigned(&PartitionAssignment {
        topic: topic.to_string(),
        partition,
        owner_member: member,
    });
}

#[test]
fn rebalance_keeps_ownership_exclusive() {
    let topic = "orders".to_string();
    let mut registry = GroupOwnership::new();
    assign(&mut registry, "orders", 0, 0);
    assign(&mut registry, "orders", 1, 1);
    assert_eq!(registry.owner_of(&topic, 0), Some(0));
    assert_eq!(registry.owner_of(&topic, 1), Some(1));

    // The broker moves partition 0 to the other member: the old owner is
    // gone the instant the new one is recorded.
    assign(&mut registry, "orders", 0, 1);
    assert_eq!(registry.owner_of(&topic, 0), Some(1));
    assert!(!registry.member_owns(0, &topic, 0));
    assert!(registry.member_owns(1, &topic, 0));

    registry.record_revoked(&topic, 1);
    assert_eq!(registry.owner_of(&topic, 1), None);
    assert!(!registry.member_owns(1, &topic, 1));
}

#[test]
fn commit_after_revoke_is_refused() {
    let topic = "orders".to_string();
    let mut registry = GroupOwnership::new();
    assign(&mut registry, "orders", 0, 0);

    let request = CommitRequest {
        topic: topic.clone(),
        partition: 0,
        offset: 9,
        mode: CommitMode::Async,
    };
    let passed = guard_commit(&registry, 0, request).expect("owner may commit");
    assert_eq!(passed.offset, 9);

    registry.record_revoked(&topic, 0);
    let request = CommitRequest {
        topic: topic.clone(),
        partition: 0,
        offset: 10,
        mode: CommitMode::Async,
    };
    let refused = guard_commit(&registry, 0, request);
    assert!(matches!(refused, Err(CommitRefused::RevokedPartition)));
}

#[test]
fn two_workers_split_two_partitions() {
    // group "g1", two workers, topic "orders" with two partitions: the
    // simulated rebalance gives partition 0 to worker A and partition 1 to
    // worker B.
    let topic = "orders".to_string();
    let mut registry = GroupOwnership::new();
    assign(&mut registry, "orders", 0, 0);
    assign(&mut registry, "orders", 1, 1);

    let plan = spawn_plan(2, &"g1".to_string(), &vec![topic.clone()]);
    assert_eq!(plan.len(), 2);
    assert_eq!(plan[0].group_id, "g1");
    assert_eq!(plan[1].group_id, "g1");

    let mut worker_a = WorkerLoop::new(CommitPolicy::ManualAsync);
    worker_a.subscribe_outcome(true);
    worker_a.start();
    let mut worker_b = WorkerLoop::new(CommitPolicy::ManualAsync);
    worker_b.subscribe_outcome(true);
    worker_b.start();

    worker_a.run(vec![PollEvent::Delivery {
        record: Record {
            topic: topic.clone(),
            partition: 0,
            offset: 1,
            key: None,
            payload: Some(b"x".to_vec()),
            headers: Vec::new(),
        },
        outcome: ProcessOutcome::Success,
        acked: true,
    }]);
    worker_b.run(vec![PollEvent::Delivery {
        record: Record {
            topic: topic.clone(),
            partition: 1,
            offset: 1,
            key: None,
            payload: Some(b"y".to_vec()),
            headers: Vec::new(),
        },
        outcome: ProcessOutcome::Success,
        acked: true,
    }]);

    // Worker A processed only offset 1 of partition 0, worker B only
    // offset 1 of partition 1, and each issued its own commit request.
    assert_eq!(worker_a.delivered.len(), 1);
    assert_eq!(worker_a.delivered[0].partition, 0);
    assert_eq!(worker_a.delivered[0].offset, 1);
    assert_eq!(worker_a.delivered[0].payload.as_deref(), Some(b"x".as_ref()));
    assert_eq!(worker_b.delivered.len(), 1);
    assert_eq!(worker_b.delivered[0].partition, 1);
    assert_eq!(worker_b.delivered[0].offset, 1);
    assert_eq!(worker_b.delivered[0].payload.as_deref(), Some(b"y".as_ref()));

    assert_eq!(worker_a.commits.len(), 1);
    assert_eq!(worker_a.commits[0].partition, 0);
    assert_eq!(worker_a.commits[0].offset, 1);
    assert_eq!(worker_a.commits[0].mode, CommitMode::Async);
    assert_eq!(worker_b.commits.len(), 1);
    assert_eq!(worker_b.commits[0].partition, 1);
    assert_eq!(worker_b.commits[0].offset, 1);
    assert_eq!(worker_b.commits[0].mode, CommitMode::Async);

    assert_eq!(registry.owner_of(&topic, 0), Some(0));
    assert_eq!(registry.owner_of(&topic, 1), Some(1));
}

#[test]
fn spawn_plan_tags_each_worker_once() {
    let topics = vec!["orders".to_string(), "billing".to_string()];
    let plan = spawn_plan(3, &"test_group".to_string(), &topics);
    assert_eq!(plan.len(), 3);
    for (i, membership) in plan.iter().enumerate() {
        assert_eq!(membership.member_index, i);
        assert_eq!(membership.group_id, "test_group");
        assert_eq!(membership.subscribed_topics, topics);
    }
}

#[test]
fn pool_reports_first_fatal_error_after_all_terminate() {
    let all_ok = vec![
        WorkerHandle { index: 0, termination: Ok(()) },
        WorkerHandle { index: 1, termination: Ok(()) },
    ];
    let outcome = await_all(&all_ok);
    assert_eq!(outcome, Ok(()));
    assert_eq!(exit_code(&outcome), 0);

    let mixed = vec![
        WorkerHandle { index: 0, termination: Ok(()) },
        WorkerHandle { index: 1, termination: Err(SetupError::Subscription) },
        WorkerHandle { index: 2, termination: Err(SetupError::ClientCreation) },
    ];
    let outcome = await_all(&mixed);
    assert_eq!(outcome, Err(SetupError::Subscription));
    assert_eq!(exit_code(&outcome), 1);
}

#[test]
fn consumer_settings_follow_the_commit_policy() {
    let manual = consumer_settings(
        "test_group".to_string(),
        "localhost:9092".to_string(),
        CommitPolicy::ManualAsync,
    );
    assert_eq!(manual.group_id, "test_group");
    assert_eq!(manual.bootstrap_servers, "localhost:9092");
    assert_eq!(manual.session_timeout_ms, 6000);
    assert!(!manual.enable_auto_commit);
    assert!(!manual.enable_partition_eof);

    let automatic = consumer_settings(
        "test_group".to_string(),
        "localhost:9092".to_string(),
        CommitPolicy::AutomaticPeriodic,
    );
    assert!(automatic.enable_auto_commit);
}

#[test]
fn verbosity_flag_selects_the_log_level() {
    assert_eq!(log_level_for(0), LogLevel::Info);
    assert_eq!(log_level_for(1), LogLevel::Debug);
    assert_eq!(log_level_for(2), LogLevel::Trace);
    assert_eq!(log_level_for(5), LogLevel::Trace);
    assert_eq!(log_level_for(-1), LogLevel::Trace);
}

#[test]
fn a_failed_worker_does_not_stop_its_siblings() {
    let mut failed = WorkerLoop::new(CommitPolicy::ManualAsync);
    failed.subscribe_outcome(false);
    assert_eq!(failed.state, WorkerState::Failed);

    let mut sibling = WorkerLoop::new(CommitPolicy::ManualAsync);
    sibling.subscribe_outcome(true);
    sibling.start();
    sibling.run(vec![PollEvent::Delivery {
        record: Record {
            topic: "orders".to_string(),
            partition: 0,
            offset: 0,
            key: None,
            payload: None,
            headers: Vec::new(),
        },
        outcome: ProcessOutcome::Success,
        acked: true,
    }]);
    assert_eq!(sibling.delivered.len(), 1);
    assert_eq!(sibling.state, WorkerState::Running);

    let handles = vec![
        WorkerHandle { index: 0, termination: Err(SetupError::Subscription) },
        WorkerHandle { index: 1, termination: Ok(()) },
    ];
    assert_eq!(await_all(&handles), Err(SetupError::Subscription));
}
