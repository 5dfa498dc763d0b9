//! The configuration a worker hands to the broker client when it creates
//! its consumer.

use crate::commit::CommitPolicy;
use vstd::prelude::*;

verus! {

/// The options the broker client recognises for a group-subscribed
/// consumer.
pub struct ConsumerSettings {
    pub group_id: String,
    pub bootstrap_servers: String,
    pub session_timeout_ms: u32,
    pub enable_auto_commit: bool,
    pub enable_partition_eof: bool,
}

/// Builds the consumer configuration for one worker: the shared group id
/// and broker list, a six second session timeout, no partition-EOF events,
/// and automatic committing exactly under the automatic periodic policy —
/// under the manual policy the loop issues its own commit requests.
pub fn consumer_settings(
    group_id: String,
    bootstrap_servers: String,
    policy: CommitPolicy,
) -> (settings: ConsumerSettings)
    ensures
        settings.group_id@ == group_id@,
        settings.bootstrap_servers@ == bootstrap_servers@,
        settings.session_timeout_ms == 6000,
        settings.enable_auto_commit == (policy is AutomaticPeriodic),
        !settings.enable_partition_eof,
{
    let auto = match policy {
        CommitPolicy::AutomaticPeriodic => true,
        CommitPolicy::ManualAsync => false,
    };
    ConsumerSettings {
        group_id,
        bootstrap_servers,
        session_timeout_ms: 6000,
        enable_auto_commit: auto,
        enable_partition_eof: false,
    }
}

} // verus!
