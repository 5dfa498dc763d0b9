//! Group membership and the partition-ownership registry.
//!
//! Partition ownership is decided by the broker's rebalance protocol; the
//! client only observes it through the rebalance callbacks. The registry
//! records those observations and maintains the group invariant: at any
//! instant a `(topic, partition)` is owned by at most one member.

use crate::partition_map::PartitionTable;
use vstd::prelude::*;

verus! {

/// A worker's identity within a consumer group, fixed for its lifetime:
/// the shared group id, this member's index, and the topics it subscribes
/// to.
pub struct GroupMembership {
    pub group_id: String,
    pub member_index: usize,
    pub subscribed_topics: Vec<String>,
}

/// One observed assignment: the broker gave `(topic, partition)` to the
/// member with index `owner_member`.
pub struct PartitionAssignment {
    pub topic: String,
    pub partition: u32,
    pub owner_member: u64,
}

/// The ownership registry: what the rebalance callbacks have reported about
/// which member currently owns each partition.
pub struct GroupOwnership {
    pub table: PartitionTable,
}

impl GroupOwnership {
    pub open spec fn wf(self) -> bool {
        self.table.wf()
    }

    /// The member that owns `(topic, partition)`, if any.
    pub open spec fn owner(self, topic: Seq<char>, partition: u32) -> Option<u64> {
        self.table.lookup(topic, partition)
    }

    /// A registry with no partition owned.
    pub fn new() -> (registry: GroupOwnership)
        ensures
            registry.wf(),
            forall|t: Seq<char>, p: u32| registry.owner(t, p) is None,
    {
        GroupOwnership { table: PartitionTable::new() }
    }

    /// Records an assignment reported by the rebalance protocol. Whatever
    /// member held the partition before loses it: ownership is exclusive by
    /// construction.
    pub fn record_assigned(&mut self, assignment: &PartitionAssignment)
        requires
            old(self).wf(),
        ensures
            final(self).wf(),
            final(self).owner(assignment.topic@, assignment.partition) == Some(
                assignment.owner_member,
            ),
            forall|t: Seq<char>, p: u32|
                !(t == assignment.topic@ && p == assignment.partition) ==> final(self).owner(t, p)
                    == old(self).owner(t, p),
    {
        self.table.put(&assignment.topic, assignment.partition, Some(assignment.owner_member));
    }

    /// Records a revocation reported by the rebalance protocol: the
    /// partition is no longer owned by anyone until it is reassigned.
    pub fn record_revoked(&mut self, topic: &String, partition: u32)
        requires
            old(self).wf(),
        ensures
            final(self).wf(),
            final(self).owner(topic@, partition) is None,
            forall|t: Seq<char>, p: u32|
                !(t == topic@ && p == partition) ==> final(self).owner(t, p) == old(self).owner(
                    t,
                    p,
                ),
    {
        self.table.put(topic, partition, None);
    }

    /// Reads the owner of `(topic, partition)`.
    pub fn owner_of(&self, topic: &String, partition: u32) -> (owner: Option<u64>)
        ensures
            owner == self.owner(topic@, partition),
    {
        self.table.get(topic, partition)
    }

    /// True when `member` currently owns `(topic, partition)`. A commit must
    /// only be issued while this holds; a commit after revocation is refused
    /// as a recoverable error.
    pub fn member_owns(&self, member: u64, topic: &String, partition: u32) -> (owns: bool)
        ensures
            owns == (self.owner(topic@, partition) == Some(member)),
    {
        match self.table.get(topic, partition) {
            Some(owner) => owner == member,
            None => false,
        }
    }
}

/// Partition exclusivity: the registry never reports the same
/// `(topic, partition)` as owned by two members at once. Whatever sequence
/// of assignments and revocations was recorded, ownership is a function of
/// the partition, so two reported owners are the same member.
pub proof fn lemma_partition_exclusive(
    registry: GroupOwnership,
    topic: Seq<char>,
    partition: u32,
    first: u64,
    second: u64,
)
    requires
        registry.owner(topic, partition) == Some(first),
        registry.owner(topic, partition) == Some(second),
    ensures
        first == second,
{
}

/// The same law at the level of the recorded rows: in a well-formed
/// registry, two rows that speak about the same `(topic, partition)` are one
/// row, so the registry cannot even hold two claims about one partition.
pub proof fn lemma_ownership_rows_exclusive(registry: GroupOwnership, i: int, j: int)
    requires
        registry.wf(),
        0 <= i < registry.table.rows@.len(),
        0 <= j < registry.table.rows@.len(),
        registry.table.rows@[i].topic@ == registry.table.rows@[j].topic@,
        registry.table.rows@[i].partition == registry.table.rows@[j].partition,
    ensures
        i == j,
{
    let rows = registry.table.rows@;
    if i < j {
        assert(!(rows[i].topic@ == rows[j].topic@ && rows[i].partition == rows[j].partition));
    }
    if j < i {
        assert(!(rows[j].topic@ == rows[i].topic@ && rows[j].partition == rows[i].partition));
    }
}

} // verus!
