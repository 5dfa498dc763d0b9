//! A small association table keyed by `(topic, partition)`.
//!
//! Three parts of the engine need a per-partition map with exact contracts:
//! the group ownership registry, the table of pending commit requests, and
//! the broker-side durable commit positions. All three share this structure.
//! A row whose value is `None` is indistinguishable, through lookups, from an
//! absent row, which lets removal be modelled as storing `None`.

use vstd::prelude::*;

verus! {

/// One row: a `(topic, partition)` key together with an optional value.
pub struct TableRow {
    pub topic: String,
    pub partition: u32,
    pub value: Option<u64>,
}

/// True when `row` carries the key `(topic, partition)`.
pub open spec fn row_has_key(row: TableRow, topic: Seq<char>, partition: u32) -> bool {
    row.topic@ == topic && row.partition == partition
}

/// The value stored for `(topic, partition)` in `rows`, reading front to back.
pub open spec fn rows_lookup(rows: Seq<TableRow>, topic: Seq<char>, partition: u32) -> Option<
    u64,
>
    decreases rows.len(),
{
    if rows.len() == 0 {
        None
    } else if row_has_key(rows[0], topic, partition) {
        rows[0].value
    } else {
        rows_lookup(rows.skip(1), topic, partition)
    }
}

/// Some row of `rows` carries the key `(topic, partition)`.
pub open spec fn rows_has_key(rows: Seq<TableRow>, topic: Seq<char>, partition: u32) -> bool {
    exists|k: int| 0 <= k < rows.len() && #[trigger] row_has_key(rows[k], topic, partition)
}

/// Each `(topic, partition)` key appears in at most one row.
pub open spec fn rows_unique(rows: Seq<TableRow>) -> bool {
    forall|i: int, j: int| #![trigger rows[i], rows[j]]
        0 <= i < j < rows.len() ==> !(rows[i].topic@ == rows[j].topic@ && rows[i].partition
            == rows[j].partition)
}

/// A key that no row carries looks up to `None`.
pub proof fn lemma_lookup_no_key(rows: Seq<TableRow>, topic: Seq<char>, partition: u32)
    requires
        !rows_has_key(rows, topic, partition),
    ensures
        rows_lookup(rows, topic, partition) is None,
    decreases rows.len(),
{
    if rows.len() > 0 {
        assert(!row_has_key(rows[0], topic, partition));
        assert forall|k: int| 0 <= k < rows.skip(1).len() implies !#[trigger] row_has_key(
            rows.skip(1)[k],
            topic,
            partition,
        ) by {
            assert(rows.skip(1)[k] == rows[k + 1]);
            assert(!row_has_key(rows[k + 1], topic, partition));
        }
        lemma_lookup_no_key(rows.skip(1), topic, partition);
    }
}

/// How a lookup reads a sequence extended at the back.
pub proof fn lemma_lookup_push(rows: Seq<TableRow>, row: TableRow, topic: Seq<char>, partition: u32)
    ensures
        rows_has_key(rows, topic, partition) ==> rows_lookup(rows.push(row), topic, partition)
            == rows_lookup(rows, topic, partition),
        !rows_has_key(rows, topic, partition) && row_has_key(row, topic, partition)
            ==> rows_lookup(rows.push(row), topic, partition) == row.value,
        !rows_has_key(rows, topic, partition) && !row_has_key(row, topic, partition)
            ==> rows_lookup(rows.push(row), topic, partition) == rows_lookup(
            rows,
            topic,
            partition,
        ),
    decreases rows.len(),
{
    let pushed = rows.push(row);
    if rows.len() == 0 {
        assert(pushed[0] == row);
        assert(pushed.skip(1) =~= Seq::<TableRow>::empty());
        assert(!rows_has_key(rows, topic, partition));
        if row_has_key(row, topic, partition) {
            assert(rows_lookup(pushed, topic, partition) == row.value);
        } else {
            assert(rows_lookup(pushed, topic, partition) == rows_lookup(
                Seq::<TableRow>::empty(),
                topic,
                partition,
            ));
            assert(rows_lookup(pushed, topic, partition) is None);
            assert(rows_lookup(rows, topic, partition) is None);
        }
    } else {
        assert(pushed[0] == rows[0]);
        assert(pushed.skip(1) =~= rows.skip(1).push(row));
        lemma_lookup_push(rows.skip(1), row, topic, partition);
        if row_has_key(rows[0], topic, partition) {
            assert(rows_has_key(rows, topic, partition));
            assert(rows_lookup(pushed, topic, partition) == rows[0].value);
            assert(rows_lookup(rows, topic, partition) == rows[0].value);
        } else {
            assert(rows_lookup(pushed, topic, partition) == rows_lookup(
                rows.skip(1).push(row),
                topic,
                partition,
            ));
            assert(rows_lookup(rows, topic, partition) == rows_lookup(
                rows.skip(1),
                topic,
                partition,
            ));
            if rows_has_key(rows, topic, partition) {
                let k = choose|k: int|
                    0 <= k < rows.len() && #[trigger] row_has_key(rows[k], topic, partition);
                assert(k != 0);
                assert(rows.skip(1)[k - 1] == rows[k]);
                assert(row_has_key(rows.skip(1)[k - 1], topic, partition));
                assert(rows_has_key(rows.skip(1), topic, partition));
            } else {
                assert forall|k: int| 0 <= k < rows.skip(1).len() implies !#[trigger] row_has_key(
                    rows.skip(1)[k],
                    topic,
                    partition,
                ) by {
                    assert(rows.skip(1)[k] == rows[k + 1]);
                    assert(!row_has_key(rows[k + 1], topic, partition));
                }
                assert(!rows_has_key(rows.skip(1), topic, partition));
            }
        }
    }
}

/// How a lookup reads a sequence whose row `k` was replaced by a row with the
/// same key, when no earlier row shares that key.
pub proof fn lemma_lookup_update(
    rows: Seq<TableRow>,
    k: int,
    row: TableRow,
    topic: Seq<char>,
    partition: u32,
)
    requires
        0 <= k < rows.len(),
        row.topic@ == rows[k].topic@,
        row.partition == rows[k].partition,
        forall|j: int| 0 <= j < k ==> !#[trigger] row_has_key(
            rows[j],
            rows[k].topic@,
            rows[k].partition,
        ),
    ensures
        rows_lookup(rows.update(k, row), topic, partition) == if row.topic@ == topic
            && row.partition == partition {
            row.value
        } else {
            rows_lookup(rows, topic, partition)
        },
    decreases rows.len(),
{
    if k == 0 {
        assert(rows.update(0, row)[0] == row);
        assert(rows.update(0, row).skip(1) =~= rows.skip(1));
        if !(row.topic@ == topic && row.partition == partition) {
            assert(!row_has_key(rows[0], topic, partition));
        }
    } else {
        assert(rows.update(k, row)[0] == rows[0]);
        assert(rows.update(k, row).skip(1) =~= rows.skip(1).update(k - 1, row));
        assert(!row_has_key(rows[0], rows[k].topic@, rows[k].partition));
        assert forall|j: int| 0 <= j < k - 1 implies !#[trigger] row_has_key(
            rows.skip(1)[j],
            rows.skip(1)[k - 1].topic@,
            rows.skip(1)[k - 1].partition,
        ) by {
            assert(rows.skip(1)[j] == rows[j + 1]);
            assert(rows.skip(1)[k - 1] == rows[k]);
        }
        assert(rows.skip(1)[k - 1] == rows[k]);
        lemma_lookup_update(rows.skip(1), k - 1, row, topic, partition);
        if row_has_key(rows[0], topic, partition) {
            assert(!(row.topic@ == topic && row.partition == partition));
        }
    }
}

/// In a table without duplicate keys, row `k` is what the lookup of its own
/// key returns.
pub proof fn lemma_lookup_at_index(rows: Seq<TableRow>, k: int)
    requires
        rows_unique(rows),
        0 <= k < rows.len(),
    ensures
        rows_lookup(rows, rows[k].topic@, rows[k].partition) == rows[k].value,
    decreases rows.len(),
{
    if k == 0 {
    } else {
        assert(!(rows[0].topic@ == rows[k].topic@ && rows[0].partition == rows[k].partition));
        assert forall|i: int, j: int| #![trigger rows.skip(1)[i], rows.skip(1)[j]]
            0 <= i < j < rows.skip(1).len() implies !(rows.skip(1)[i].topic@
            == rows.skip(1)[j].topic@ && rows.skip(1)[i].partition
            == rows.skip(1)[j].partition) by {
            assert(rows.skip(1)[i] == rows[i + 1]);
            assert(rows.skip(1)[j] == rows[j + 1]);
        }
        assert(rows.skip(1)[k - 1] == rows[k]);
        lemma_lookup_at_index(rows.skip(1), k - 1);
    }
}

/// A lookup that returns a value is witnessed by a row.
pub proof fn lemma_lookup_some_row(rows: Seq<TableRow>, topic: Seq<char>, partition: u32)
    requires
        rows_lookup(rows, topic, partition) is Some,
    ensures
        exists|k: int|
            0 <= k < rows.len() && #[trigger] row_has_key(rows[k], topic, partition)
                && rows[k].value == rows_lookup(rows, topic, partition),
    decreases rows.len(),
{
    if rows.len() > 0 {
        if row_has_key(rows[0], topic, partition) {
        } else {
            lemma_lookup_some_row(rows.skip(1), topic, partition);
            let k = choose|k: int|
                0 <= k < rows.skip(1).len() && #[trigger] row_has_key(
                    rows.skip(1)[k],
                    topic,
                    partition,
                ) && rows.skip(1)[k].value == rows_lookup(rows.skip(1), topic, partition);
            assert(rows.skip(1)[k] == rows[k + 1]);
            assert(row_has_key(rows[k + 1], topic, partition));
        }
    }
}

/// A map from `(topic, partition)` keys to optional 64-bit values, stored as
/// a vector of rows with pairwise distinct keys.
pub struct PartitionTable {
    pub rows: Vec<TableRow>,
}

impl PartitionTable {
    /// No two rows share a key.
    pub open spec fn wf(self) -> bool {
        rows_unique(self.rows@)
    }

    /// The value stored under `(topic, partition)`.
    pub open spec fn lookup(self, topic: Seq<char>, partition: u32) -> Option<u64> {
        rows_lookup(self.rows@, topic, partition)
    }

    /// An empty table: every key reads `None`.
    pub fn new() -> (table: PartitionTable)
        ensures
            table.wf(),
            forall|t: Seq<char>, p: u32| table.lookup(t, p) is None,
            table.rows@.len() == 0,
    {
        PartitionTable { rows: Vec::new() }
    }

    /// Reads the value stored under `(topic, partition)`.
    pub fn get(&self, topic: &String, partition: u32) -> (value: Option<u64>)
        ensures
            value == self.lookup(topic@, partition),
    {
        let n = self.rows.len();
        let mut i: usize = 0;
        proof {
            assert(self.rows@.skip(0) =~= self.rows@);
        }
        while i < n
            invariant
                n == self.rows@.len(),
                0 <= i <= n,
                rows_lookup(self.rows@, topic@, partition) == rows_lookup(
                    self.rows@.skip(i as int),
                    topic@,
                    partition,
                ),
            decreases n - i,
        {
            let row = &self.rows[i];
            proof {
                assert(self.rows@.skip(i as int)[0] == self.rows@[i as int]);
                assert(self.rows@.skip(i as int).skip(1) =~= self.rows@.skip(i as int + 1));
            }
            if row.partition == partition && row.topic == *topic {
                return row.value;
            }
            i = i + 1;
        }
        proof {
            assert(self.rows@.skip(n as int) =~= Seq::<TableRow>::empty());
        }
        None
    }

    /// Stores `value` under `(topic, partition)`, replacing whatever the key
    /// held before and leaving every other key unchanged.
    pub fn put(&mut self, topic: &String, partition: u32, value: Option<u64>)
        requires
            old(self).wf(),
        ensures
            final(self).wf(),
            final(self).lookup(topic@, partition) == value,
            forall|t: Seq<char>, p: u32|
                !(t == topic@ && p == partition) ==> final(self).lookup(t, p) == old(self).lookup(
                    t,
                    p,
                ),
            final(self).rows@.len() <= old(self).rows@.len() + 1,
    {
        let n = self.rows.len();
        let mut i: usize = 0;
        while i < n
            invariant
                n == self.rows@.len(),
                0 <= i <= n,
                *self == *old(self),
                old(self).wf(),
                forall|j: int| 0 <= j < i ==> !#[trigger] row_has_key(
                    self.rows@[j],
                    topic@,
                    partition,
                ),
            decreases n - i,
        {
            let found = {
                let row = &self.rows[i];
                row.partition == partition && row.topic == *topic
            };
            if found {
                let row = &mut self.rows[i];
                row.value = value;
                proof {
                    let rows0 = old(self).rows@;
                    let updated = self.rows@;
                    assert(updated =~= rows0.update(
                        i as int,
                        TableRow { value, ..rows0[i as int] },
                    ));
                    assert forall|t: Seq<char>, p: u32| true implies #[trigger] rows_lookup(
                        updated,
                        t,
                        p,
                    ) == if t == topic@ && p == partition {
                        value
                    } else {
                        rows_lookup(rows0, t, p)
                    } by {
                        lemma_lookup_update(
                            rows0,
                            i as int,
                            TableRow { value, ..rows0[i as int] },
                            t,
                            p,
                        );
                    }
                    assert forall|a: int, b: int| #![trigger updated[a], updated[b]]
                        0 <= a < b < updated.len() implies !(updated[a].topic@
                        == updated[b].topic@ && updated[a].partition == updated[b].partition) by {
                        assert(updated[a] == if a == i as int {
                            (TableRow { value, ..rows0[a] })
                        } else {
                            rows0[a]
                        });
                        assert(updated[b] == if b == i as int {
                            (TableRow { value, ..rows0[b] })
                        } else {
                            rows0[b]
                        });
                        assert(rows_unique(rows0));
                        assert(rows0.len() == updated.len());
                        assert(!(rows0[a].topic@ == rows0[b].topic@ && rows0[a].partition
                            == rows0[b].partition));
                    }
                }
                return ;
            }
            i = i + 1;
        }
        proof {
            assert(!rows_has_key(self.rows@, topic@, partition));
        }
        let row = TableRow { topic: topic.clone(), partition, value };
        proof {
            lemma_lookup_push(self.rows@, row, topic@, partition);
        }
        self.rows.push(row);
        proof {
            let rows0 = old(self).rows@;
            let pushed = self.rows@;
            assert(pushed =~= rows0.push(row));
            assert forall|t: Seq<char>, p: u32|
                !(t == topic@ && p == partition) implies #[trigger] rows_lookup(pushed, t, p)
                == rows_lookup(rows0, t, p) by {
                lemma_lookup_push(rows0, row, t, p);
                if rows_has_key(rows0, t, p) {
                } else {
                    assert(!row_has_key(row, t, p));
                }
            }
            assert forall|a: int, b: int| #![trigger pushed[a], pushed[b]]
                0 <= a < b < pushed.len() implies !(pushed[a].topic@ == pushed[b].topic@
                && pushed[a].partition == pushed[b].partition) by {
                if b < rows0.len() {
                } else {
                    assert(pushed[b] == row);
                    assert(pushed[a] == rows0[a]);
                    assert(!row_has_key(rows0[a], topic@, partition));
                }
            }
        }
    }
}

} // verus!
