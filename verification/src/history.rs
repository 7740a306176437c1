//! The deletion history: what one cleaning session recorded of each removal
//! it attempted, and which of those records can be undone.

use vstd::prelude::*;

verus! {

/// One attempted removal, as the cleaning session logged it.
#[derive(Debug)]
pub struct DeletionRecord {
    /// Where the item was when it was removed.
    pub path: String,
    /// Whether the removal went through.
    pub success: bool,
    /// Whether the item bypassed the trash store and is gone for good.
    pub permanent: bool,
    /// The item's size when it was removed.
    pub size_bytes: u64,
}

impl DeletionRecord {
    /// Only a removal that went through, and went to the trash store, can be
    /// undone.
    pub open spec fn restorable(&self) -> bool {
        self.success && !self.permanent
    }

    /// Computes [`Self::restorable`].
    pub fn is_restorable(&self) -> (yes: bool)
        ensures
            yes == self.restorable(),
    {
        self.success && !self.permanent
    }
}

/// The records of one cleaning session, in the order the removals were tried.
#[derive(Debug)]
pub struct DeletionLog {
    /// When the session began, in seconds since the Unix epoch.
    pub created_at: u64,
    /// The session's records.
    pub records: Vec<DeletionRecord>,
}

/// The positions of the restorable records, in ascending order.
pub open spec fn restorable_positions(records: Seq<DeletionRecord>) -> Seq<int>
    decreases records.len(),
{
    if records.len() == 0 {
        Seq::empty()
    } else {
        let before = restorable_positions(records.drop_last());
        if records.last().restorable() {
            before.push(records.len() - 1)
        } else {
            before
        }
    }
}

/// How many records can be undone.
pub open spec fn restorable_count(records: Seq<DeletionRecord>) -> nat {
    restorable_positions(records).len()
}

/// Every listed position is in range and holds a restorable record, and the
/// positions ascend; there are never more of them than records.
pub proof fn lemma_restorable_positions(records: Seq<DeletionRecord>)
    ensures
        restorable_count(records) <= records.len(),
        forall|k: int|
            0 <= k < restorable_count(records) ==> {
                let at = #[trigger] restorable_positions(records)[k];
                0 <= at < records.len() && records[at].restorable()
            },
        forall|k: int, l: int|
            0 <= k < l < restorable_count(records) ==> restorable_positions(records)[k]
                < restorable_positions(records)[l],
    decreases records.len(),
{
    if records.len() > 0 {
        lemma_restorable_positions(records.drop_last());
        let before = restorable_positions(records.drop_last());
        assert forall|k: int| 0 <= k < restorable_count(records) implies {
            let at = #[trigger] restorable_positions(records)[k];
            0 <= at < records.len() && records[at].restorable()
        } by {
            if k < before.len() {
                assert(restorable_positions(records)[k] == before[k]);
                assert(records.drop_last()[before[k]] == records[before[k]]);
            }
        }
        assert forall|k: int, l: int| 0 <= k < l < restorable_count(records) implies
            restorable_positions(records)[k] < restorable_positions(records)[l] by {
            assert(restorable_positions(records)[k] == before[k]);
            if l < before.len() {
                assert(restorable_positions(records)[l] == before[l]);
            }
        }
    }
}

/// A record that cannot be undone is passed over: the restorable positions
/// before it stay, and those after it are the ones found once it is set aside.
pub proof fn lemma_restorable_count_skips(records: Seq<DeletionRecord>, at: int)
    requires
        0 <= at < records.len(),
        !records[at].restorable(),
    ensures
        restorable_count(records.remove(at)) == restorable_count(records),
    decreases records.len(),
{
    if at == records.len() - 1 {
        assert(records.remove(at) =~= records.drop_last());
    } else {
        lemma_restorable_count_skips(records.drop_last(), at);
        assert(records.remove(at).drop_last() =~= records.drop_last().remove(at));
        assert(records.remove(at).last() == records.last());
    }
}

/// What a record that cannot be undone says makes no difference to which
/// records can be.
pub proof fn lemma_positions_ignore_unrestorable(
    records: Seq<DeletionRecord>,
    at: int,
    other: DeletionRecord,
)
    requires
        0 <= at < records.len(),
        !records[at].restorable(),
        !other.restorable(),
    ensures
        restorable_positions(records.update(at, other)) == restorable_positions(records),
    decreases records.len(),
{
    let changed = records.update(at, other);
    if at == records.len() - 1 {
        assert(changed.drop_last() =~= records.drop_last());
    } else {
        lemma_positions_ignore_unrestorable(records.drop_last(), at, other);
        assert(changed.drop_last() =~= records.drop_last().update(at, other));
        assert(changed.last() == records.last());
    }
}

/// The records that can be undone, in the order in which they stand.
pub open spec fn restorable_only(records: Seq<DeletionRecord>) -> Seq<DeletionRecord>
    decreases records.len(),
{
    if records.len() == 0 {
        Seq::empty()
    } else {
        let before = restorable_only(records.drop_last());
        if records.last().restorable() {
            before.push(records.last())
        } else {
            before
        }
    }
}

/// Setting aside the records that cannot be undone leaves the others as they
/// were and in their order, each of them still one that can be undone.
pub proof fn lemma_restorable_only(records: Seq<DeletionRecord>)
    ensures
        restorable_only(records).len() == restorable_count(records),
        restorable_count(restorable_only(records)) == restorable_count(records),
        forall|k: int|
            0 <= k < restorable_count(records) ==> #[trigger] restorable_only(records)[k]
                == records[restorable_positions(records)[k]],
        forall|k: int|
            0 <= k < restorable_count(records) ==> #[trigger] restorable_positions(
                restorable_only(records),
            )[k] == k,
    decreases records.len(),
{
    if records.len() > 0 {
        let head = records.drop_last();
        lemma_restorable_only(head);
        lemma_restorable_positions(head);
        let kept = restorable_only(records);
        if records.last().restorable() {
            assert(kept.drop_last() =~= restorable_only(head));
            assert(kept.last() == records.last());
            assert forall|k: int| 0 <= k < restorable_count(records) implies #[trigger] kept[k]
                == records[restorable_positions(records)[k]] by {
                if k < restorable_count(head) {
                    assert(kept[k] == restorable_only(head)[k]);
                    assert(head[restorable_positions(head)[k]] == records[restorable_positions(
                        head,
                    )[k]]);
                }
            }
            assert forall|k: int| 0 <= k < restorable_count(records) implies #[trigger] restorable_positions(
                kept,
            )[k] == k by {
                if k < restorable_count(head) {
                    assert(restorable_positions(kept)[k] == restorable_positions(
                        restorable_only(head),
                    )[k]);
                }
            }
        } else {
            assert forall|k: int| 0 <= k < restorable_count(records) implies #[trigger] kept[k]
                == records[restorable_positions(records)[k]] by {
                assert(head[restorable_positions(head)[k]] == records[restorable_positions(
                    head,
                )[k]]);
            }
        }
    }
}

impl DeletionLog {
    /// Counts the records that can be undone.
    pub fn count_restorable(&self) -> (count: usize)
        ensures
            count == restorable_count(self.records@),
    {
        let mut count: usize = 0;
        let mut at: usize = 0;
        while at < self.records.len()
            invariant
                at <= self.records.len(),
                count == restorable_count(self.records@.take(at as int)),
                count <= at,
            decreases self.records.len() - at,
        {
            proof {
                assert(self.records@.take(at + 1).drop_last() == self.records@.take(at as int));
            }
            if self.records[at].is_restorable() {
                count = count + 1;
            }
            at = at + 1;
        }
        proof {
            assert(self.records@.take(at as int) == self.records@);
        }
        count
    }
}

/// How many items the most recent session left to restore: none where the
/// history holds no session.
pub fn get_restore_count(latest: Option<&DeletionLog>) -> (count: usize)
    ensures
        count == match latest {
            Some(log) => restorable_count(log.records@),
            None => 0,
        },
{
    match latest {
        Some(log) => log.count_restorable(),
        None => 0,
    }
}

/// Does the session stored at position `a` come before the one at position
/// `b` when sessions are listed? The newer one does; of two created at the
/// same time, the one stored first does.
pub open spec fn listed_before(created: Seq<u64>, a: int, b: int) -> bool {
    created[a] > created[b] || (created[a] == created[b] && a < b)
}

/// Is the session stored at position `at` in the listing?
pub open spec fn lists(order: Seq<usize>, at: int) -> bool {
    exists|i: int| 0 <= i < order.len() && #[trigger] order[i] == at
}

/// `order` lists the first `count` stored sessions, each once, newest first.
pub open spec fn lists_newest_first(order: Seq<usize>, created: Seq<u64>, count: int) -> bool {
    &&& order.len() == count
    &&& forall|i: int| 0 <= i < order.len() ==> (#[trigger] order[i]) < count
    &&& forall|at: int| 0 <= at < count ==> #[trigger] lists(order, at)
    &&& forall|i: int, j: int|
        0 <= i < j < order.len() ==> listed_before(
            created,
            (#[trigger] order[i]) as int,
            (#[trigger] order[j]) as int,
        )
}

/// Lists the stored sessions newest first. `created` holds the creation time
/// of each stored session, in the order they were stored; the result holds
/// their positions in `created`, the most recent session first. An empty
/// history gives an empty list.
pub fn list_logs(created: &Vec<u64>) -> (order: Vec<usize>)
    ensures
        lists_newest_first(order@, created@, created@.len() as int),
{
    let mut order: Vec<usize> = Vec::new();
    let mut at: usize = 0;
    while at < created.len()
        invariant
            at <= created.len(),
            lists_newest_first(order@, created@, at as int),
        decreases created.len() - at,
    {
        let mut place: usize = 0;
        while place < order.len() && created[order[place]] >= created[at]
            invariant
                at < created.len(),
                place <= order.len(),
                lists_newest_first(order@, created@, at as int),
                forall|i: int| 0 <= i < place ==> created@[(#[trigger] order@[i]) as int] >= created@[at as int],
            decreases order.len() - place,
        {
            place = place + 1;
        }
        let ghost before = order@;
        order.insert(place, at);
        proof {
            let after = order@;
            assert forall|i: int| 0 <= i < after.len() implies (#[trigger] after[i]) < at + 1 by {
                if i < place {
                    assert(after[i] == before[i]);
                } else if i > place {
                    assert(after[i] == before[i - 1]);
                }
            }
            assert forall|wanted: int| 0 <= wanted < at + 1 implies #[trigger] lists(
                after,
                wanted,
            ) by {
                if wanted == at {
                    assert(after[place as int] == wanted);
                } else {
                    assert(lists(before, wanted));
                    let i = choose|i: int| 0 <= i < before.len() && #[trigger] before[i] == wanted;
                    if i < place {
                        assert(after[i] == wanted);
                    } else {
                        assert(after[i + 1] == wanted);
                    }
                }
            }
            assert forall|i: int, j: int| 0 <= i < j < after.len() implies listed_before(
                created@,
                (#[trigger] after[i]) as int,
                (#[trigger] after[j]) as int,
            ) by {
                if j < place {
                    assert(after[i] == before[i] && after[j] == before[j]);
                } else if j == place {
                    assert(after[i] == before[i]);
                    assert(before[i] < at);
                } else if i < place {
                    assert(after[i] == before[i] && after[j] == before[j - 1]);
                } else if i == place {
                    assert(after[j] == before[j - 1]);
                    assert(listed_before(created@, before[place as int] as int, before[j - 1] as int)
                        || j - 1 == place);
                } else {
                    assert(after[i] == before[i - 1] && after[j] == before[j - 1]);
                }
            }
        }
        at = at + 1;
    }
    order
}

/// The stored position of the most recent session, which is the one a
/// restoration takes unless told otherwise: the newest, and of several
/// created at the same time the one stored first. `None` where the history
/// holds no session.
pub fn latest_session(created: &Vec<u64>) -> (latest: Option<usize>)
    ensures
        match latest {
            Some(at) => at < created@.len() && forall|j: int|
                0 <= j < created@.len() && j != at ==> #[trigger] listed_before(
                    created@,
                    at as int,
                    j,
                ),
            None => created@.len() == 0,
        },
{
    if created.len() == 0 {
        return None;
    }
    let mut best: usize = 0;
    let mut at: usize = 1;
    while at < created.len()
        invariant
            1 <= at <= created.len(),
            best < at,
            forall|j: int|
                0 <= j < at && j != best ==> #[trigger] listed_before(created@, best as int, j),
        decreases created.len() - at,
    {
        if created[at] > created[best] {
            proof {
                assert forall|j: int| 0 <= j < at + 1 && j != at implies #[trigger] listed_before(
                    created@,
                    at as int,
                    j,
                ) by {
                    if j != best {
                        assert(listed_before(created@, best as int, j));
                    }
                }
            }
            best = at;
        }
        at = at + 1;
    }
    Some(best)
}

/// The most recent session is the one listed first.
pub proof fn lemma_latest_is_listed_first(order: Seq<usize>, created: Seq<u64>, latest: int)
    requires
        lists_newest_first(order, created, created.len() as int),
        0 <= latest < created.len(),
        forall|j: int|
            0 <= j < created.len() && j != latest ==> #[trigger] listed_before(created, latest, j),
    ensures
        order[0] == latest,
{
    assert(lists(order, latest));
    let place = choose|i: int| 0 <= i < order.len() && #[trigger] order[i] == latest;
    if place > 0 {
        assert(listed_before(created, order[0] as int, order[place] as int));
        assert(listed_before(created, latest, order[0] as int));
    }
}

/// A listing is settled by the creation times alone: two listings of the same
/// history are the same.
pub proof fn lemma_listing_is_unique(first: Seq<usize>, second: Seq<usize>, created: Seq<u64>)
    requires
        lists_newest_first(first, created, created.len() as int),
        lists_newest_first(second, created, created.len() as int),
    ensures
        first == second,
{
    assert forall|i: int| 0 <= i < first.len() implies first[i] == second[i] by {
        lemma_listing_agrees(first, second, created, i);
    }
    assert(first =~= second);
}

/// Two listings of the same history agree at every place.
proof fn lemma_listing_agrees(first: Seq<usize>, second: Seq<usize>, created: Seq<u64>, at: int)
    requires
        lists_newest_first(first, created, created.len() as int),
        lists_newest_first(second, created, created.len() as int),
        0 <= at < first.len(),
    ensures
        first[at] == second[at],
    decreases at,
{
    assert forall|i: int| 0 <= i < at implies first[i] == second[i] by {
        lemma_listing_agrees(first, second, created, i);
    }
    let a = first[at];
    let b = second[at];
    if a != b {
        // `a` stands somewhere in `second`, and not before `at`.
        assert(lists(second, a as int));
        assert(lists(first, b as int));
        let ja = choose|j: int| 0 <= j < second.len() && #[trigger] second[j] == a as int;
        let jb = choose|j: int| 0 <= j < first.len() && #[trigger] first[j] == b as int;
        if ja < at {
            assert(first[ja] == second[ja]);
            assert(listed_before(created, first[ja] as int, first[at] as int));
        }
        if jb < at {
            assert(first[jb] == second[jb]);
            assert(listed_before(created, second[jb] as int, second[at] as int));
        }
        assert(ja > at);
        assert(jb > at);
        assert(listed_before(created, second[at] as int, second[ja] as int));
        assert(listed_before(created, first[at] as int, first[jb] as int));
    }
}

} // verus!
