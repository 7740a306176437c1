//! Matching: which live trash entries stand for a deleted item. A file is
//! found under its own path; a directory is not in the trash store as such and
//! is found through the entries that were inside it.

use vstd::prelude::*;
use crate::history::{
    lemma_positions_ignore_unrestorable, lemma_restorable_only, lemma_restorable_positions,
    restorable_count, restorable_only, restorable_positions, DeletionLog, DeletionRecord,
};
use crate::paths::{as_directory_prefix, directory_prefix, normalize_path, normalized, PathStyle};
use crate::text::starts_with;
use crate::trash::{
    distinct_keys, entries_under, files, files_as, indexes, lemma_entries_under, Slot, TrashIndex,
};

verus! {

/// The trash entries to restore for one deleted item.
#[derive(Debug)]
pub struct Target {
    /// Whether the item's own path is in the trash store. `entries` then holds
    /// that one entry.
    pub exact: bool,
    /// Enumeration positions of the entries to restore, in the order in which
    /// they are tried. Empty where nothing of the item is in the trash store.
    pub entries: Vec<usize>,
}

/// One restorable record together with what was found for it.
#[derive(Debug)]
pub struct PlannedRecord {
    /// The record's position in its log.
    pub record: usize,
    /// The size the record logged.
    pub size_bytes: u64,
    /// The entries that stand for the record.
    pub target: Target,
}

/// What a reconciliation pass will attempt: one item per restorable record, in
/// log order.
#[derive(Debug)]
pub struct RestorePlan {
    pub items: Vec<PlannedRecord>,
}

/// The number of restore attempts a plan holds.
pub open spec fn planned_attempts(items: Seq<PlannedRecord>) -> nat
    decreases items.len(),
{
    if items.len() == 0 {
        0
    } else {
        planned_attempts(items.drop_last()) + items.last().target.entries@.len()
    }
}

/// The logged sizes of the records that a plan has entries for, added up. No
/// run of the plan restores more.
pub open spec fn planned_bytes(items: Seq<PlannedRecord>) -> nat
    decreases items.len(),
{
    if items.len() == 0 {
        0
    } else {
        planned_bytes(items.drop_last()) + if items.last().target.entries@.len() > 0 {
            items.last().size_bytes as nat
        } else {
            0nat
        }
    }
}

/// The counts of any run of the plan fit the machine's integers: at worst
/// every attempt fails, at best every record with an entry is restored.
pub open spec fn within_limits(items: Seq<PlannedRecord>) -> bool {
    items.len() <= usize::MAX && planned_attempts(items) <= usize::MAX && planned_bytes(items)
        <= u64::MAX
}

/// Taking fewer records of a plan takes no more attempts and no more bytes.
pub proof fn lemma_planned_prefix(items: Seq<PlannedRecord>, count: int)
    requires
        0 <= count <= items.len(),
    ensures
        planned_attempts(items.take(count)) <= planned_attempts(items),
        planned_bytes(items.take(count)) <= planned_bytes(items),
    decreases items.len(),
{
    if count < items.len() {
        lemma_planned_prefix(items.drop_last(), count);
        assert(items.drop_last().take(count) == items.take(count));
    } else {
        assert(items.take(count) == items);
    }
}

impl RestorePlan {
    /// Do the counts of any run of this plan fit the machine's integers?
    pub fn fits(&self) -> (yes: bool)
        ensures
            yes == within_limits(self.items@),
    {
        let mut attempts: usize = 0;
        let mut bytes: u64 = 0;
        let mut at: usize = 0;
        while at < self.items.len()
            invariant
                at <= self.items.len(),
                attempts == planned_attempts(self.items@.take(at as int)),
                bytes == planned_bytes(self.items@.take(at as int)),
            decreases self.items.len() - at,
        {
            proof {
                assert(self.items@.take(at + 1).drop_last() == self.items@.take(at as int));
                assert(self.items@.take(at + 1).last() == self.items@[at as int]);
                lemma_planned_prefix(self.items@, at + 1);
            }
            let item = &self.items[at];
            if item.target.entries.len() > usize::MAX - attempts {
                return false;
            }
            attempts = attempts + item.target.entries.len();
            if item.target.entries.len() > 0 {
                if item.size_bytes > u64::MAX - bytes {
                    return false;
                }
                bytes = bytes + item.size_bytes;
            }
            at = at + 1;
        }
        proof {
            assert(self.items@.take(at as int) == self.items@);
        }
        true
    }
}

/// `target` is what the index holds for the compared path `key`: the entry
/// filed under `key` itself or, failing that, every entry filed under a path
/// inside the directory `key`.
pub open spec fn targets(target: Target, slots: Seq<Slot>, key: Seq<char>) -> bool {
    &&& target.exact == files(slots, key)
    &&& target.exact ==> target.entries@.len() == 1 && files_as(slots, key, target.entries@[0])
    &&& !target.exact ==> target.entries@ == entries_under(slots, directory_prefix(key))
}

/// `item` is the plan for the record at position `at`.
pub open spec fn plans(
    item: PlannedRecord,
    records: Seq<DeletionRecord>,
    at: int,
    slots: Seq<Slot>,
    style: PathStyle,
) -> bool {
    &&& item.record == at
    &&& item.size_bytes == records[at].size_bytes
    &&& targets(item.target, slots, normalized(records[at].path@, style))
}

/// `items` is the plan for `records` against the index `slots`: the restorable
/// records, each once, in log order, and no other record.
pub open spec fn is_plan_of(
    items: Seq<PlannedRecord>,
    records: Seq<DeletionRecord>,
    slots: Seq<Slot>,
    style: PathStyle,
) -> bool {
    &&& items.len() == restorable_count(records)
    &&& forall|k: int|
        0 <= k < items.len() ==> plans(
            #[trigger] items[k],
            records,
            restorable_positions(records)[k],
            slots,
            style,
        )
}

/// Looks a compared path up: first as it stands, then as a directory.
pub fn find_target(index: &TrashIndex, key: &String) -> (target: Target)
    ensures
        targets(target, index@, key@),
{
    match index.find(key) {
        Some(entry) => {
            let mut entries: Vec<usize> = Vec::new();
            entries.push(entry);
            Target { exact: true, entries }
        },
        None => {
            let prefix = as_directory_prefix(key.as_str());
            Target { exact: false, entries: index.under(prefix.as_str()) }
        },
    }
}

/// Plans the restoration of a log against one enumeration of the trash store.
/// Records that cannot be undone are passed over without a lookup.
pub fn plan_restore(log: &DeletionLog, index: &TrashIndex, style: PathStyle) -> (plan:
    RestorePlan)
    ensures
        is_plan_of(plan.items@, log.records@, index@, style),
{
    let mut items: Vec<PlannedRecord> = Vec::new();
    let mut at: usize = 0;
    while at < log.records.len()
        invariant
            at <= log.records.len(),
            items@.len() == restorable_count(log.records@.take(at as int)),
            forall|k: int|
                0 <= k < items@.len() ==> plans(
                    #[trigger] items@[k],
                    log.records@,
                    restorable_positions(log.records@.take(at as int))[k],
                    index@,
                    style,
                ),
        decreases log.records.len() - at,
    {
        proof {
            assert(log.records@.take(at + 1).drop_last() == log.records@.take(at as int));
            assert(log.records@.take(at + 1).last() == log.records@[at as int]);
        }
        let record = &log.records[at];
        if record.is_restorable() {
            let key = normalize_path(record.path.as_str(), style);
            let target = find_target(index, &key);
            items.push(PlannedRecord { record: at, size_bytes: record.size_bytes, target });
        }
        at = at + 1;
    }
    proof {
        assert(log.records@.take(at as int) == log.records@);
    }
    RestorePlan { items }
}

/// A plan holds restorable records only, each at its place in the log.
pub proof fn lemma_plan_holds_restorable_records(
    items: Seq<PlannedRecord>,
    records: Seq<DeletionRecord>,
    slots: Seq<Slot>,
    style: PathStyle,
)
    requires
        is_plan_of(items, records, slots, style),
    ensures
        items.len() <= records.len(),
        forall|k: int|
            0 <= k < items.len() ==> (#[trigger] items[k]).record < records.len()
                && records[items[k].record as int].restorable(),
        forall|k: int, l: int|
            0 <= k < l < items.len() ==> (#[trigger] items[k]).record < (#[trigger] items[l]).record,
{
    lemma_restorable_positions(records);
    assert forall|k: int| 0 <= k < items.len() implies (#[trigger] items[k]).record
        < records.len() && records[items[k].record as int].restorable() by {
        let at = restorable_positions(records)[k];
        assert(plans(items[k], records, at, slots, style));
    }
    assert forall|k: int, l: int| 0 <= k < l < items.len() implies (#[trigger] items[k]).record < (
    #[trigger] items[l]).record by {
        assert(plans(items[k], records, restorable_positions(records)[k], slots, style));
        assert(plans(items[l], records, restorable_positions(records)[l], slots, style));
    }
}

/// A record that cannot be undone has no part in the plan: whatever it says,
/// the plan is the same.
pub proof fn lemma_unrestorable_record_is_ignored(
    items: Seq<PlannedRecord>,
    records: Seq<DeletionRecord>,
    at: int,
    other: DeletionRecord,
    slots: Seq<Slot>,
    style: PathStyle,
)
    requires
        is_plan_of(items, records, slots, style),
        0 <= at < records.len(),
        !records[at].restorable(),
        !other.restorable(),
    ensures
        is_plan_of(items, records.update(at, other), slots, style),
        forall|k: int| 0 <= k < items.len() ==> (#[trigger] items[k]).record != at,
{
    lemma_positions_ignore_unrestorable(records, at, other);
    lemma_restorable_positions(records);
    let changed = records.update(at, other);
    assert forall|k: int| 0 <= k < items.len() implies plans(
        #[trigger] items[k],
        changed,
        restorable_positions(changed)[k],
        slots,
        style,
    ) && items[k].record != at by {
        let place = restorable_positions(records)[k];
        assert(plans(items[k], records, place, slots, style));
        assert(records[place].restorable());
        assert(changed[place] == records[place]);
    }
}

/// Two plans attempt the same entries for records of the same sizes. Where
/// the records stand in their logs is left aside.
pub open spec fn alike(one: Seq<PlannedRecord>, other: Seq<PlannedRecord>) -> bool {
    &&& one.len() == other.len()
    &&& forall|k: int|
        0 <= k < one.len() ==> (#[trigger] one[k]).size_bytes == other[k].size_bytes
            && one[k].target.exact == other[k].target.exact && one[k].target.entries@
            == other[k].target.entries@
}

/// What is found for a compared path is settled by the index.
pub proof fn lemma_targets_agree(one: Target, other: Target, slots: Seq<Slot>, key: Seq<char>)
    requires
        targets(one, slots, key),
        targets(other, slots, key),
        distinct_keys(slots),
    ensures
        one.exact == other.exact,
        one.entries@ == other.entries@,
{
    if one.exact {
        let j = choose|j: int| 0 <= j < slots.len() && #[trigger] slots[j] == (key, one.entries@[0]);
        let k = choose|k: int|
            0 <= k < slots.len() && #[trigger] slots[k] == (key, other.entries@[0]);
        if j < k {
            assert(slots[j].0 != slots[k].0);
        }
        if k < j {
            assert(slots[k].0 != slots[j].0);
        }
        assert(one.entries@ =~= other.entries@);
    }
}

/// A log has one plan against an index.
pub proof fn lemma_plans_agree(
    one: Seq<PlannedRecord>,
    other: Seq<PlannedRecord>,
    records: Seq<DeletionRecord>,
    slots: Seq<Slot>,
    style: PathStyle,
)
    requires
        is_plan_of(one, records, slots, style),
        is_plan_of(other, records, slots, style),
        distinct_keys(slots),
    ensures
        alike(one, other),
        forall|k: int| 0 <= k < one.len() ==> (#[trigger] one[k]).record == other[k].record,
{
    assert forall|k: int| 0 <= k < one.len() implies (#[trigger] one[k]).size_bytes
        == other[k].size_bytes && one[k].target.exact == other[k].target.exact
        && one[k].target.entries@ == other[k].target.entries@ && one[k].record
        == other[k].record by {
        let at = restorable_positions(records)[k];
        assert(plans(one[k], records, at, slots, style));
        assert(plans(other[k], records, at, slots, style));
        lemma_targets_agree(
            one[k].target,
            other[k].target,
            slots,
            normalized(records[at].path@, style),
        );
    }
}

/// Records that cannot be undone cause no lookup: the plan for a log is like
/// the plan for the log without them.
pub proof fn lemma_unrestorable_records_change_nothing(
    whole: Seq<PlannedRecord>,
    kept: Seq<PlannedRecord>,
    records: Seq<DeletionRecord>,
    slots: Seq<Slot>,
    style: PathStyle,
)
    requires
        is_plan_of(whole, records, slots, style),
        is_plan_of(kept, restorable_only(records), slots, style),
        distinct_keys(slots),
    ensures
        alike(whole, kept),
{
    lemma_restorable_only(records);
    assert forall|k: int| 0 <= k < whole.len() implies (#[trigger] whole[k]).size_bytes
        == kept[k].size_bytes && whole[k].target.exact == kept[k].target.exact
        && whole[k].target.entries@ == kept[k].target.entries@ by {
        let at = restorable_positions(records)[k];
        let moved = restorable_positions(restorable_only(records))[k];
        assert(plans(whole[k], records, at, slots, style));
        assert(plans(kept[k], restorable_only(records), moved, slots, style));
        assert(restorable_only(records)[k] == records[at]);
        lemma_targets_agree(
            whole[k].target,
            kept[k].target,
            slots,
            normalized(records[at].path@, style),
        );
    }
}

/// Plans that are alike hold as many attempts and as many bytes.
pub proof fn lemma_alike_plans_weigh_alike(one: Seq<PlannedRecord>, other: Seq<PlannedRecord>)
    requires
        alike(one, other),
    ensures
        planned_attempts(one) == planned_attempts(other),
        planned_bytes(one) == planned_bytes(other),
        within_limits(one) == within_limits(other),
    decreases one.len(),
{
    if one.len() > 0 {
        assert(alike(one.drop_last(), other.drop_last())) by {
            assert forall|k: int| 0 <= k < one.drop_last().len() implies (
            #[trigger] one.drop_last()[k]).size_bytes == other.drop_last()[k].size_bytes
                && one.drop_last()[k].target.exact == other.drop_last()[k].target.exact
                && one.drop_last()[k].target.entries@ == other.drop_last()[k].target.entries@ by {
                assert(one.drop_last()[k] == one[k]);
                assert(other.drop_last()[k] == other[k]);
            }
        }
        lemma_alike_plans_weigh_alike(one.drop_last(), other.drop_last());
        assert(one.last() == one[one.len() - 1]);
        assert(other.last() == other[other.len() - 1]);
    }
}

/// Every entry of a plan is an entry of the enumeration that was indexed, and
/// a record found under its own path is matched to the last entry with that
/// path.
pub proof fn lemma_planned_entries_are_listed(
    target: Target,
    slots: Seq<Slot>,
    key: Seq<char>,
    listed: Seq<Seq<char>>,
)
    requires
        targets(target, slots, key),
        indexes(slots, listed),
    ensures
        forall|a: int|
            0 <= a < target.entries@.len() ==> (#[trigger] target.entries@[a]) < listed.len(),
        target.exact ==> listed[target.entries@[0] as int] == key && forall|i: int|
            target.entries@[0] < i < listed.len() ==> #[trigger] listed[i] != key,
        target.exact <==> exists|i: int| 0 <= i < listed.len() && #[trigger] listed[i] == key,
        !target.exact ==> forall|a: int|
            0 <= a < target.entries@.len() ==> directory_prefix(key).is_prefix_of(
                #[trigger] listed[target.entries@[a] as int],
            ),
        !target.exact ==> forall|i: int|
            0 <= i < listed.len() && directory_prefix(key).is_prefix_of(#[trigger] listed[i])
                ==> exists|a: int|
                0 <= a < target.entries@.len() && listed[(#[trigger] target.entries@[a]) as int]
                    == listed[i],
{
    if target.exact {
        let j = choose|j: int| 0 <= j < slots.len() && #[trigger] slots[j] == (key, target.entries@[0]);
        assert(slots[j].1 < listed.len());
        assert forall|i: int| target.entries@[0] < i < listed.len() implies #[trigger] listed[i]
            != key by {
            assert(listed[i] != slots[j].0);
        }
        assert(listed[target.entries@[0] as int] == key);
    } else {
        let prefix = directory_prefix(key);
        lemma_entries_under(slots, prefix);
        assert forall|a: int| 0 <= a < target.entries@.len() implies (#[trigger] target.entries@[a])
            < listed.len() && prefix.is_prefix_of(listed[target.entries@[a] as int]) by {
            let entry = target.entries@[a];
            assert(entries_under(slots, prefix).contains(entry));
            let j = choose|j: int|
                0 <= j < slots.len() && prefix.is_prefix_of((#[trigger] slots[j]).0) && slots[j].1
                    == entry;
            assert(slots[j].1 < listed.len());
        }
        assert forall|i: int|
            0 <= i < listed.len() && prefix.is_prefix_of(#[trigger] listed[i]) implies exists|
            a: int,
        |
            0 <= a < target.entries@.len() && listed[(#[trigger] target.entries@[a]) as int]
                == listed[i] by {
            assert(files(slots, listed[i]));
            let j = choose|j: int| 0 <= j < slots.len() && (#[trigger] slots[j]).0 == listed[i];
            assert(entries_under(slots, prefix).contains(slots[j].1));
            let a = choose|a: int|
                0 <= a < target.entries@.len() && target.entries@[a] == slots[j].1;
            assert(listed[target.entries@[a] as int] == listed[i]);
        }
        if exists|i: int| 0 <= i < listed.len() && #[trigger] listed[i] == key {
            let i = choose|i: int| 0 <= i < listed.len() && #[trigger] listed[i] == key;
            assert(files(slots, listed[i]));
        }
    }
}

/// The first position of `listed` that holds `key`, if any does.
pub open spec fn first_listed(listed: Seq<Seq<char>>, key: Seq<char>) -> Option<int> {
    if exists|i: int| 0 <= i < listed.len() && #[trigger] listed[i] == key {
        Some(
            choose|i: int|
                0 <= i < listed.len() && #[trigger] listed[i] == key && forall|h: int|
                    0 <= h < i ==> #[trigger] listed[h] != key,
        )
    } else {
        None
    }
}

/// The positions of `listed` whose paths begin with `prefix`, ascending.
pub open spec fn listed_under(listed: Seq<Seq<char>>, prefix: Seq<char>) -> Seq<usize>
    decreases listed.len(),
{
    if listed.len() == 0 {
        Seq::empty()
    } else {
        let before = listed_under(listed.drop_last(), prefix);
        if prefix.is_prefix_of(listed.last()) {
            before.push((listed.len() - 1) as usize)
        } else {
            before
        }
    }
}

/// `target` is what an enumeration with the compared paths `listed` holds for
/// the single compared path `key`: the first entry with exactly that path or,
/// failing that, every entry inside the directory `key`.
pub open spec fn targets_in_listing(target: Target, listed: Seq<Seq<char>>, key: Seq<char>) -> bool {
    &&& target.exact == (first_listed(listed, key) is Some)
    &&& target.exact ==> target.entries@.len() == 1 && first_listed(listed, key) == Some(
        target.entries@[0] as int,
    )
    &&& !target.exact ==> target.entries@ == listed_under(listed, directory_prefix(key))
}

/// Looks one path up in an enumeration, given the original path of each entry
/// in enumeration order.
pub fn find_in_listing(path: &str, paths: &Vec<String>, style: PathStyle) -> (target: Target)
    ensures
        targets_in_listing(
            target,
            crate::trash::normalized_all(paths@, style),
            normalized(path@, style),
        ),
{
    let ghost listed = crate::trash::normalized_all(paths@, style);
    let key = normalize_path(path, style);
    let mut at: usize = 0;
    while at < paths.len()
        invariant
            at <= paths.len(),
            listed == crate::trash::normalized_all(paths@, style),
            key@ == normalized(path@, style),
            forall|h: int| 0 <= h < at ==> #[trigger] listed[h] != key@,
        decreases paths.len() - at,
    {
        let candidate = normalize_path(paths[at].as_str(), style);
        assert(candidate@ == listed[at as int]);
        if candidate == key {
            let mut entries: Vec<usize> = Vec::new();
            entries.push(at);
            proof {
                let first = first_listed(listed, key@);
                assert(first is Some);
                let i = first->0;
                if i < at {
                    assert(listed[i] != key@);
                }
                if at < i {
                    assert(listed[at as int] != key@);
                }
            }
            return Target { exact: true, entries };
        }
        at = at + 1;
    }
    let prefix = as_directory_prefix(key.as_str());
    let mut entries: Vec<usize> = Vec::new();
    let mut at: usize = 0;
    while at < paths.len()
        invariant
            at <= paths.len(),
            listed == crate::trash::normalized_all(paths@, style),
            prefix@ == directory_prefix(normalized(path@, style)),
            entries@ == listed_under(listed.take(at as int), prefix@),
        decreases paths.len() - at,
    {
        proof {
            assert(listed.take(at + 1).drop_last() == listed.take(at as int));
            assert(listed.take(at + 1).last() == listed[at as int]);
        }
        let candidate = normalize_path(paths[at].as_str(), style);
        if starts_with(candidate.as_str(), prefix.as_str()) {
            entries.push(at);
        }
        at = at + 1;
    }
    proof {
        assert(listed.take(at as int) == listed);
    }
    Target { exact: false, entries }
}

} // verus!
