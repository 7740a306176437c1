//! The live contents of the trash store, as one enumeration found them, and
//! the index under which a reconciliation pass looks entries up.

use vstd::prelude::*;
use crate::paths::{normalize_path, normalized, PathStyle};
use crate::text::starts_with;

verus! {

/// What the trash store tells of one entry: the directory the item was removed
/// from and the item's own name. An entry is known by its place in the
/// enumeration it came from.
#[derive(Debug)]
pub struct TrashEntry {
    /// The directory the item was in.
    pub original_parent: String,
    /// The item's name within that directory.
    pub name: String,
}

/// Adjoins `name` to `parent` as the platform's paths do.
///
/// Trusted: stands for `std::path::Path::join`, with the result rendered as
/// text. What joining yields depends on the platform's separators and on
/// whether `name` is absolute there, so nothing is claimed of it.
#[verifier::external_body]
fn join_path(parent: &str, name: &str) -> String {
    std::path::Path::new(parent).join(name).display().to_string()
}

impl TrashEntry {
    /// The place the item was removed from: its name adjoined to its parent.
    pub fn original_path(&self) -> String {
        join_path(self.original_parent.as_str(), self.name.as_str())
    }
}

/// The original path of every entry, in enumeration order.
pub fn original_paths(entries: &Vec<TrashEntry>) -> (paths: Vec<String>)
    ensures
        paths@.len() == entries@.len(),
{
    let mut paths: Vec<String> = Vec::new();
    let mut at: usize = 0;
    while at < entries.len()
        invariant
            at <= entries.len(),
            paths@.len() == at,
        decreases entries.len() - at,
    {
        paths.push(entries[at].original_path());
        at = at + 1;
    }
    paths
}

/// The compared form of every path of an enumeration.
pub open spec fn normalized_all(paths: Seq<String>, style: PathStyle) -> Seq<Seq<char>> {
    Seq::new(paths.len(), |i: int| normalized(paths[i]@, style))
}

/// One line of the index: a compared path and the enumeration position of the
/// entry filed under it.
pub type Slot = (Seq<char>, usize);

/// Is some entry filed under `key`?
pub open spec fn files(slots: Seq<Slot>, key: Seq<char>) -> bool {
    exists|j: int| 0 <= j < slots.len() && (#[trigger] slots[j]).0 == key
}

/// Is `entry` the entry filed under `key`?
pub open spec fn files_as(slots: Seq<Slot>, key: Seq<char>, entry: usize) -> bool {
    exists|j: int| 0 <= j < slots.len() && #[trigger] slots[j] == (key, entry)
}

/// No two lines share a compared path.
pub open spec fn distinct_keys(slots: Seq<Slot>) -> bool {
    forall|j: int, k: int|
        0 <= j < k < slots.len() ==> (#[trigger] slots[j]).0 != (#[trigger] slots[k]).0
}

/// Does `key` occur in `listed` before position `bound`?
pub open spec fn occurs_before(listed: Seq<Seq<char>>, key: Seq<char>, bound: int) -> bool {
    exists|h: int| 0 <= h < bound && #[trigger] listed[h] == key
}

/// The lines stand in the order in which their paths first occur in the
/// enumeration.
pub open spec fn in_first_seen_order(slots: Seq<Slot>, listed: Seq<Seq<char>>) -> bool {
    forall|j: int, k: int, i: int|
        0 <= j < k < slots.len() && 0 <= i < listed.len() && #[trigger] listed[i]
            == (#[trigger] slots[k]).0 ==> occurs_before(listed, (#[trigger] slots[j]).0, i)
}

/// `slots` is the index of the enumeration whose compared paths are `listed`:
/// every compared path has one line, the line holds the last entry that has
/// that path, and the lines stand in the order in which their paths first
/// occur.
pub open spec fn indexes(slots: Seq<Slot>, listed: Seq<Seq<char>>) -> bool {
    &&& distinct_keys(slots)
    &&& in_first_seen_order(slots, listed)
    &&& forall|j: int|
        0 <= j < slots.len() ==> (#[trigger] slots[j]).1 < listed.len() && listed[slots[j].1 as int]
            == slots[j].0
    &&& forall|j: int, i: int|
        0 <= j < slots.len() && slots[j].1 < i < listed.len() ==> #[trigger] listed[i]
            != (#[trigger] slots[j]).0
    &&& forall|i: int| 0 <= i < listed.len() ==> files(slots, #[trigger] listed[i])
}

/// The entries filed under paths that begin with `prefix`, in index order.
pub open spec fn entries_under(slots: Seq<Slot>, prefix: Seq<char>) -> Seq<usize>
    decreases slots.len(),
{
    if slots.len() == 0 {
        Seq::empty()
    } else {
        let before = entries_under(slots.drop_last(), prefix);
        if prefix.is_prefix_of(slots.last().0) {
            before.push(slots.last().1)
        } else {
            before
        }
    }
}

/// The index of one enumeration of the trash store. It is built once per
/// reconciliation pass and read only.
pub struct TrashIndex {
    keys: Vec<String>,
    entries: Vec<usize>,
}

impl View for TrashIndex {
    type V = Seq<Slot>;

    closed spec fn view(&self) -> Seq<Slot> {
        Seq::new(self.keys@.len(), |j: int| (self.keys@[j]@, self.entries@[j]))
    }
}

impl TrashIndex {
    #[verifier::type_invariant]
    spec fn same_length(&self) -> bool {
        self.keys@.len() == self.entries@.len()
    }

    /// Indexes an enumeration, given the original path of each entry in
    /// enumeration order. Where several entries share a compared path, the
    /// last of them is filed.
    pub fn build(paths: &Vec<String>, style: PathStyle) -> (index: TrashIndex)
        ensures
            indexes(index@, normalized_all(paths@, style)),
            index@.len() <= paths@.len(),
    {
        let mut keys: Vec<String> = Vec::new();
        let mut entries: Vec<usize> = Vec::new();
        let ghost listed = normalized_all(paths@, style);
        let mut at: usize = 0;
        while at < paths.len()
            invariant
                at <= paths.len(),
                listed == normalized_all(paths@, style),
                keys@.len() == entries@.len(),
                keys@.len() <= at,
                indexes(
                    Seq::new(keys@.len(), |j: int| (keys@[j]@, entries@[j])),
                    listed.take(at as int),
                ),
            decreases paths.len() - at,
        {
            let ghost before = Seq::new(keys@.len(), |j: int| (keys@[j]@, entries@[j]));
            let key = normalize_path(paths[at].as_str(), style);
            assert(key@ == listed[at as int]);
            let mut found: Option<usize> = None;
            let mut j: usize = 0;
            while j < keys.len() && found.is_none()
                invariant
                    j <= keys.len(),
                    found is None ==> forall|k: int| 0 <= k < j ==> keys@[k]@ != key@,
                    found matches Some(k) ==> k < keys.len() && keys@[k as int]@ == key@,
                decreases keys.len() - j + (if found is None { 1int } else { 0int }),
            {
                if keys[j] == key {
                    found = Some(j);
                } else {
                    j = j + 1;
                }
            }
            match found {
                Some(k) => {
                    entries.set(k, at);
                },
                None => {
                    keys.push(key);
                    entries.push(at);
                },
            }
            proof {
                let after = Seq::new(keys@.len(), |j: int| (keys@[j]@, entries@[j]));
                let seen = listed.take(at as int);
                let next = listed.take(at + 1);
                assert forall|i: int| 0 <= i < seen.len() implies seen[i] == next[i] by {}
                assert(next[at as int] == listed[at as int]);
                match found {
                    Some(k) => {
                        assert(after =~= before.update(k as int, (listed[at as int], at)));
                        assert(before[k as int].0 == listed[at as int]);
                        assert forall|i: int| 0 <= i < next.len() implies files(
                            after,
                            #[trigger] next[i],
                        ) by {
                            if i < at {
                                assert(files(before, seen[i]));
                                let w = choose|w: int|
                                    0 <= w < before.len() && (#[trigger] before[w]).0 == seen[i];
                                assert(after[w].0 == next[i]);
                            } else {
                                assert(after[k as int].0 == next[i]);
                            }
                        }
                        assert forall|a: int, i: int|
                            0 <= a < after.len() && after[a].1 < i < next.len() implies #[trigger] next[i]
                                != (#[trigger] after[a]).0 by {
                            if a != k {
                                assert(after[a] == before[a]);
                                if i < at {
                                    assert(seen[i] != before[a].0);
                                } else {
                                    assert(before[a].0 != before[k as int].0);
                                }
                            }
                        }
                        assert forall|a: int| 0 <= a < after.len() implies (#[trigger] after[a]).1
                            < next.len() && next[after[a].1 as int] == after[a].0 by {
                            if a != k {
                                assert(after[a] == before[a]);
                            }
                        }
                        assert forall|a: int, b: int| 0 <= a < b < after.len() implies (
                        #[trigger] after[a]).0 != (#[trigger] after[b]).0 by {
                            assert(after[a].0 == before[a].0);
                            assert(after[b].0 == before[b].0);
                        }
                        assert forall|a: int, b: int, i: int|
                            0 <= a < b < after.len() && 0 <= i < next.len() && #[trigger] next[i]
                                == (#[trigger] after[b]).0 implies occurs_before(
                            next,
                            (#[trigger] after[a]).0,
                            i,
                        ) by {
                            assert(after[a].0 == before[a].0);
                            assert(after[b].0 == before[b].0);
                            if i < at {
                                assert(seen[i] == before[b].0);
                                assert(occurs_before(seen, before[a].0, i));
                                let h = choose|h: int| 0 <= h < i && #[trigger] seen[h] == before[a].0;
                                assert(next[h] == after[a].0);
                            } else {
                                assert(next[before[a].1 as int] == after[a].0);
                            }
                        }
                    },
                    None => {
                        assert(after =~= before.push((listed[at as int], at)));
                        assert forall|i: int| 0 <= i < next.len() implies files(
                            after,
                            #[trigger] next[i],
                        ) by {
                            if i < at {
                                assert(files(before, seen[i]));
                                let w = choose|w: int|
                                    0 <= w < before.len() && (#[trigger] before[w]).0 == seen[i];
                                assert(after[w].0 == next[i]);
                            } else {
                                assert(after[before.len() as int].0 == next[i]);
                            }
                        }
                        assert forall|a: int, i: int|
                            0 <= a < after.len() && after[a].1 < i < next.len() implies #[trigger] next[i]
                                != (#[trigger] after[a]).0 by {
                            if a < before.len() {
                                assert(after[a] == before[a]);
                                if i < at {
                                    assert(seen[i] != before[a].0);
                                } else {
                                    assert(keys@[a]@ == before[a].0);
                                }
                            }
                        }
                        assert forall|a: int| 0 <= a < after.len() implies (#[trigger] after[a]).1
                            < next.len() && next[after[a].1 as int] == after[a].0 by {
                            if a < before.len() {
                                assert(after[a] == before[a]);
                            }
                        }
                        assert forall|a: int, b: int| 0 <= a < b < after.len() implies (
                        #[trigger] after[a]).0 != (#[trigger] after[b]).0 by {
                            assert(after[a] == before[a]);
                            if b < before.len() {
                                assert(after[b] == before[b]);
                            } else {
                                assert(before[a].0 == keys@[a]@);
                            }
                        }
                        assert forall|a: int, b: int, i: int|
                            0 <= a < b < after.len() && 0 <= i < next.len() && #[trigger] next[i]
                                == (#[trigger] after[b]).0 implies occurs_before(
                            next,
                            (#[trigger] after[a]).0,
                            i,
                        ) by {
                            assert(after[a] == before[a]);
                            if i < at {
                                assert(files(before, seen[i]));
                                if b < before.len() {
                                    assert(after[b] == before[b]);
                                    assert(occurs_before(seen, before[a].0, i));
                                    let h = choose|h: int|
                                        0 <= h < i && #[trigger] seen[h] == before[a].0;
                                    assert(next[h] == after[a].0);
                                } else {
                                    let w = choose|w: int|
                                        0 <= w < before.len() && (#[trigger] before[w]).0 == seen[i];
                                    assert(keys@[w]@ == before[w].0);
                                }
                            } else {
                                if b < before.len() {
                                    assert(after[b] == before[b]);
                                    assert(keys@[b]@ == before[b].0);
                                }
                                assert(next[before[a].1 as int] == after[a].0);
                            }
                        }
                    },
                }
            }
            at = at + 1;
        }
        proof {
            assert(listed.take(at as int) == listed);
        }
        TrashIndex { keys, entries }
    }

    /// The number of distinct compared paths.
    pub fn len(&self) -> (count: usize)
        ensures
            count == self@.len(),
    {
        self.keys.len()
    }

    /// The entry filed under exactly `key`, if there is one.
    pub fn find(&self, key: &String) -> (found: Option<usize>)
        ensures
            match found {
                Some(entry) => files_as(self@, key@, entry),
                None => !files(self@, key@),
            },
    {
        proof {
            use_type_invariant(self);
        }
        let mut j: usize = 0;
        while j < self.keys.len()
            invariant
                j <= self.keys.len(),
                self.keys@.len() == self.entries@.len(),
                forall|k: int| 0 <= k < j ==> (#[trigger] self@[k]).0 != key@,
            decreases self.keys.len() - j,
        {
            if self.keys[j] == *key {
                assert(self@[j as int] == (key@, self.entries@[j as int]));
                return Some(self.entries[j]);
            }
            j = j + 1;
        }
        None
    }

    /// The entries filed under paths that begin with `prefix`.
    pub fn under(&self, prefix: &str) -> (found: Vec<usize>)
        ensures
            found@ == entries_under(self@, prefix@),
    {
        proof {
            use_type_invariant(self);
        }
        let mut found: Vec<usize> = Vec::new();
        let mut j: usize = 0;
        while j < self.keys.len()
            invariant
                j <= self.keys.len(),
                self.keys@.len() == self.entries@.len(),
                found@ == entries_under(self@.take(j as int), prefix@),
            decreases self.keys.len() - j,
        {
            proof {
                assert(self@.take(j + 1).drop_last() == self@.take(j as int));
                assert(self@.take(j + 1).last() == self@[j as int]);
            }
            if starts_with(self.keys[j].as_str(), prefix) {
                found.push(self.entries[j]);
            }
            j = j + 1;
        }
        proof {
            assert(self@.take(j as int) == self@);
        }
        found
    }
}

/// An entry is found under a prefix exactly when its line's path begins with
/// the prefix; no more entries are found than the index has lines.
pub proof fn lemma_entries_under(slots: Seq<Slot>, prefix: Seq<char>)
    ensures
        entries_under(slots, prefix).len() <= slots.len(),
        forall|entry: usize|
            entries_under(slots, prefix).contains(entry) <==> exists|j: int|
                0 <= j < slots.len() && prefix.is_prefix_of((#[trigger] slots[j]).0) && slots[j].1
                    == entry,
    decreases slots.len(),
{
    if slots.len() > 0 {
        let head = slots.drop_last();
        lemma_entries_under(head, prefix);
        let before = entries_under(head, prefix);
        let all = entries_under(slots, prefix);
        assert forall|entry: usize| all.contains(entry) <==> exists|j: int|
            0 <= j < slots.len() && prefix.is_prefix_of((#[trigger] slots[j]).0) && slots[j].1
                == entry by {
            if all.contains(entry) {
                let at = choose|at: int| 0 <= at < all.len() && all[at] == entry;
                if at < before.len() {
                    assert(before[at] == entry);
                    assert(before.contains(entry));
                    let j = choose|j: int|
                        0 <= j < head.len() && prefix.is_prefix_of((#[trigger] head[j]).0)
                            && head[j].1 == entry;
                    assert(slots[j] == head[j]);
                } else {
                    assert(slots[slots.len() - 1].1 == entry);
                }
            }
            if exists|j: int|
                0 <= j < slots.len() && prefix.is_prefix_of((#[trigger] slots[j]).0) && slots[j].1
                    == entry {
                let j = choose|j: int|
                    0 <= j < slots.len() && prefix.is_prefix_of((#[trigger] slots[j]).0)
                        && slots[j].1 == entry;
                if j < head.len() {
                    assert(head[j] == slots[j]);
                    assert(before.contains(entry));
                    let at = choose|at: int| 0 <= at < before.len() && before[at] == entry;
                    assert(all[at] == entry);
                } else {
                    assert(all[all.len() - 1] == entry);
                }
            }
        }
    } else {
        assert forall|entry: usize| !entries_under(slots, prefix).contains(entry) by {}
    }
}

/// Of two paths, one occurs first: they cannot each occur before every
/// occurrence of the other.
proof fn lemma_one_occurs_first(
    listed: Seq<Seq<char>>,
    one: Seq<char>,
    other: Seq<char>,
    bound: int,
)
    requires
        forall|i: int|
            0 <= i < listed.len() && #[trigger] listed[i] == one ==> occurs_before(listed, other, i),
        forall|i: int|
            0 <= i < listed.len() && #[trigger] listed[i] == other ==> occurs_before(listed, one, i),
        0 <= bound <= listed.len(),
    ensures
        forall|i: int| 0 <= i < bound ==> #[trigger] listed[i] != one && listed[i] != other,
    decreases bound,
{
    if bound > 0 {
        lemma_one_occurs_first(listed, one, other, bound - 1);
        let last = bound - 1;
        if listed[last] == one {
            assert(occurs_before(listed, other, last));
        }
        if listed[last] == other {
            assert(occurs_before(listed, one, last));
        }
    }
}

/// Every path of `slots` is a path of `other`, and occurs in `listed`.
spec fn keys_shared(slots: Seq<Slot>, other: Seq<Slot>, listed: Seq<Seq<char>>) -> bool {
    forall|j: int|
        0 <= j < slots.len() ==> files(other, (#[trigger] slots[j]).0) && occurs_before(
            listed,
            slots[j].0,
            listed.len() as int,
        )
}

/// Two lists of lines over the same paths, each in first-seen order, hold
/// the same path at every place.
proof fn lemma_keys_agree(first: Seq<Slot>, second: Seq<Slot>, listed: Seq<Seq<char>>, at: int)
    requires
        distinct_keys(first),
        distinct_keys(second),
        in_first_seen_order(first, listed),
        in_first_seen_order(second, listed),
        keys_shared(first, second, listed),
        keys_shared(second, first, listed),
        0 <= at < first.len(),
    ensures
        at < second.len(),
        first[at].0 == second[at].0,
    decreases at,
{
    assert forall|j: int| 0 <= j < at implies j < second.len() && first[j].0 == second[j].0 by {
        lemma_keys_agree(first, second, listed, j);
    }
    let key = first[at].0;
    assert(files(second, first[at].0));
    let found = choose|j: int| 0 <= j < second.len() && (#[trigger] second[j]).0 == key;
    if found < at {
        assert(first[found].0 == second[found].0);
        assert(first[found].0 != first[at].0);
    } else if found > at {
        let rival = second[at].0;
        assert(files(first, second[at].0));
        let back = choose|j: int| 0 <= j < first.len() && (#[trigger] first[j]).0 == rival;
        if back < at {
            assert(first[back].0 == second[back].0);
            assert(second[back].0 != second[at].0);
        }
        assert(back != at);
        assert forall|i: int| 0 <= i < listed.len() && #[trigger] listed[i] == key implies
            occurs_before(listed, rival, i) by {
            assert(listed[i] == second[found].0);
            assert(second[at].0 == rival);
        }
        assert forall|i: int| 0 <= i < listed.len() && #[trigger] listed[i] == rival implies
            occurs_before(listed, key, i) by {
            assert(listed[i] == first[back].0);
            assert(first[at].0 == key);
        }
        lemma_one_occurs_first(listed, key, rival, listed.len() as int);
        assert(occurs_before(listed, first[at].0, listed.len() as int));
    }
}

/// An index shares its paths with any other index of the same enumeration.
proof fn lemma_keys_are_shared(slots: Seq<Slot>, other: Seq<Slot>, listed: Seq<Seq<char>>)
    requires
        indexes(slots, listed),
        indexes(other, listed),
    ensures
        keys_shared(slots, other, listed),
{
    assert forall|j: int| 0 <= j < slots.len() implies files(other, (#[trigger] slots[j]).0)
        && occurs_before(listed, slots[j].0, listed.len() as int) by {
        let entry = slots[j].1 as int;
        assert(listed[entry] == slots[j].0);
        assert(files(other, listed[entry]));
    }
}

/// An enumeration has one index: what [`TrashIndex::build`] returns is
/// settled by the paths it is given.
pub proof fn lemma_index_is_unique(first: Seq<Slot>, second: Seq<Slot>, listed: Seq<Seq<char>>)
    requires
        indexes(first, listed),
        indexes(second, listed),
    ensures
        first == second,
{
    lemma_keys_are_shared(first, second, listed);
    lemma_keys_are_shared(second, first, listed);
    if first.len() > 0 {
        lemma_keys_agree(first, second, listed, first.len() - 1);
    }
    if second.len() > 0 {
        lemma_keys_agree(second, first, listed, second.len() - 1);
    }
    assert forall|j: int| 0 <= j < first.len() implies first[j] == second[j] by {
        lemma_keys_agree(first, second, listed, j);
        // Both lines hold the last entry with this path.
        let ours = first[j].1 as int;
        let theirs = second[j].1 as int;
        assert(listed[ours] == first[j].0);
        assert(listed[theirs] == second[j].0);
        if theirs < ours {
            assert(listed[ours] != second[j].0);
        }
        if ours < theirs {
            assert(listed[theirs] != first[j].0);
        }
    }
    assert(first =~= second);
}

} // verus!
