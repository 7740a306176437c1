//! Undoing a cleaning session: the entry points of a restoration and the
//! summary it ends with.
//!
//! Nothing here reads the trash store or the history. The caller enumerates
//! the trash store once, hands over the original path of each live entry in
//! enumeration order, and then carries out what the returned session or target
//! asks for.

use vstd::prelude::*;
use vstd::string::StringExecFns;
use crate::history::{
    lemma_restorable_positions, restorable_count, restorable_only, restorable_positions,
    DeletionLog, DeletionRecord,
};
use crate::paths::{directory_prefix, normalized, PathStyle};
use crate::plan::{
    alike, find_in_listing, first_listed, is_plan_of, lemma_alike_plans_weigh_alike,
    lemma_plans_agree, lemma_unrestorable_records_change_nothing, listed_under, plan_restore,
    planned_attempts, planned_bytes, plans, targets_in_listing, within_limits, PlannedRecord,
    Target,
};
use crate::session::{
    counted_once, lemma_counts_add_up, lemma_counts_cover_records, lemma_nothing_to_attempt,
    lemma_result_is_exact, Action, Phase, RecordOutcome, RestoreSession, SessionModel,
};
use crate::text::{decimal, decimal_string};
use crate::trash::{files, indexes, lemma_index_is_unique, normalized_all, Slot, TrashIndex};

verus! {

/// What a restoration did, in counts of deletion records.
#[derive(Clone, Copy, Debug, PartialEq, Eq, Structural)]
pub struct RestoreResult {
    /// Records that were restored. A directory of which at least one item
    /// came back counts once.
    pub restored: usize,
    /// The sizes of what was restored, added up.
    pub restored_bytes: u64,
    /// Restore attempts that found their trash entry and failed.
    pub errors: usize,
    /// Records of which nothing was left in the trash store.
    pub not_found: usize,
}

impl Default for RestoreResult {
    fn default() -> (result: RestoreResult)
        ensures
            result == (RestoreResult { restored: 0, restored_bytes: 0, errors: 0, not_found: 0 }),
    {
        RestoreResult { restored: 0, restored_bytes: 0, errors: 0, not_found: 0 }
    }
}

/// A size in words, as `bytesize::to_string` renders it: in powers of 1024
/// with `binary` set, in powers of 1000 without.
pub uninterp spec fn size_text(bytes: u64, binary: bool) -> Seq<char>;

/// The size from which on a unit prefix is used.
pub open spec fn size_unit(binary: bool) -> nat {
    if binary {
        1024
    } else {
        1000
    }
}

/// Renders a size for reading.
///
/// Trusted: stands for `bytesize::to_string`. Below one unit the crate writes
/// the number of bytes in decimal, a space and `B`, which is stated. From one
/// unit on it scales the size in floating point and writes one decimal place
/// and a unit; of that the contract only names the result.
#[verifier::external_body]
fn size_to_text(bytes: u64, binary: bool) -> (out: String)
    ensures
        out@ == size_text(bytes, binary),
        bytes < size_unit(binary) ==> out@ == decimal(bytes as nat).push(' ').push('B'),
{
    bytesize::to_string(bytes, binary)
}

/// The one-line summary of a result, with the restored size already in words.
pub open spec fn summary_text(result: RestoreResult, size: Seq<char>) -> Seq<char> {
    "Restored "@ + decimal(result.restored as nat) + " items ("@ + size + "), "@ + decimal(
        result.errors as nat,
    ) + " errors, "@ + decimal(result.not_found as nat) + " not found"@
}

impl RestoreResult {
    /// The summary line around a size that is already in words.
    pub fn summary_with_size(&self, size: &str) -> (out: String)
        ensures
            out@ == summary_text(*self, size@),
    {
        let mut out = String::from_str("Restored ");
        out.append(decimal_string(self.restored as u64).as_str());
        out.append(" items (");
        out.append(size);
        out.append("), ");
        out.append(decimal_string(self.errors as u64).as_str());
        out.append(" errors, ");
        out.append(decimal_string(self.not_found as u64).as_str());
        out.append(" not found");
        out
    }

    /// The summary line: `Restored {n} items ({size}), {e} errors, {f} not
    /// found`, the size in binary units.
    pub fn summary(&self) -> (out: String)
        ensures
            out@ == summary_text(*self, size_text(self.restored_bytes, true)),
            self.restored_bytes < 1024 ==> out@ == summary_text(
                *self,
                decimal(self.restored_bytes as nat).push(' ').push('B'),
            ),
    {
        let size = size_to_text(self.restored_bytes, true);
        self.summary_with_size(size.as_str())
    }
}

/// What is said where the trash store cannot be enumerated. Without an
/// enumeration no restoration begins.
pub const TRASH_UNAVAILABLE: &'static str = "Failed to list Recycle Bin contents";

/// Why a restoration as a whole did not come about.
#[derive(Clone, Copy, Debug, PartialEq, Eq, Structural)]
pub enum RestoreError {
    /// The history holds no session.
    NothingToRestore,
    /// Nothing in the trash store stands for the path.
    NotInTrash,
}

impl RestoreError {
    /// The error in words, for the path that was to be restored.
    pub open spec fn text(self, path: Seq<char>) -> Seq<char> {
        match self {
            RestoreError::NothingToRestore => "No deletion history found. Nothing to restore."@,
            RestoreError::NotInTrash => "File or directory not found in Recycle Bin: "@ + path,
        }
    }

    /// Computes [`Self::text`].
    pub fn message(&self, path: &str) -> (out: String)
        ensures
            out@ == self.text(path@),
    {
        match self {
            RestoreError::NothingToRestore => String::from_str(
                "No deletion history found. Nothing to restore.",
            ),
            RestoreError::NotInTrash => String::from_str(
                "File or directory not found in Recycle Bin: ",
            ).concat(path),
        }
    }
}

/// How much a restoration says while it runs.
#[derive(Clone, Copy, Debug, PartialEq, Eq, Structural)]
pub enum OutputMode {
    /// Says nothing but the summary.
    Quiet,
    /// Says what was restored and what failed.
    Normal,
    /// As `Normal`.
    Verbose,
    /// Also says what was not found.
    VeryVerbose,
}

impl OutputMode {
    /// Whether the outcome of a record is made known: a restored record
    /// unless quiet, a record not found only when very verbose. A record of
    /// which nothing could be restored is not announced as such; each of its
    /// failed attempts is.
    pub open spec fn announces(self, outcome: RecordOutcome) -> bool {
        match outcome {
            RecordOutcome::Restored => self != OutputMode::Quiet,
            RecordOutcome::RestoredDirectory { .. } => self != OutputMode::Quiet,
            RecordOutcome::Failed => false,
            RecordOutcome::NotFound => self == OutputMode::VeryVerbose,
        }
    }

    /// Computes [`Self::announces`].
    pub fn shows(&self, outcome: RecordOutcome) -> (yes: bool)
        ensures
            yes == self.announces(outcome),
    {
        match outcome {
            RecordOutcome::Restored => !matches!(self, OutputMode::Quiet),
            RecordOutcome::RestoredDirectory { .. } => !matches!(self, OutputMode::Quiet),
            RecordOutcome::Failed => false,
            RecordOutcome::NotFound => matches!(self, OutputMode::VeryVerbose),
        }
    }

    /// Whether a failed restore attempt is made known: always, unless quiet.
    pub fn shows_failures(&self) -> (yes: bool)
        ensures
            yes == (*self != OutputMode::Quiet),
    {
        !matches!(self, OutputMode::Quiet)
    }
}

/// `items` is the plan for `records` against the index of the enumeration
/// whose compared paths are `listed`.
pub open spec fn reconciles(
    items: Seq<PlannedRecord>,
    records: Seq<DeletionRecord>,
    listed: Seq<Seq<char>>,
    style: PathStyle,
) -> bool {
    exists|slots: Seq<Slot>|
        #[trigger] indexes(slots, listed) && is_plan_of(items, records, slots, style)
}

/// The counts of any pass over `records`, against the enumeration whose
/// compared paths are `listed`, fit the machine's integers: the plan holds no
/// more attempts than `usize` counts, and the records it has entries for log
/// no more bytes than `u64` counts. A log none of whose records is in the
/// trash store always fits.
pub open spec fn reconcilable(
    records: Seq<DeletionRecord>,
    listed: Seq<Seq<char>>,
    style: PathStyle,
) -> bool {
    forall|items: Seq<PlannedRecord>| #[trigger]
        reconciles(items, records, listed, style) ==> within_limits(items)
}

/// Computes [`reconcilable`].
pub fn can_reconcile(log: &DeletionLog, trash: &Vec<String>, style: PathStyle) -> (yes: bool)
    ensures
        yes == reconcilable(log.records@, normalized_all(trash@, style), style),
{
    let index = TrashIndex::build(trash, style);
    let plan = plan_restore(log, &index, style);
    let yes = plan.fits();
    proof {
        let listed = normalized_all(trash@, style);
        assert(indexes(index@, listed));
        assert(reconciles(plan.items@, log.records@, listed, style));
        if yes {
            assert forall|items: Seq<PlannedRecord>| #[trigger]
                reconciles(items, log.records@, listed, style) implies within_limits(items) by {
                lemma_reconciled_plans_are_alike(items, plan.items@, log.records@, listed, style);
                lemma_alike_plans_weigh_alike(items, plan.items@);
            }
        }
    }
    yes
}

/// A log has one plan against an enumeration.
pub proof fn lemma_reconciled_plans_are_alike(
    one: Seq<PlannedRecord>,
    other: Seq<PlannedRecord>,
    records: Seq<DeletionRecord>,
    listed: Seq<Seq<char>>,
    style: PathStyle,
)
    requires
        reconciles(one, records, listed, style),
        reconciles(other, records, listed, style),
    ensures
        alike(one, other),
        forall|k: int| 0 <= k < one.len() ==> (#[trigger] one[k]).record == other[k].record,
{
    let first = choose|slots: Seq<Slot>|
        #[trigger] indexes(slots, listed) && is_plan_of(one, records, slots, style);
    let second = choose|slots: Seq<Slot>|
        #[trigger] indexes(slots, listed) && is_plan_of(other, records, slots, style);
    lemma_index_is_unique(first, second, listed);
    lemma_plans_agree(one, other, records, first, style);
}

/// Records that cannot be undone contribute to nothing: against the same
/// enumeration, the log without them has a plan like that of the whole log,
/// and the one can be restored exactly where the other can. Sessions over
/// plans that are alike run alike.
pub proof fn lemma_filtered_log_is_restored_alike(
    whole: Seq<PlannedRecord>,
    kept: Seq<PlannedRecord>,
    records: Seq<DeletionRecord>,
    listed: Seq<Seq<char>>,
    style: PathStyle,
)
    requires
        reconciles(whole, records, listed, style),
        reconciles(kept, restorable_only(records), listed, style),
    ensures
        alike(whole, kept),
        reconcilable(records, listed, style) == reconcilable(
            restorable_only(records),
            listed,
            style,
        ),
{
    let first = choose|slots: Seq<Slot>|
        #[trigger] indexes(slots, listed) && is_plan_of(whole, records, slots, style);
    let second = choose|slots: Seq<Slot>|
        #[trigger] indexes(slots, listed) && is_plan_of(
            kept,
            restorable_only(records),
            slots,
            style,
        );
    lemma_index_is_unique(first, second, listed);
    lemma_unrestorable_records_change_nothing(whole, kept, records, first, style);
    lemma_alike_plans_weigh_alike(whole, kept);
    assert forall|items: Seq<PlannedRecord>| #[trigger]
        reconciles(items, records, listed, style) implies within_limits(items) == within_limits(
        whole,
    ) by {
        lemma_reconciled_plans_are_alike(items, whole, records, listed, style);
        lemma_alike_plans_weigh_alike(items, whole);
    }
    assert forall|items: Seq<PlannedRecord>| #[trigger]
        reconciles(items, restorable_only(records), listed, style) implies within_limits(items)
        == within_limits(kept) by {
        lemma_reconciled_plans_are_alike(items, kept, restorable_only(records), listed, style);
        lemma_alike_plans_weigh_alike(items, kept);
    }
}

/// Against an emptied trash store there is nothing to attempt for any record.
pub proof fn lemma_empty_trash_plans_nothing(
    items: Seq<PlannedRecord>,
    records: Seq<DeletionRecord>,
    style: PathStyle,
)
    requires
        reconciles(items, records, Seq::<Seq<char>>::empty(), style),
    ensures
        items.len() == restorable_count(records),
        forall|k: int| 0 <= k < items.len() ==> (#[trigger] items[k]).target.entries@.len() == 0,
        planned_attempts(items) == 0,
        planned_bytes(items) == 0,
{
    let listed = Seq::<Seq<char>>::empty();
    let slots = choose|slots: Seq<Slot>|
        #[trigger] indexes(slots, listed) && is_plan_of(items, records, slots, style);
    if slots.len() > 0 {
        assert(slots[0].1 < listed.len());
    }
    assert forall|k: int| 0 <= k < items.len() implies (#[trigger] items[k]).target.entries@.len()
        == 0 by {
        let at = restorable_positions(records)[k];
        assert(plans(items[k], records, at, slots, style));
        assert(!files(slots, normalized(records[at].path@, style)));
    }
    lemma_no_entries_weigh_nothing(items);
}

/// A plan without entries holds no attempt and no byte.
proof fn lemma_no_entries_weigh_nothing(items: Seq<PlannedRecord>)
    requires
        forall|k: int| 0 <= k < items.len() ==> (#[trigger] items[k]).target.entries@.len() == 0,
    ensures
        planned_attempts(items) == 0,
        planned_bytes(items) == 0,
    decreases items.len(),
{
    if items.len() > 0 {
        assert forall|k: int| 0 <= k < items.drop_last().len() implies (
        #[trigger] items.drop_last()[k]).target.entries@.len() == 0 by {
            assert(items.drop_last()[k] == items[k]);
        }
        lemma_no_entries_weigh_nothing(items.drop_last());
        assert(items.last() == items[items.len() - 1]);
    }
}

/// Any log can be restored against an emptied trash store, and the pass ends
/// with every restorable record not found and nothing else counted.
pub proof fn lemma_empty_trash_finds_nothing(
    model: SessionModel,
    records: Seq<DeletionRecord>,
    style: PathStyle,
)
    requires
        records.len() <= usize::MAX,
    ensures
        reconcilable(records, Seq::<Seq<char>>::empty(), style),
        model.wf() && model.phase == Phase::Finished && reconciles(
            model.plan,
            records,
            Seq::<Seq<char>>::empty(),
            style,
        ) ==> model.pending() == (Action::Finish {
            result: RestoreResult {
                restored: 0,
                restored_bytes: 0,
                errors: 0,
                not_found: restorable_count(records) as usize,
            },
        }),
{
    lemma_restorable_positions(records);
    assert forall|items: Seq<PlannedRecord>| #[trigger]
        reconciles(items, records, Seq::<Seq<char>>::empty(), style) implies within_limits(
        items,
    ) by {
        lemma_empty_trash_plans_nothing(items, records, style);
    }
    if model.wf() && model.phase == Phase::Finished && reconciles(
        model.plan,
        records,
        Seq::<Seq<char>>::empty(),
        style,
    ) {
        lemma_empty_trash_plans_nothing(model.plan, records, style);
        lemma_nothing_to_attempt(model.plan, model.done);
    }
}

/// The result of a pass that ran to its end accounts for every restorable
/// record of the log, and for no other record: the three counts together are
/// never less than the number of restorable records, and are exactly that
/// number where every record was counted once.
pub proof fn lemma_restorable_records_are_accounted(
    model: SessionModel,
    records: Seq<DeletionRecord>,
    listed: Seq<Seq<char>>,
    style: PathStyle,
)
    requires
        model.wf(),
        model.phase == Phase::Finished,
        reconciles(model.plan, records, listed, style),
    ensures
        model.pending() matches Action::Finish { result } && result.restored + result.errors
            + result.not_found >= restorable_count(records) && ((forall|k: int|
            0 <= k < model.done.len() ==> counted_once(#[trigger] model.done[k]))
            ==> result.restored + result.errors + result.not_found == restorable_count(records)),
{
    lemma_result_is_exact(model);
    lemma_counts_cover_records(model.plan, model.done);
    if forall|k: int| 0 <= k < model.done.len() ==> counted_once(#[trigger] model.done[k]) {
        lemma_counts_add_up(model.plan, model.done);
    }
}

/// Begins the restoration of a log, with or without a progress observer.
/// `trash` holds the original path of each live trash entry, in enumeration
/// order; the index over it is built here and now.
pub fn restore_from_log_with_progress(
    log: &DeletionLog,
    trash: &Vec<String>,
    style: PathStyle,
    notify: bool,
) -> (session: RestoreSession)
    requires
        reconcilable(log.records@, normalized_all(trash@, style), style),
    ensures
        session.wf(),
        session@ == SessionModel::begin(session@.plan, notify),
        reconciles(session@.plan, log.records@, normalized_all(trash@, style), style),
{
    let index = TrashIndex::build(trash, style);
    let plan = plan_restore(log, &index, style);
    proof {
        assert(indexes(index@, normalized_all(trash@, style)));
        assert(reconciles(plan.items@, log.records@, normalized_all(trash@, style), style));
    }
    RestoreSession::new(plan, notify)
}

/// Begins the restoration of a log without a progress observer.
pub fn restore_from_log(log: &DeletionLog, trash: &Vec<String>, style: PathStyle) -> (session:
    RestoreSession)
    requires
        reconcilable(log.records@, normalized_all(trash@, style), style),
    ensures
        session.wf(),
        session@ == SessionModel::begin(session@.plan, false),
        reconciles(session@.plan, log.records@, normalized_all(trash@, style), style),
{
    restore_from_log_with_progress(log, trash, style, false)
}

/// A restoration that is decided on and not yet begun: the log to restore,
/// and whether a progress observer is told. The trash store is enumerated
/// only once there is something to restore.
#[derive(Clone, Copy, Debug)]
pub struct RestoreRequest<'a> {
    /// The log to restore.
    pub log: &'a DeletionLog,
    /// Whether there is a progress observer.
    pub notify: bool,
}

impl<'a> RestoreRequest<'a> {
    /// Begins the restoration, as [`restore_from_log_with_progress`] does.
    pub fn begin(&self, trash: &Vec<String>, style: PathStyle) -> (session: RestoreSession)
        requires
            reconcilable(self.log.records@, normalized_all(trash@, style), style),
        ensures
            session.wf(),
            session@ == SessionModel::begin(session@.plan, self.notify),
            reconciles(session@.plan, self.log.records@, normalized_all(trash@, style), style),
    {
        restore_from_log_with_progress(self.log, trash, style, self.notify)
    }
}

/// Decides on the restoration of the most recent session, with or without a
/// progress observer. `latest` is that session's log, or `None` where the
/// history holds no session; then there is nothing to restore.
pub fn restore_last_with_progress<'a>(latest: Option<&'a DeletionLog>, notify: bool) -> (request:
    Result<RestoreRequest<'a>, RestoreError>)
    ensures
        match latest {
            Some(log) => request matches Ok(asked) && asked.log == log && asked.notify == notify,
            None => request matches Err(error) && error == RestoreError::NothingToRestore,
        },
{
    match latest {
        None => Err(RestoreError::NothingToRestore),
        Some(log) => Ok(RestoreRequest { log, notify }),
    }
}

/// Decides on the restoration of the most recent session without a progress
/// observer.
pub fn restore_last<'a>(latest: Option<&'a DeletionLog>) -> (request: Result<
    RestoreRequest<'a>,
    RestoreError,
>)
    ensures
        match latest {
            Some(log) => request matches Ok(asked) && asked.log == log && !asked.notify,
            None => request matches Err(error) && error == RestoreError::NothingToRestore,
        },
{
    restore_last_with_progress(latest, false)
}

/// Is anything in the enumeration that stands for the compared path `key`:
/// an entry with that path, or an entry inside that directory?
pub open spec fn in_listing(listed: Seq<Seq<char>>, key: Seq<char>) -> bool {
    first_listed(listed, key) is Some || listed_under(listed, directory_prefix(key)).len() > 0
}

/// Finds what to restore for one path, without consulting any log. `trash`
/// holds the original path of each live trash entry, in enumeration order.
pub fn restore_path(path: &str, trash: &Vec<String>, style: PathStyle) -> (found: Result<
    Target,
    RestoreError,
>)
    ensures
        found is Ok <==> in_listing(normalized_all(trash@, style), normalized(path@, style)),
        found matches Ok(target) ==> targets_in_listing(
            target,
            normalized_all(trash@, style),
            normalized(path@, style),
        ),
        found matches Err(error) ==> error == RestoreError::NotInTrash,
{
    let target = find_in_listing(path, trash, style);
    if target.entries.len() == 0 {
        Err(RestoreError::NotInTrash)
    } else {
        Ok(target)
    }
}

/// How many attempts brought their entry back.
pub open spec fn brought_back(outcomes: Seq<Option<u64>>) -> nat
    decreases outcomes.len(),
{
    if outcomes.len() == 0 {
        0
    } else {
        brought_back(outcomes.drop_last()) + if outcomes.last() is Some {
            1nat
        } else {
            0nat
        }
    }
}

/// The sizes found of the entries that came back, added up.
pub open spec fn measured_bytes(outcomes: Seq<Option<u64>>) -> nat
    decreases outcomes.len(),
{
    if outcomes.len() == 0 {
        0
    } else {
        measured_bytes(outcomes.drop_last()) + match outcomes.last() {
            Some(size) => size as nat,
            None => 0nat,
        }
    }
}

/// What restoring one path comes to, given for each entry of its target, in
/// order, the size found at its place where it came back and `None` where it
/// did not. Only a path with no entry fails as a whole. Otherwise the path is
/// one item restored if anything of it came back, and each entry that did not
/// come back is an error: a file that could not be put back is one error.
pub open spec fn path_result(target: Target, outcomes: Seq<Option<u64>>) -> Result<
    RestoreResult,
    RestoreError,
> {
    if target.entries@.len() == 0 {
        Err(RestoreError::NotInTrash)
    } else {
        Ok(
            RestoreResult {
                restored: if brought_back(outcomes) > 0 {
                    1
                } else {
                    0
                },
                restored_bytes: measured_bytes(outcomes) as u64,
                errors: (outcomes.len() - brought_back(outcomes)) as usize,
                not_found: 0,
            },
        )
    }
}

/// Do the sizes found add up within `u64`?
pub fn can_measure(outcomes: &Vec<Option<u64>>) -> (yes: bool)
    ensures
        yes == (measured_bytes(outcomes@) <= u64::MAX),
{
    let mut bytes: u64 = 0;
    let mut at: usize = 0;
    while at < outcomes.len()
        invariant
            at <= outcomes.len(),
            bytes == measured_bytes(outcomes@.take(at as int)),
        decreases outcomes.len() - at,
    {
        proof {
            assert(outcomes@.take(at + 1).drop_last() == outcomes@.take(at as int));
            assert(outcomes@.take(at + 1).last() == outcomes@[at as int]);
            lemma_measured_prefix(outcomes@, at + 1);
        }
        match outcomes[at] {
            Some(size) => {
                if size > u64::MAX - bytes {
                    return false;
                }
                bytes = bytes + size;
            },
            None => {},
        }
        at = at + 1;
    }
    proof {
        assert(outcomes@.take(at as int) == outcomes@);
    }
    true
}

/// Computes [`path_result`] once every entry of the target was attempted.
pub fn conclude_path_restore(target: &Target, outcomes: &Vec<Option<u64>>) -> (concluded: Result<
    RestoreResult,
    RestoreError,
>)
    requires
        measured_bytes(outcomes@) <= u64::MAX,
    ensures
        concluded == path_result(*target, outcomes@),
{
    if target.entries.len() == 0 {
        return Err(RestoreError::NotInTrash);
    }
    let mut back: usize = 0;
    let mut bytes: u64 = 0;
    let mut at: usize = 0;
    while at < outcomes.len()
        invariant
            at <= outcomes.len(),
            back == brought_back(outcomes@.take(at as int)),
            back <= at,
            bytes == measured_bytes(outcomes@.take(at as int)),
            measured_bytes(outcomes@) <= u64::MAX,
        decreases outcomes.len() - at,
    {
        proof {
            assert(outcomes@.take(at + 1).drop_last() == outcomes@.take(at as int));
            assert(outcomes@.take(at + 1).last() == outcomes@[at as int]);
            lemma_measured_prefix(outcomes@, at + 1);
        }
        match outcomes[at] {
            Some(size) => {
                back = back + 1;
                bytes = bytes + size;
            },
            None => {},
        }
        at = at + 1;
    }
    proof {
        assert(outcomes@.take(at as int) == outcomes@);
    }
    Ok(
        RestoreResult {
            restored: if back > 0 {
                1
            } else {
                0
            },
            restored_bytes: bytes,
            errors: outcomes.len() - back,
            not_found: 0,
        },
    )
}

/// The sizes of fewer attempts add up to no more.
pub proof fn lemma_measured_prefix(outcomes: Seq<Option<u64>>, count: int)
    requires
        0 <= count <= outcomes.len(),
    ensures
        measured_bytes(outcomes.take(count)) <= measured_bytes(outcomes),
    decreases outcomes.len(),
{
    if count < outcomes.len() {
        lemma_measured_prefix(outcomes.drop_last(), count);
        assert(outcomes.drop_last().take(count) == outcomes.take(count));
    } else {
        assert(outcomes.take(count) == outcomes);
    }
}

} // verus!
