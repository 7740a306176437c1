//! A reconciliation pass as a sequence of decisions. The session says what is
//! to be done next: tell the observer, restore a trash entry, report on a
//! record. Whoever drives it does that and says how it went. Nothing here
//! touches the trash store itself.

use vstd::prelude::*;
use crate::plan::{
    alike, lemma_planned_prefix, planned_attempts, planned_bytes, within_limits, PlannedRecord,
    RestorePlan,
};
use crate::restore::RestoreResult;

verus! {

/// Where a session stands.
#[derive(Clone, Copy, Debug, PartialEq, Eq, Structural)]
pub enum Phase {
    /// The observer is being told of the record that comes next.
    Notifying,
    /// An entry of the current record is being restored.
    Restoring,
    /// The outcome of the current record is being reported.
    Reporting,
    /// The observer is being told that every record was handled.
    Closing,
    /// The pass is complete.
    Finished,
    /// The observer failed and the pass was abandoned.
    Cancelled,
}

/// How one record fared.
#[derive(Clone, Copy, Debug, PartialEq, Eq, Structural)]
pub enum RecordOutcome {
    /// The item was found under its own path and restored.
    Restored,
    /// The item was a directory; this many of its items came back.
    RestoredDirectory { items: usize },
    /// Entries were found, and none could be restored.
    Failed,
    /// Nothing of the item was left in the trash store.
    NotFound,
}

/// What the driver of a session is asked to do.
#[derive(Clone, Copy, Debug, PartialEq, Eq, Structural)]
pub enum Action {
    /// Call the progress observer: with the log position of the record about
    /// to be handled, or with `None` once all are handled, and with the
    /// running counts and the number of restorable records.
    Notify { upcoming: Option<usize>, restored: usize, total: usize, errors: usize, not_found: usize },
    /// Restore the trash entry at enumeration position `entry`, on behalf of
    /// the record at log position `record`. With `exact` set the entry is the
    /// record's own item; without, it is an item inside the record's
    /// directory.
    Restore { record: usize, entry: usize, exact: bool },
    /// Make known how the record at log position `record` fared.
    Report { record: usize, outcome: RecordOutcome },
    /// Nothing is left to do; this is the result.
    Finish { result: RestoreResult },
    /// Nothing more is to be done: the observer failed.
    Cancel,
}

/// Counts of a pass, as unbounded numbers.
pub struct Tally {
    pub restored: nat,
    pub restored_bytes: nat,
    pub errors: nat,
    pub not_found: nat,
}

/// How many attempts succeeded.
pub open spec fn successes(outcomes: Seq<bool>) -> nat
    decreases outcomes.len(),
{
    if outcomes.len() == 0 {
        0
    } else {
        successes(outcomes.drop_last()) + if outcomes.last() {
            1nat
        } else {
            0nat
        }
    }
}

/// What one record adds to the counts, given how the attempt on each of its
/// entries went: found nowhere, it is one record not found; with at least one
/// entry restored, it is one record restored at its logged size; and every
/// attempt that failed is an error.
pub open spec fn record_tally(item: PlannedRecord, outcomes: Seq<bool>) -> Tally {
    let won = successes(outcomes);
    Tally {
        restored: if won > 0 { 1 } else { 0 },
        restored_bytes: if won > 0 { item.size_bytes as nat } else { 0 },
        errors: (outcomes.len() - won) as nat,
        not_found: if item.target.entries@.len() == 0 { 1 } else { 0 },
    }
}

/// The counts after the first `done.len()` records of a plan, given the
/// outcomes of the attempts made for each.
pub open spec fn tally_of(items: Seq<PlannedRecord>, done: Seq<Seq<bool>>) -> Tally
    decreases done.len(),
{
    if done.len() == 0 {
        Tally { restored: 0, restored_bytes: 0, errors: 0, not_found: 0 }
    } else {
        let before = tally_of(items, done.drop_last());
        let last = record_tally(items[done.len() - 1], done.last());
        Tally {
            restored: before.restored + last.restored,
            restored_bytes: before.restored_bytes + last.restored_bytes,
            errors: before.errors + last.errors,
            not_found: before.not_found + last.not_found,
        }
    }
}

/// The counts as a result value.
pub open spec fn result_of(tally: Tally) -> RestoreResult {
    RestoreResult {
        restored: tally.restored as usize,
        restored_bytes: tally.restored_bytes as u64,
        errors: tally.errors as usize,
        not_found: tally.not_found as usize,
    }
}

/// A session, as the plan it follows and what has been answered so far.
#[verifier::ext_equal]
pub struct SessionModel {
    /// The plan.
    pub plan: Seq<PlannedRecord>,
    /// Whether there is an observer to tell.
    pub notify: bool,
    /// Where the session stands.
    pub phase: Phase,
    /// For each record that is dealt with, how each of its attempts went.
    pub done: Seq<Seq<bool>>,
    /// How the attempts made so far for the current record went.
    pub current: Seq<bool>,
}

impl SessionModel {
    /// The state is one that a session can reach.
    pub open spec fn wf(self) -> bool {
        &&& within_limits(self.plan)
        &&& self.done.len() <= self.plan.len()
        &&& forall|k: int|
            0 <= k < self.done.len() ==> (#[trigger] self.done[k]).len()
                == self.plan[k].target.entries@.len()
        &&& match self.phase {
            Phase::Notifying => self.notify && self.done.len() < self.plan.len()
                && self.current.len() == 0,
            Phase::Restoring => self.done.len() < self.plan.len() && self.current.len()
                < self.plan[self.done.len() as int].target.entries@.len(),
            Phase::Reporting => self.done.len() < self.plan.len() && self.current.len()
                == self.plan[self.done.len() as int].target.entries@.len(),
            Phase::Closing => self.notify && self.done.len() == self.plan.len()
                && self.current.len() == 0,
            Phase::Finished => self.done.len() == self.plan.len() && self.current.len() == 0,
            Phase::Cancelled => self.notify && self.current.len() == 0,
        }
    }

    /// The counts so far.
    pub open spec fn tally(self) -> Tally {
        tally_of(self.plan, self.done)
    }

    /// The record in hand.
    pub open spec fn item(self) -> PlannedRecord {
        self.plan[self.done.len() as int]
    }

    /// Takes up the record in hand: with nothing to restore for it, it is
    /// reported at once.
    pub open spec fn entered(self) -> SessionModel {
        SessionModel {
            phase: if self.item().target.entries@.len() == 0 {
                Phase::Reporting
            } else {
                Phase::Restoring
            },
            current: Seq::empty(),
            ..self
        }
    }

    /// Turns to the next record, or to the end where none is left.
    pub open spec fn settled(self) -> SessionModel {
        let cleared = SessionModel { current: Seq::empty(), ..self };
        if self.done.len() >= self.plan.len() {
            SessionModel {
                phase: if self.notify {
                    Phase::Closing
                } else {
                    Phase::Finished
                },
                ..cleared
            }
        } else if self.notify {
            SessionModel { phase: Phase::Notifying, ..cleared }
        } else {
            cleared.entered()
        }
    }

    /// A session that has answered nothing yet.
    pub open spec fn begin(plan: Seq<PlannedRecord>, notify: bool) -> SessionModel {
        (SessionModel {
            plan,
            notify,
            phase: Phase::Finished,
            done: Seq::empty(),
            current: Seq::empty(),
        }).settled()
    }

    /// How the record in hand fared, once every attempt for it is made.
    pub open spec fn outcome(self) -> RecordOutcome {
        let won = successes(self.current);
        if self.current.len() == 0 {
            RecordOutcome::NotFound
        } else if won == 0 {
            RecordOutcome::Failed
        } else if self.item().target.exact {
            RecordOutcome::Restored
        } else {
            RecordOutcome::RestoredDirectory { items: won as usize }
        }
    }

    /// What the driver is asked to do in this state.
    pub open spec fn pending(self) -> Action {
        let so_far = result_of(self.tally());
        match self.phase {
            Phase::Notifying => Action::Notify {
                upcoming: Some(self.item().record),
                restored: so_far.restored,
                total: self.plan.len() as usize,
                errors: so_far.errors,
                not_found: so_far.not_found,
            },
            Phase::Restoring => Action::Restore {
                record: self.item().record,
                entry: self.item().target.entries@[self.current.len() as int],
                exact: self.item().target.exact,
            },
            Phase::Reporting => Action::Report {
                record: self.item().record,
                outcome: self.outcome(),
            },
            Phase::Closing => Action::Notify {
                upcoming: None,
                restored: so_far.restored,
                total: self.plan.len() as usize,
                errors: so_far.errors,
                not_found: so_far.not_found,
            },
            Phase::Finished => Action::Finish { result: so_far },
            Phase::Cancelled => Action::Cancel,
        }
    }

    /// The state after the driver has done what was pending and says whether
    /// it went well. An observer that fails ends the pass. A report cannot
    /// fail, and a pass that has ended stays as it is.
    pub open spec fn after(self, ok: bool) -> SessionModel {
        match self.phase {
            Phase::Notifying => if ok {
                self.entered()
            } else {
                SessionModel { phase: Phase::Cancelled, ..self }
            },
            Phase::Restoring => {
                let current = self.current.push(ok);
                SessionModel {
                    phase: if current.len() == self.item().target.entries@.len() {
                        Phase::Reporting
                    } else {
                        Phase::Restoring
                    },
                    current,
                    ..self
                }
            },
            Phase::Reporting => (SessionModel {
                done: self.done.push(self.current),
                ..self
            }).settled(),
            Phase::Closing => SessionModel {
                phase: if ok {
                    Phase::Finished
                } else {
                    Phase::Cancelled
                },
                ..self
            },
            Phase::Finished => self,
            Phase::Cancelled => self,
        }
    }
}

/// No more attempts succeed than are made.
pub proof fn lemma_successes_bound(outcomes: Seq<bool>)
    ensures
        successes(outcomes) <= outcomes.len(),
    decreases outcomes.len(),
{
    if outcomes.len() > 0 {
        lemma_successes_bound(outcomes.drop_last());
    }
}

/// The counts never exceed what the plan holds: a record is restored or not
/// found at most once, errors are failed attempts, bytes are logged sizes.
pub proof fn lemma_tally_bounds(items: Seq<PlannedRecord>, done: Seq<Seq<bool>>)
    requires
        done.len() <= items.len(),
        forall|k: int|
            0 <= k < done.len() ==> (#[trigger] done[k]).len() == items[k].target.entries@.len(),
    ensures
        tally_of(items, done).restored + tally_of(items, done).not_found <= done.len(),
        tally_of(items, done).errors <= planned_attempts(items.take(done.len() as int)),
        tally_of(items, done).restored_bytes <= planned_bytes(items.take(done.len() as int)),
    decreases done.len(),
{
    if done.len() > 0 {
        let head = done.drop_last();
        assert forall|k: int| 0 <= k < head.len() implies (#[trigger] head[k]).len()
            == items[k].target.entries@.len() by {
            assert(head[k] == done[k]);
        }
        lemma_tally_bounds(items, head);
        lemma_successes_bound(done.last());
        assert(done.last() == done[done.len() - 1]);
        assert(items.take(done.len() as int).drop_last() == items.take(head.len() as int));
        assert(items.take(done.len() as int).last() == items[done.len() - 1]);
    } else {
        assert(items.take(0) =~= Seq::<PlannedRecord>::empty());
    }
}

/// A reconciliation pass in progress.
pub struct RestoreSession {
    plan: RestorePlan,
    notify: bool,
    phase: Phase,
    position: usize,
    attempt: usize,
    succeeded: usize,
    result: RestoreResult,
    done: Ghost<Seq<Seq<bool>>>,
    current: Ghost<Seq<bool>>,
}

impl View for RestoreSession {
    type V = SessionModel;

    closed spec fn view(&self) -> SessionModel {
        SessionModel {
            plan: self.plan.items@,
            notify: self.notify,
            phase: self.phase,
            done: self.done@,
            current: self.current@,
        }
    }
}

impl RestoreSession {
    /// The counters agree with what has been answered so far.
    spec fn counted(&self) -> bool {
        let tally = self@.tally();
        &&& self.position == self.done@.len()
        &&& self.attempt == self.current@.len()
        &&& self.succeeded == successes(self.current@)
        &&& self.result.restored == tally.restored
        &&& self.result.restored_bytes == tally.restored_bytes
        &&& self.result.errors == tally.errors
        &&& self.result.not_found == tally.not_found
    }

    /// The session is in a state that a session can reach.
    pub closed spec fn wf(&self) -> bool {
        self@.wf() && self.counted()
    }

    /// A session in a well-formed state has a well-formed model.
    pub proof fn lemma_wf(&self)
        requires
            self.wf(),
        ensures
            self@.wf(),
    {
    }

    /// Moves on to the next record, or to the end.
    fn settle(&mut self)
        requires
            old(self).counted(),
            old(self).current@.len() == 0,
            (SessionModel { phase: Phase::Finished, ..old(self)@ }).settled().wf(),
        ensures
            final(self).wf(),
            final(self)@ == old(self)@.settled(),
    {
        if self.position >= self.plan.items.len() {
            self.phase = if self.notify {
                Phase::Closing
            } else {
                Phase::Finished
            };
        } else if self.notify {
            self.phase = Phase::Notifying;
        } else if self.plan.items[self.position].target.entries.len() == 0 {
            self.phase = Phase::Reporting;
        } else {
            self.phase = Phase::Restoring;
        }
        self.current = Ghost(Seq::empty());
    }

    /// Starts a pass over `plan`. With `notify` set, the driver is asked to
    /// call the progress observer before each record and once at the end.
    pub fn new(plan: RestorePlan, notify: bool) -> (session: RestoreSession)
        requires
            within_limits(plan.items@),
        ensures
            session.wf(),
            session@ == SessionModel::begin(plan.items@, notify),
    {
        let mut session = RestoreSession {
            plan,
            notify,
            phase: Phase::Finished,
            position: 0,
            attempt: 0,
            succeeded: 0,
            result: RestoreResult { restored: 0, restored_bytes: 0, errors: 0, not_found: 0 },
            done: Ghost(Seq::empty()),
            current: Ghost(Seq::empty()),
        };
        session.settle();
        session
    }

    /// What the driver is asked to do now.
    pub fn pending(&self) -> (action: Action)
        requires
            self.wf(),
        ensures
            action == self@.pending(),
    {
        match self.phase {
            Phase::Notifying => Action::Notify {
                upcoming: Some(self.plan.items[self.position].record),
                restored: self.result.restored,
                total: self.plan.items.len(),
                errors: self.result.errors,
                not_found: self.result.not_found,
            },
            Phase::Restoring => Action::Restore {
                record: self.plan.items[self.position].record,
                entry: self.plan.items[self.position].target.entries[self.attempt],
                exact: self.plan.items[self.position].target.exact,
            },
            Phase::Reporting => {
                let item = &self.plan.items[self.position];
                let outcome = if self.attempt == 0 {
                    RecordOutcome::NotFound
                } else if self.succeeded == 0 {
                    RecordOutcome::Failed
                } else if item.target.exact {
                    RecordOutcome::Restored
                } else {
                    RecordOutcome::RestoredDirectory { items: self.succeeded }
                };
                Action::Report { record: item.record, outcome }
            },
            Phase::Closing => Action::Notify {
                upcoming: None,
                restored: self.result.restored,
                total: self.plan.items.len(),
                errors: self.result.errors,
                not_found: self.result.not_found,
            },
            Phase::Finished => Action::Finish { result: self.result },
            Phase::Cancelled => Action::Cancel,
        }
    }

    /// Takes the driver's answer to the pending action, `ok` where it went
    /// well, and says what is to be done next.
    pub fn advance(&mut self, ok: bool) -> (action: Action)
        requires
            old(self).wf(),
        ensures
            final(self).wf(),
            final(self)@ == old(self)@.after(ok),
            action == final(self)@.pending(),
    {
        match self.phase {
            Phase::Notifying => {
                if !ok {
                    self.phase = Phase::Cancelled;
                } else if self.plan.items[self.position].target.entries.len() == 0 {
                    self.phase = Phase::Reporting;
                } else {
                    self.phase = Phase::Restoring;
                }
            },
            Phase::Restoring => {
                proof {
                    assert(self.current@.push(ok).drop_last() =~= self.current@);
                    lemma_successes_bound(self.current@);
                }
                let wanted: usize = self.plan.items[self.position].target.entries.len();
                if ok {
                    self.succeeded = self.succeeded + 1;
                }
                self.attempt = self.attempt + 1;
                self.current = Ghost(self.current@.push(ok));
                if self.attempt == wanted {
                    self.phase = Phase::Reporting;
                }
            },
            Phase::Reporting => {
                let ghost done = self.done@.push(self.current@);
                proof {
                    assert(done.drop_last() =~= self.done@);
                    assert forall|k: int| 0 <= k < done.len() implies (#[trigger] done[k]).len()
                        == self.plan.items@[k].target.entries@.len() by {
                        if k < self.done@.len() {
                            assert(done[k] == self.done@[k]);
                        }
                    }
                    lemma_tally_bounds(self.plan.items@, done);
                    lemma_planned_prefix(self.plan.items@, done.len() as int);
                    lemma_successes_bound(self.current@);
                    assert(self.plan.items.len() <= usize::MAX);
                }
                let size: u64 = self.plan.items[self.position].size_bytes;
                let missing: bool = self.plan.items[self.position].target.entries.len() == 0;
                let failed: usize = self.attempt - self.succeeded;
                if self.succeeded > 0 {
                    self.result.restored = self.result.restored + 1;
                    self.result.restored_bytes = self.result.restored_bytes + size;
                }
                self.result.errors = self.result.errors + failed;
                if missing {
                    self.result.not_found = self.result.not_found + 1;
                }
                self.done = Ghost(done);
                self.current = Ghost(Seq::empty());
                self.position = self.position + 1;
                self.attempt = 0;
                self.succeeded = 0;
                self.settle();
            },
            Phase::Closing => {
                self.phase = if ok {
                    Phase::Finished
                } else {
                    Phase::Cancelled
                };
            },
            Phase::Finished => {},
            Phase::Cancelled => {},
        }
        self.pending()
    }

    /// Whether the pass has ended, complete or abandoned.
    pub fn is_over(&self) -> (over: bool)
        ensures
            over == (self@.phase == Phase::Finished || self@.phase == Phase::Cancelled),
    {
        self.phase == Phase::Finished || self.phase == Phase::Cancelled
    }
}

/// The attempts for a record left it counted exactly once: there was at most
/// one attempt, or none of them failed.
pub open spec fn counted_once(outcomes: Seq<bool>) -> bool {
    outcomes.len() <= 1 || successes(outcomes) == outcomes.len()
}

/// Every record that is dealt with is counted at least once, as restored, as
/// an error, or as not found.
pub proof fn lemma_counts_cover_records(items: Seq<PlannedRecord>, done: Seq<Seq<bool>>)
    requires
        done.len() <= items.len(),
        forall|k: int|
            0 <= k < done.len() ==> (#[trigger] done[k]).len() == items[k].target.entries@.len(),
    ensures
        tally_of(items, done).restored + tally_of(items, done).errors + tally_of(
            items,
            done,
        ).not_found >= done.len(),
    decreases done.len(),
{
    if done.len() > 0 {
        let head = done.drop_last();
        assert forall|k: int| 0 <= k < head.len() implies (#[trigger] head[k]).len()
            == items[k].target.entries@.len() by {
            assert(head[k] == done[k]);
        }
        lemma_counts_cover_records(items, head);
        lemma_successes_bound(done.last());
        assert(done.last() == done[done.len() - 1]);
    }
}

/// Where every record was counted once, the three counts add up to the
/// number of records dealt with.
pub proof fn lemma_counts_add_up(items: Seq<PlannedRecord>, done: Seq<Seq<bool>>)
    requires
        done.len() <= items.len(),
        forall|k: int|
            0 <= k < done.len() ==> (#[trigger] done[k]).len() == items[k].target.entries@.len(),
        forall|k: int| 0 <= k < done.len() ==> counted_once(#[trigger] done[k]),
    ensures
        tally_of(items, done).restored + tally_of(items, done).errors + tally_of(
            items,
            done,
        ).not_found == done.len(),
    decreases done.len(),
{
    if done.len() > 0 {
        let head = done.drop_last();
        assert forall|k: int| 0 <= k < head.len() implies (#[trigger] head[k]).len()
            == items[k].target.entries@.len() && counted_once(head[k]) by {
            assert(head[k] == done[k]);
        }
        lemma_counts_add_up(items, head);
        lemma_successes_bound(done.last());
        assert(done.last() == done[done.len() - 1]);
        assert(counted_once(done[done.len() - 1]));
    }
}

/// The result that a complete pass hands out holds the counts themselves:
/// nothing was cut to fit.
pub proof fn lemma_result_is_exact(model: SessionModel)
    requires
        model.wf(),
    ensures
        result_of(model.tally()).restored == model.tally().restored,
        result_of(model.tally()).restored_bytes == model.tally().restored_bytes,
        result_of(model.tally()).errors == model.tally().errors,
        result_of(model.tally()).not_found == model.tally().not_found,
{
    lemma_tally_bounds(model.plan, model.done);
    lemma_planned_prefix(model.plan, model.done.len() as int);
}

/// How many answers the records of `items` take between them: one to the
/// observer where there is one, one for each entry, one to the report.
pub open spec fn answers_for(items: Seq<PlannedRecord>, notify: bool) -> nat
    decreases items.len(),
{
    if items.len() == 0 {
        0
    } else {
        answers_for(items.drop_first(), notify) + (if notify {
            1nat
        } else {
            0nat
        }) + items.first().target.entries@.len() + 1
    }
}

impl SessionModel {
    /// Whether the pass has ended.
    pub open spec fn over(self) -> bool {
        self.phase == Phase::Finished || self.phase == Phase::Cancelled
    }

    /// How many answers a pass still takes from here if the observer never
    /// fails.
    pub open spec fn remaining(self) -> nat {
        let ahead = answers_for(self.plan.skip(self.done.len() as int), self.notify);
        match self.phase {
            Phase::Notifying => ahead + 1,
            Phase::Restoring => (ahead - self.current.len()) as nat,
            Phase::Reporting => (ahead - self.current.len()) as nat,
            Phase::Closing => 1,
            Phase::Finished => 0,
            Phase::Cancelled => 0,
        }
    }
}

/// Every answer leaves the session in a state it can be in, and brings a pass
/// that has not ended one answer nearer its end, or ends it. So a driver that
/// answers until the pass is over stops.
pub proof fn lemma_every_answer_counts(model: SessionModel, ok: bool)
    requires
        model.wf(),
    ensures
        model.after(ok).wf(),
        model.after(ok).plan == model.plan,
        model.after(ok).notify == model.notify,
        !model.over() ==> model.after(ok).phase == Phase::Cancelled || model.after(ok).remaining()
            + 1 == model.remaining(),
        model.over() ==> model.after(ok) == model,
        model.after(ok).phase == Phase::Cancelled && !model.over() ==> !ok && (model.phase
            == Phase::Notifying || model.phase == Phase::Closing),
{
    let next = model.after(ok);
    let here = model.done.len() as int;
    match model.phase {
        Phase::Notifying => {
            assert(model.plan.skip(here).drop_first() =~= model.plan.skip(here + 1));
            assert(model.plan.skip(here).first() == model.plan[here]);
            if ok {
                assert(next.phase == Phase::Restoring || next.phase == Phase::Reporting);
            }
        },
        Phase::Restoring => {
            assert(model.plan.skip(here).drop_first() =~= model.plan.skip(here + 1));
            assert(model.plan.skip(here).first() == model.plan[here]);
        },
        Phase::Reporting => {
            let done = model.done.push(model.current);
            assert forall|k: int| 0 <= k < done.len() implies (#[trigger] done[k]).len()
                == model.plan[k].target.entries@.len() by {
                if k < here {
                    assert(done[k] == model.done[k]);
                }
            }
            assert(model.plan.skip(here).drop_first() =~= model.plan.skip(here + 1));
            assert(model.plan.skip(here).first() == model.plan[here]);
            if here + 1 < model.plan.len() {
                assert(model.plan.skip(here + 1).drop_first() =~= model.plan.skip(here + 2));
                assert(model.plan.skip(here + 1).first() == model.plan[here + 1]);
            } else {
                assert(model.plan.skip(here + 1).len() == 0);
            }
        },
        Phase::Closing => {},
        Phase::Finished => {},
        Phase::Cancelled => {},
    }
}

/// With an observer, the first attempt for a record follows directly on the
/// observer having been told of that record, and on its consent.
pub proof fn lemma_first_attempt_follows_notice(model: SessionModel, ok: bool)
    requires
        model.wf(),
        model.notify,
        !model.over(),
        model.after(ok).phase == Phase::Restoring,
        model.after(ok).current.len() == 0,
    ensures
        model.phase == Phase::Notifying,
        ok,
        model.pending() matches Action::Notify { upcoming, .. } && upcoming == Some(
            model.after(ok).item().record,
        ),
{
}

/// What a pass that has finished hands out are the counts of its whole plan,
/// for the answers the driver gave.
pub proof fn lemma_finish_hands_out_the_tally(model: SessionModel)
    requires
        model.wf(),
        model.phase == Phase::Finished,
    ensures
        model.done.len() == model.plan.len(),
        model.pending() == (Action::Finish { result: result_of(tally_of(model.plan, model.done)) }),
{
}

/// A record found through the items inside it, of which at least one came
/// back, counts once as restored, at the size it logged; each item that did
/// not come back is an error beside it.
pub proof fn lemma_directory_counts_once(item: PlannedRecord, outcomes: Seq<bool>)
    requires
        outcomes.len() == item.target.entries@.len(),
        successes(outcomes) > 0,
    ensures
        record_tally(item, outcomes) == (Tally {
            restored: 1,
            restored_bytes: item.size_bytes as nat,
            errors: (outcomes.len() - successes(outcomes)) as nat,
            not_found: 0,
        }),
{
    lemma_successes_bound(outcomes);
}

/// With nothing to attempt for any record, every record dealt with is not
/// found and nothing else is counted.
pub proof fn lemma_nothing_to_attempt(items: Seq<PlannedRecord>, done: Seq<Seq<bool>>)
    requires
        done.len() <= items.len(),
        forall|k: int|
            0 <= k < done.len() ==> (#[trigger] done[k]).len() == items[k].target.entries@.len(),
        forall|k: int| 0 <= k < items.len() ==> (#[trigger] items[k]).target.entries@.len() == 0,
    ensures
        tally_of(items, done) == (Tally {
            restored: 0,
            restored_bytes: 0,
            errors: 0,
            not_found: done.len(),
        }),
    decreases done.len(),
{
    if done.len() > 0 {
        let head = done.drop_last();
        assert forall|k: int| 0 <= k < head.len() implies (#[trigger] head[k]).len()
            == items[k].target.entries@.len() by {
            assert(head[k] == done[k]);
        }
        lemma_nothing_to_attempt(items, head);
        assert(done.last() == done[done.len() - 1]);
        assert(items[done.len() - 1].target.entries@.len() == 0);
        assert(successes(done.last()) == 0);
    }
}

/// Plans that are alike count alike, whatever the answers.
pub proof fn lemma_alike_plans_tally_alike(
    one: Seq<PlannedRecord>,
    other: Seq<PlannedRecord>,
    done: Seq<Seq<bool>>,
)
    requires
        alike(one, other),
        done.len() <= one.len(),
    ensures
        tally_of(one, done) == tally_of(other, done),
    decreases done.len(),
{
    if done.len() > 0 {
        lemma_alike_plans_tally_alike(one, other, done.drop_last());
        assert(one[done.len() - 1].size_bytes == other[done.len() - 1].size_bytes);
    }
}

/// Two sessions stand alike: their plans are alike, and they have been given
/// the same answers.
pub open spec fn twins(one: SessionModel, other: SessionModel) -> bool {
    &&& alike(one.plan, other.plan)
    &&& one.notify == other.notify
    &&& one.phase == other.phase
    &&& one.done == other.done
    &&& one.current == other.current
}

/// Two actions ask for the same thing, leaving aside where the record stands
/// in its log.
pub open spec fn same_request(one: Action, other: Action) -> bool {
    match (one, other) {
        (
            Action::Notify { upcoming: a, restored: r1, total: t1, errors: e1, not_found: n1 },
            Action::Notify { upcoming: b, restored: r2, total: t2, errors: e2, not_found: n2 },
        ) => (a is Some) == (b is Some) && r1 == r2 && t1 == t2 && e1 == e2 && n1 == n2,
        (
            Action::Restore { entry: a, exact: x, .. },
            Action::Restore { entry: b, exact: y, .. },
        ) => a == b && x == y,
        (Action::Report { outcome: a, .. }, Action::Report { outcome: b, .. }) => a == b,
        (Action::Finish { result: a }, Action::Finish { result: b }) => a == b,
        (Action::Cancel, Action::Cancel) => true,
        _ => false,
    }
}

/// Sessions over plans that are alike run alike: given the same answers they
/// ask for the same entries to be restored, tell the observer the same
/// counts, and end in the same result.
pub proof fn lemma_twins_run_alike(one: SessionModel, other: SessionModel, ok: bool)
    requires
        one.wf(),
        other.wf(),
        twins(one, other),
    ensures
        same_request(one.pending(), other.pending()),
        twins(one.after(ok), other.after(ok)),
{
    lemma_alike_plans_tally_alike(one.plan, other.plan, one.done);
    let here = one.done.len() as int;
    if here < one.plan.len() {
        assert(one.plan[here].target.entries@ == other.plan[here].target.entries@);
    }
    if here + 1 < one.plan.len() {
        assert(one.plan[here + 1].target.entries@ == other.plan[here + 1].target.entries@);
    }
}

/// Sessions over plans that are alike begin alike.
pub proof fn lemma_twins_begin_alike(
    one: Seq<PlannedRecord>,
    other: Seq<PlannedRecord>,
    notify: bool,
)
    requires
        alike(one, other),
    ensures
        twins(SessionModel::begin(one, notify), SessionModel::begin(other, notify)),
{
    if one.len() > 0 {
        assert(one[0].target.entries@ == other[0].target.entries@);
    }
}

} // verus!
