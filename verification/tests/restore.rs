use wole::file_restore::{restore_file, FileFailure, FileStep};
use wole::history::{
    get_restore_count, latest_session, list_logs, DeletionLog, DeletionRecord,
};
use wole::paths::{
    host_path_style, normalize_path, normalize_path_for_comparison, path_style_where, PathStyle,
};
use wole::plan::{find_target, plan_restore, RestorePlan};
use wole::restore::{
    can_measure, can_reconcile, conclude_path_restore, restore_from_log,
    restore_from_log_with_progress, restore_last, restore_last_with_progress, restore_path,
    OutputMode, RestoreError, RestoreResult, TRASH_UNAVAILABLE,
};
use wole::session::{Action, RecordOutcome, RestoreSession};
use wole::trash::{original_paths, TrashEntry, TrashIndex};

fn record(path: &str, success: bool, permanent: bool, size_bytes: u64) -> DeletionRecord {
    DeletionRecord { path: path.to_string(), success, permanent, size_bytes }
}

fn log_of(records: Vec<DeletionRecord>) -> DeletionLog {
    DeletionLog { created_at: 1_700_000_000, records }
}

fn paths(list: &[&str]) -> Vec<String> {
    list.iter().map(|p| p.to_string()).collect()
}

/// Drives a session against a trash store in which restoring the entries in
/// `failing` fails, with an observer that fails at its call number
/// `observer_fails_at` (counted from 0). Returns every action, the last one
/// being `Finish` or `Cancel`.
fn drive(mut session: RestoreSession, failing: &[usize], observer_fails_at: Option<usize>) -> Vec<Action> {
    let mut trace = Vec::new();
    let mut calls = 0usize;
    let mut action = session.pending();
    loop {
        trace.push(action);
        let ok = match action {
            Action::Notify { .. } => {
                calls += 1;
                Some(calls - 1) != observer_fails_at
            }
            Action::Restore { entry, .. } => !failing.contains(&entry),
            Action::Report { .. } => true,
            Action::Finish { .. } | Action::Cancel => return trace,
        };
        action = session.advance(ok);
    }
}

fn result_of(trace: &[Action]) -> RestoreResult {
    match trace.last() {
        Some(Action::Finish { result }) => *result,
        other => panic!("the pass did not finish: {:?}", other),
    }
}

fn mixed_log() -> DeletionLog {
    log_of(vec![
        record("/tmp/a.txt", true, false, 100),
        record("/tmp/b.txt", false, false, 200),
        record("/tmp/c.txt", true, true, 300),
    ])
}

#[test]
fn test_restore_result_default() {
    let result = RestoreResult::default();
    assert_eq!(result.restored, 0);
    assert_eq!(result.restored_bytes, 0);
    assert_eq!(result.errors, 0);
    assert_eq!(result.not_found, 0);
}

#[test]
fn test_restore_result_summary() {
    let result = RestoreResult {
        restored: 5,
        restored_bytes: 1024 * 1024, // 1 MiB
        errors: 1,
        not_found: 2,
    };

    let summary = result.summary();
    println!("Actual summary: '{}'", summary);

    assert!(summary.contains("5"), "Summary should contain '5': {}", summary);
    assert!(
        summary.contains("MiB") || summary.contains("MB"),
        "Summary should contain size unit (MiB or MB): {}",
        summary
    );
    assert!(summary.contains("1"), "Summary should contain '1': {}", summary);
    assert!(summary.contains("2"), "Summary should contain '2': {}", summary);
}

#[test]
fn summary_has_the_documented_form() {
    let result = RestoreResult { restored: 5, restored_bytes: 1024 * 1024, errors: 1, not_found: 2 };
    assert_eq!(result.summary(), "Restored 5 items (1.0 MiB), 1 errors, 2 not found");
}

#[test]
fn summary_of_a_small_size_counts_bytes() {
    let result = RestoreResult { restored: 1, restored_bytes: 100, errors: 0, not_found: 0 };
    assert_eq!(result.summary(), "Restored 1 items (100 B), 0 errors, 0 not found");
}

#[test]
fn summary_of_nothing() {
    assert_eq!(RestoreResult::default().summary(), "Restored 0 items (0 B), 0 errors, 0 not found");
}

#[test]
fn summary_with_a_given_size() {
    let result = RestoreResult { restored: 12, restored_bytes: 0, errors: 340, not_found: 5678 };
    assert_eq!(
        result.summary_with_size("2.5 GiB"),
        "Restored 12 items (2.5 GiB), 340 errors, 5678 not found"
    );
}

#[test]
fn summary_writes_large_counts_in_full() {
    let result = RestoreResult {
        restored: 1_000_000,
        restored_bytes: 1023,
        errors: 9_999_999,
        not_found: 10,
    };
    assert_eq!(
        result.summary(),
        "Restored 1000000 items (1023 B), 9999999 errors, 10 not found"
    );
}

#[test]
fn mixed_log_with_its_file_in_trash() {
    let log = mixed_log();
    let trash = paths(&["/tmp/a.txt"]);
    let session = restore_from_log(&log, &trash, PathStyle::CaseSensitive);
    let trace = drive(session, &[], None);
    assert_eq!(
        result_of(&trace),
        RestoreResult { restored: 1, restored_bytes: 100, errors: 0, not_found: 0 }
    );
    assert_eq!(
        trace,
        vec![
            Action::Restore { record: 0, entry: 0, exact: true },
            Action::Report { record: 0, outcome: RecordOutcome::Restored },
            Action::Finish {
                result: RestoreResult { restored: 1, restored_bytes: 100, errors: 0, not_found: 0 }
            },
        ]
    );
}

#[test]
fn mixed_log_with_empty_trash() {
    let log = mixed_log();
    let trash = paths(&[]);
    let session = restore_from_log(&log, &trash, PathStyle::CaseSensitive);
    let trace = drive(session, &[], None);
    assert_eq!(
        result_of(&trace),
        RestoreResult { restored: 0, restored_bytes: 0, errors: 0, not_found: 1 }
    );
    assert_eq!(
        trace,
        vec![
            Action::Report { record: 0, outcome: RecordOutcome::NotFound },
            Action::Finish {
                result: RestoreResult { restored: 0, restored_bytes: 0, errors: 0, not_found: 1 }
            },
        ]
    );
}

#[test]
fn unrestorable_records_are_never_acted_on() {
    let log = mixed_log();
    // Entries exist for the two records that cannot be undone.
    let trash = paths(&["/tmp/b.txt", "/tmp/c.txt", "/tmp/a.txt"]);
    let session = restore_from_log_with_progress(&log, &trash, PathStyle::CaseSensitive, true);
    let trace = drive(session, &[], None);
    for action in &trace {
        match action {
            Action::Notify { upcoming: Some(record), .. } => assert_eq!(*record, 0),
            Action::Restore { record, entry, exact } => {
                assert!(*exact);
                assert_eq!(*record, 0);
                assert_eq!(*entry, 2);
            }
            Action::Report { record, .. } => assert_eq!(*record, 0),
            _ => {}
        }
    }
    assert_eq!(
        result_of(&trace),
        RestoreResult { restored: 1, restored_bytes: 100, errors: 0, not_found: 0 }
    );
}

#[test]
fn directory_fallback_restores_children_and_counts_once() {
    let log = log_of(vec![record("/a/b", true, false, 4096)]);
    let trash = paths(&["/a/b/x", "/a/b/y"]);
    let session = restore_from_log(&log, &trash, PathStyle::CaseSensitive);
    let trace = drive(session, &[], None);
    let restored_entries: Vec<usize> = trace
        .iter()
        .filter_map(|a| match a {
            Action::Restore { entry, exact, record } => {
                assert!(!*exact);
                assert_eq!(*record, 0);
                Some(*entry)
            }
            _ => None,
        })
        .collect();
    assert_eq!(restored_entries, vec![0, 1]);
    assert!(trace.contains(&Action::Report {
        record: 0,
        outcome: RecordOutcome::RestoredDirectory { items: 2 }
    }));
    assert_eq!(
        result_of(&trace),
        RestoreResult { restored: 1, restored_bytes: 4096, errors: 0, not_found: 0 }
    );
}

#[test]
fn directory_with_one_failed_child_counts_record_and_error() {
    let log = log_of(vec![record("/a/b", true, false, 4096)]);
    let trash = paths(&["/a/b/x", "/a/b/y", "/a/b/z"]);
    let session = restore_from_log(&log, &trash, PathStyle::CaseSensitive);
    let trace = drive(session, &[1], None);
    assert_eq!(
        result_of(&trace),
        RestoreResult { restored: 1, restored_bytes: 4096, errors: 1, not_found: 0 }
    );
}

#[test]
fn directory_with_every_child_failing_counts_errors_only() {
    let log = log_of(vec![record("/a/b", true, false, 4096)]);
    let trash = paths(&["/a/b/x", "/a/b/y"]);
    let session = restore_from_log(&log, &trash, PathStyle::CaseSensitive);
    let trace = drive(session, &[0, 1], None);
    assert!(trace.contains(&Action::Report { record: 0, outcome: RecordOutcome::Failed }));
    assert_eq!(
        result_of(&trace),
        RestoreResult { restored: 0, restored_bytes: 0, errors: 2, not_found: 0 }
    );
}

#[test]
fn prefix_collision_is_not_a_match() {
    let log = log_of(vec![record("/a/b", true, false, 10)]);
    let trash = paths(&["/a/bc/d"]);
    let session = restore_from_log(&log, &trash, PathStyle::CaseSensitive);
    let trace = drive(session, &[], None);
    assert!(!trace.iter().any(|a| matches!(a, Action::Restore { .. })));
    assert_eq!(
        result_of(&trace),
        RestoreResult { restored: 0, restored_bytes: 0, errors: 0, not_found: 1 }
    );
}

#[test]
fn data_foo_is_not_inside_data_fo() {
    let index = TrashIndex::build(&paths(&["/data/foo", "/data/foobar/x"]), PathStyle::CaseSensitive);
    let target = find_target(&index, &"/data/fo".to_string());
    assert!(!target.exact);
    assert!(target.entries.is_empty());
    let target = find_target(&index, &"/data/foobar".to_string());
    assert!(!target.exact);
    assert_eq!(target.entries, vec![1]);
}

#[test]
fn case_insensitive_match() {
    let log = log_of(vec![record("C:\\Users\\X\\File.txt", true, false, 7)]);
    let trash = paths(&["c:/users/x/file.txt"]);
    let session = restore_from_log(&log, &trash, PathStyle::CaseInsensitive);
    let trace = drive(session, &[], None);
    assert_eq!(
        result_of(&trace),
        RestoreResult { restored: 1, restored_bytes: 7, errors: 0, not_found: 0 }
    );
}

#[test]
fn case_sensitive_platform_does_not_fold_case() {
    let log = log_of(vec![record("C:\\Users\\X\\File.txt", true, false, 7)]);
    let trash = paths(&["c:/users/x/file.txt"]);
    let session = restore_from_log(&log, &trash, PathStyle::CaseSensitive);
    let trace = drive(session, &[], None);
    assert_eq!(
        result_of(&trace),
        RestoreResult { restored: 0, restored_bytes: 0, errors: 0, not_found: 1 }
    );
}

#[test]
fn normalize_case_insensitive() {
    assert_eq!(
        normalize_path("C:\\Users\\X\\File.txt", PathStyle::CaseInsensitive),
        "c:/users/x/file.txt"
    );
    assert_eq!(normalize_path("ÄB\\Ç", PathStyle::CaseInsensitive), "äb/ç");
}

#[test]
fn normalize_case_sensitive_is_identity() {
    assert_eq!(
        normalize_path("C:\\Users\\X\\File.txt", PathStyle::CaseSensitive),
        "C:\\Users\\X\\File.txt"
    );
    assert_eq!(normalize_path("", PathStyle::CaseSensitive), "");
}

#[test]
fn style_follows_the_backslash() {
    assert_eq!(path_style_where(true), PathStyle::CaseInsensitive);
    assert_eq!(path_style_where(false), PathStyle::CaseSensitive);
    assert_eq!(host_path_style(), path_style_where(std::path::is_separator('\\')));
}

#[test]
fn normalize_for_this_platform() {
    let normalized = normalize_path_for_comparison("/Tmp/A.txt");
    if std::path::is_separator('\\') {
        assert_eq!(normalized, "/tmp/a.txt");
    } else {
        assert_eq!(normalized, "/Tmp/A.txt");
    }
}

#[test]
fn exact_failure_counts_one_error() {
    let log = log_of(vec![record("/tmp/a.txt", true, false, 100)]);
    let trash = paths(&["/tmp/a.txt"]);
    let session = restore_from_log(&log, &trash, PathStyle::CaseSensitive);
    let trace = drive(session, &[0], None);
    assert!(trace.contains(&Action::Report { record: 0, outcome: RecordOutcome::Failed }));
    assert_eq!(
        result_of(&trace),
        RestoreResult { restored: 0, restored_bytes: 0, errors: 1, not_found: 0 }
    );
}

#[test]
fn exact_match_wins_over_directory_children() {
    let log = log_of(vec![record("/a/b", true, false, 5)]);
    let trash = paths(&["/a/b/x", "/a/b", "/a/b/y"]);
    let session = restore_from_log(&log, &trash, PathStyle::CaseSensitive);
    let trace = drive(session, &[], None);
    let restores: Vec<&Action> =
        trace.iter().filter(|a| matches!(a, Action::Restore { .. })).collect();
    assert_eq!(restores, vec![&Action::Restore { record: 0, entry: 1, exact: true }]);
}

#[test]
fn duplicate_paths_file_the_last_entry() {
    let index = TrashIndex::build(&paths(&["/t/a", "/t/b", "/t/a"]), PathStyle::CaseSensitive);
    assert_eq!(index.len(), 2);
    assert_eq!(index.find(&"/t/a".to_string()), Some(2));
    assert_eq!(index.find(&"/t/b".to_string()), Some(1));
    assert_eq!(index.find(&"/t/c".to_string()), None);
    // lines stand in the order in which their paths first occur
    assert_eq!(index.under("/t/"), vec![2, 1]);
}

#[test]
fn record_with_trailing_separator_gets_no_second_one() {
    let index = TrashIndex::build(&paths(&["/a/b/x", "/a/b//y"]), PathStyle::CaseSensitive);
    let entries = find_target(&index, &"/a/b/".to_string()).entries;
    assert_eq!(entries, vec![0, 1]);
    let entries = find_target(&index, &"/a/b".to_string()).entries;
    assert_eq!(entries.len(), 2);
}

#[test]
fn progress_is_told_before_each_record_and_at_the_end() {
    let log = log_of(vec![
        record("/tmp/a.txt", true, false, 100),
        record("/tmp/skipped", false, false, 1),
        record("/tmp/gone", true, false, 50),
        record("/tmp/dir", true, false, 1000),
    ]);
    let trash = paths(&["/tmp/a.txt", "/tmp/dir/one", "/tmp/dir/two"]);
    let session = restore_from_log_with_progress(&log, &trash, PathStyle::CaseSensitive, true);
    let trace = drive(session, &[2], None);
    let notes: Vec<&Action> = trace.iter().filter(|a| matches!(a, Action::Notify { .. })).collect();
    assert_eq!(
        notes,
        vec![
            &Action::Notify { upcoming: Some(0), restored: 0, total: 3, errors: 0, not_found: 0 },
            &Action::Notify { upcoming: Some(2), restored: 1, total: 3, errors: 0, not_found: 0 },
            &Action::Notify { upcoming: Some(3), restored: 1, total: 3, errors: 0, not_found: 1 },
            &Action::Notify { upcoming: None, restored: 2, total: 3, errors: 1, not_found: 1 },
        ]
    );
    assert_eq!(
        result_of(&trace),
        RestoreResult { restored: 2, restored_bytes: 1100, errors: 1, not_found: 1 }
    );
    // each Notify for a record precedes that record's first restore attempt
    let first_restore = trace.iter().position(|a| matches!(a, Action::Restore { .. })).unwrap();
    assert!(matches!(trace[first_restore - 1], Action::Notify { upcoming: Some(0), .. }));
}

#[test]
fn failing_observer_cancels_the_rest() {
    let log = log_of(vec![
        record("/tmp/a.txt", true, false, 100),
        record("/tmp/b.txt", true, false, 100),
    ]);
    let trash = paths(&["/tmp/a.txt", "/tmp/b.txt"]);
    let session = restore_from_log_with_progress(&log, &trash, PathStyle::CaseSensitive, true);
    let trace = drive(session, &[], Some(1));
    assert_eq!(trace.last(), Some(&Action::Cancel));
    let restores: Vec<&Action> =
        trace.iter().filter(|a| matches!(a, Action::Restore { .. })).collect();
    assert_eq!(restores, vec![&Action::Restore { record: 0, entry: 0, exact: true }]);
}

#[test]
fn failing_final_observer_call_cancels() {
    let log = log_of(vec![record("/tmp/a.txt", true, false, 100)]);
    let trash = paths(&["/tmp/a.txt"]);
    let session = restore_from_log_with_progress(&log, &trash, PathStyle::CaseSensitive, true);
    let trace = drive(session, &[], Some(1));
    assert_eq!(trace.last(), Some(&Action::Cancel));
}

#[test]
fn ended_session_stays_ended() {
    let log = log_of(vec![]);
    let mut session = restore_from_log(&log, &paths(&[]), PathStyle::CaseSensitive);
    let done = Action::Finish { result: RestoreResult::default() };
    assert!(session.is_over());
    assert_eq!(session.pending(), done);
    assert_eq!(session.advance(false), done);
    assert_eq!(session.advance(true), done);
}

#[test]
fn counts_add_up_to_restorable_records() {
    let log = log_of(vec![
        record("/r/one", true, false, 1),
        record("/r/two", true, false, 2),
        record("/r/three", false, true, 4),
        record("/r/dir", true, false, 8),
        record("/r/lost", true, false, 16),
    ]);
    let trash = paths(&["/r/one", "/r/two", "/r/dir/a", "/r/dir/b"]);
    let session = restore_from_log(&log, &trash, PathStyle::CaseSensitive);
    let result = result_of(&drive(session, &[1], None));
    assert_eq!(result, RestoreResult { restored: 2, restored_bytes: 9, errors: 1, not_found: 1 });
    assert_eq!(result.restored + result.errors + result.not_found, log.count_restorable());
    assert_eq!(log.count_restorable(), 4);
}

#[test]
fn restore_last_on_empty_history_fails() {
    match restore_last(None) {
        Err(error) => {
            assert_eq!(error, RestoreError::NothingToRestore);
            assert_eq!(error.message(""), "No deletion history found. Nothing to restore.");
        }
        Ok(_) => panic!("an empty history has nothing to restore"),
    }
    assert_eq!(restore_last_with_progress(None, true).err(), Some(RestoreError::NothingToRestore));
    assert_eq!(latest_session(&vec![]), None);
    assert_eq!(list_logs(&vec![]), Vec::<usize>::new());
}

#[test]
fn restore_last_restores_the_given_session() {
    let log = mixed_log();
    let request = restore_last(Some(&log)).ok().unwrap();
    assert!(!request.notify);
    assert!(std::ptr::eq(request.log, &log));
    let trash = paths(&["/tmp/a.txt"]);
    let trace = drive(request.begin(&trash, PathStyle::CaseSensitive), &[], None);
    assert_eq!(
        result_of(&trace),
        RestoreResult { restored: 1, restored_bytes: 100, errors: 0, not_found: 0 }
    );
    assert!(!trace.iter().any(|a| matches!(a, Action::Notify { .. })));
}

#[test]
fn restore_last_with_progress_tells_the_observer() {
    let log = mixed_log();
    let request = restore_last_with_progress(Some(&log), true).ok().unwrap();
    assert!(request.notify);
    let trash = paths(&["/tmp/a.txt"]);
    let trace = drive(request.begin(&trash, PathStyle::CaseSensitive), &[], None);
    let notes = trace.iter().filter(|a| matches!(a, Action::Notify { .. })).count();
    assert_eq!(notes, 2);
    let quiet = restore_last_with_progress(Some(&log), false).ok().unwrap();
    assert!(!quiet.notify);
}

#[test]
fn latest_session_is_the_newest_and_first_stored() {
    assert_eq!(latest_session(&vec![10, 30, 20]), Some(1));
    assert_eq!(latest_session(&vec![5]), Some(0));
    assert_eq!(latest_session(&vec![7, 9, 7, 9]), Some(1));
    assert_eq!(latest_session(&vec![0, 0, 0]), Some(0));
    for created in [vec![3, 1, 2], vec![4, 4], vec![1, 2, 3, 3, 0]] {
        assert_eq!(latest_session(&created), list_logs(&created).first().copied());
    }
}

#[test]
fn unrestorable_records_change_no_result() {
    let whole = log_of(vec![
        record("/r/skip-1", false, false, 1),
        record("/r/one", true, false, 2),
        record("/r/dir", true, true, 4),
        record("/r/dir", true, false, 8),
        record("/r/skip-2", false, true, 16),
        record("/r/lost", true, false, 32),
    ]);
    let kept = log_of(vec![
        record("/r/one", true, false, 2),
        record("/r/dir", true, false, 8),
        record("/r/lost", true, false, 32),
    ]);
    let trash = paths(&["/r/dir/a", "/r/one", "/r/dir/b", "/r/skip-1", "/r/skip-2"]);
    let entries = |trace: &[Action]| -> Vec<usize> {
        trace
            .iter()
            .filter_map(|a| match a {
                Action::Restore { entry, .. } => Some(*entry),
                _ => None,
            })
            .collect()
    };
    for failing in [vec![], vec![0], vec![1], vec![0, 2]] {
        let first = drive(restore_from_log(&whole, &trash, PathStyle::CaseSensitive), &failing, None);
        let second = drive(restore_from_log(&kept, &trash, PathStyle::CaseSensitive), &failing, None);
        assert_eq!(result_of(&first), result_of(&second));
        assert_eq!(entries(&first), entries(&second));
        assert_eq!(entries(&first), vec![1, 0, 2]);
    }
}

#[test]
fn emptied_trash_finds_nothing_whatever_the_sizes() {
    let log = log_of(vec![
        record("/a", true, false, u64::MAX),
        record("/b", true, false, u64::MAX),
        record("/c", false, false, 5),
        record("/d", true, false, 7),
    ]);
    let trash = paths(&[]);
    assert!(can_reconcile(&log, &trash, PathStyle::CaseSensitive));
    let trace = drive(restore_from_log(&log, &trash, PathStyle::CaseSensitive), &[], None);
    assert!(!trace.iter().any(|a| matches!(a, Action::Restore { .. })));
    assert_eq!(
        result_of(&trace),
        RestoreResult { restored: 0, restored_bytes: 0, errors: 0, not_found: 3 }
    );
}

#[test]
fn directory_with_an_occupied_child_still_counts_once() {
    let log = log_of(vec![record("/a/b", true, false, 500)]);
    let trash = paths(&["/a/b/x", "/a/b/y"]);
    for style in [PathStyle::CaseSensitive, PathStyle::CaseInsensitive] {
        let trace = drive(restore_from_log(&log, &trash, style), &[0], None);
        assert_eq!(
            result_of(&trace),
            RestoreResult { restored: 1, restored_bytes: 500, errors: 1, not_found: 0 }
        );
        assert!(trace.contains(&Action::Report {
            record: 0,
            outcome: RecordOutcome::RestoredDirectory { items: 1 }
        }));
    }
}

#[test]
fn restore_count_of_latest_session() {
    assert_eq!(get_restore_count(None), 0);
    assert_eq!(get_restore_count(Some(&mixed_log())), 1);
    assert_eq!(get_restore_count(Some(&log_of(vec![]))), 0);
}

#[test]
fn error_messages() {
    assert_eq!(TRASH_UNAVAILABLE, "Failed to list Recycle Bin contents");
    assert_eq!(
        RestoreError::NotInTrash.message("/tmp/a.txt"),
        "File or directory not found in Recycle Bin: /tmp/a.txt"
    );
}

#[test]
fn restore_path_exact_takes_the_first_entry() {
    let trash = paths(&["/t/a/x", "/t/a", "/t/a"]);
    let target = restore_path("/t/a", &trash, PathStyle::CaseSensitive).ok().unwrap();
    assert!(target.exact);
    assert_eq!(target.entries, vec![1]);
    assert_eq!(
        conclude_path_restore(&target, &vec![Some(42)]),
        Ok(RestoreResult { restored: 1, restored_bytes: 42, errors: 0, not_found: 0 })
    );
    // a file that is refused, say because its place is taken, is one error
    assert_eq!(
        conclude_path_restore(&target, &vec![None]),
        Ok(RestoreResult { restored: 0, restored_bytes: 0, errors: 1, not_found: 0 })
    );
}

#[test]
fn restore_path_directory_measures_what_came_back() {
    let trash = paths(&["/t/d/x", "/t/dx", "/t/d/y", "/t/d/x"]);
    let target = restore_path("/t/d", &trash, PathStyle::CaseSensitive).ok().unwrap();
    assert!(!target.exact);
    assert_eq!(target.entries, vec![0, 2, 3]);
    assert_eq!(
        conclude_path_restore(&target, &vec![Some(10), None, Some(5)]),
        Ok(RestoreResult { restored: 1, restored_bytes: 15, errors: 1, not_found: 0 })
    );
    assert_eq!(
        conclude_path_restore(&target, &vec![None, None, None]),
        Ok(RestoreResult { restored: 0, restored_bytes: 0, errors: 3, not_found: 0 })
    );
    assert!(can_measure(&vec![Some(10), None, Some(5)]));
    assert!(can_measure(&vec![Some(u64::MAX), None, Some(0)]));
    assert!(!can_measure(&vec![Some(u64::MAX), None, Some(1)]));
    assert!(can_measure(&vec![]));
}

#[test]
fn restore_path_not_in_trash_fails() {
    let trash = paths(&["/t/dx", "/t/e"]);
    assert_eq!(
        restore_path("/t/d", &trash, PathStyle::CaseSensitive).err(),
        Some(RestoreError::NotInTrash)
    );
    assert_eq!(
        restore_path("/t/d", &paths(&[]), PathStyle::CaseSensitive).err(),
        Some(RestoreError::NotInTrash)
    );
}

#[test]
fn restore_path_case_insensitive() {
    let trash = paths(&["c:/users/x/file.txt"]);
    let target =
        restore_path("C:\\Users\\X\\File.txt", &trash, PathStyle::CaseInsensitive).ok().unwrap();
    assert!(target.exact);
    assert_eq!(target.entries, vec![0]);
}

fn put_back(parent_exists: bool, parent_created: bool, destination_exists: bool, moved: bool) -> (FileStep, Vec<FileStep>) {
    let mut step = FileStep::ProbeParent;
    let mut asked = Vec::new();
    while !step.is_over() {
        asked.push(step);
        let answer = match step {
            FileStep::ProbeParent => parent_exists,
            FileStep::CreateParent => parent_created,
            FileStep::ProbeDestination => destination_exists,
            FileStep::MoveBack => moved,
            _ => unreachable!(),
        };
        step = restore_file(step, answer);
    }
    (step, asked)
}

#[test]
fn restoring_succeeds_iff_destination_is_free() {
    assert_eq!(put_back(true, false, false, true).0, FileStep::Restored);
    let (end, asked) = put_back(true, false, true, true);
    assert_eq!(end, FileStep::Refused(FileFailure::DestinationExists));
    assert!(!asked.contains(&FileStep::MoveBack));
}

#[test]
fn missing_parent_is_created_on_demand() {
    let (end, asked) = put_back(false, true, false, true);
    assert_eq!(end, FileStep::Restored);
    assert_eq!(
        asked,
        vec![
            FileStep::ProbeParent,
            FileStep::CreateParent,
            FileStep::ProbeDestination,
            FileStep::MoveBack
        ]
    );
    assert_eq!(put_back(false, false, false, true).0, FileStep::Refused(FileFailure::ParentNotCreated));
    assert_eq!(put_back(true, true, false, false).0, FileStep::Refused(FileFailure::NotRestored));
}

#[test]
fn file_failure_messages() {
    assert_eq!(
        FileFailure::DestinationExists.message("/a/b.txt", "/a"),
        "Destination already exists: /a/b.txt"
    );
    assert_eq!(
        FileFailure::ParentNotCreated.message("/a/b.txt", "/a"),
        "Failed to create parent directory: /a"
    );
    assert_eq!(
        FileFailure::NotRestored.message("/a/b.txt", "/a"),
        "Failed to restore file to /a/b.txt"
    );
}

#[test]
fn output_mode_policy() {
    assert!(!OutputMode::Quiet.shows(RecordOutcome::Restored));
    assert!(OutputMode::Normal.shows(RecordOutcome::Restored));
    assert!(OutputMode::Verbose.shows(RecordOutcome::RestoredDirectory { items: 3 }));
    assert!(!OutputMode::Verbose.shows(RecordOutcome::NotFound));
    assert!(OutputMode::VeryVerbose.shows(RecordOutcome::NotFound));
    assert!(!OutputMode::VeryVerbose.shows(RecordOutcome::Failed));
    assert!(!OutputMode::Quiet.shows_failures());
    assert!(OutputMode::Normal.shows_failures());
}

#[test]
fn original_paths_join_parent_and_name() {
    let entries = vec![
        TrashEntry { original_parent: "/a/b".to_string(), name: "x".to_string() },
        TrashEntry { original_parent: "/a/b/".to_string(), name: "y".to_string() },
    ];
    let joined = original_paths(&entries);
    let expected: Vec<String> = vec![
        std::path::Path::new("/a/b").join("x").display().to_string(),
        std::path::Path::new("/a/b/").join("y").display().to_string(),
    ];
    assert_eq!(joined, expected);
    assert_ne!(joined[0], "/a/b");
    let log = log_of(vec![record(&expected[0], true, false, 3)]);
    let session = restore_from_log(&log, &joined, PathStyle::CaseSensitive);
    assert_eq!(
        result_of(&drive(session, &[], None)),
        RestoreResult { restored: 1, restored_bytes: 3, errors: 0, not_found: 0 }
    );
}

#[test]
fn plan_limits() {
    let sensitive = PathStyle::CaseSensitive;
    let log = mixed_log();
    assert!(can_reconcile(&log, &paths(&[]), sensitive));
    assert!(can_reconcile(&log, &paths(&["/tmp/a.txt", "/tmp/b.txt"]), sensitive));
    // two records in the trash store whose sizes together are beyond u64
    let heavy = log_of(vec![record("/a", true, false, u64::MAX), record("/b", true, false, 1)]);
    assert!(!can_reconcile(&heavy, &paths(&["/a", "/b"]), sensitive));
    // only one of them is in the trash store: nothing more can be added
    assert!(can_reconcile(&heavy, &paths(&["/a"]), sensitive));
    assert!(can_reconcile(&heavy, &paths(&["/b", "/c"]), sensitive));
    // a directory counts at its logged size if one item of it is there
    assert!(!can_reconcile(&heavy, &paths(&["/a/x", "/b"]), sensitive));
    let light = log_of(vec![record("/a", true, false, u64::MAX), record("/b", false, false, 1)]);
    assert!(can_reconcile(&light, &paths(&["/a", "/b"]), sensitive));
    let index = TrashIndex::build(&paths(&["/a", "/b"]), sensitive);
    let plan: RestorePlan = plan_restore(&heavy, &index, sensitive);
    assert!(!plan.fits());
    assert!(plan_restore(&light, &index, sensitive).fits());
    let index = TrashIndex::build(&paths(&["/a"]), sensitive);
    assert!(plan_restore(&heavy, &index, sensitive).fits());
}
