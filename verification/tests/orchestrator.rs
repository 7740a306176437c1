use wole::cleaner::{
    can_tally, categories_to_clean, clean_all, clean_warning, trash_warning, confirmation_prompt, confirms, count_items, is_yes,
    tally_cleaning, CleanStart, CleanOutcomes, CleanTally,
};
use wole::debug_log::{
    cleaning_log, log_dir, log_line, log_path, HostDirs, CLEANING_LOG, TIMESTAMP_FORMAT,
};
use wole::history::list_logs;
use wole::scan_command::{
    cache_parts_to_clear, handle_scan, invalid_size_message, megabytes_in_bytes, use_cache,
    whole_megabytes, CategoryFlags, ScanCommand,
};
use wole::scanner::{
    categories_to_scan, scan_all, scan_warning, Category, CategoryResult, ScanOptions, ScanResults,
};

fn found(items: usize, paths: &[&str]) -> CategoryResult {
    CategoryResult { items, paths: paths.iter().map(|p| p.to_string()).collect() }
}

fn options(cache: bool, temp: bool, trash: bool, build: bool) -> ScanOptions {
    ScanOptions { cache, temp, trash, build, project_age_days: 14 }
}

fn no_flags() -> CategoryFlags {
    CategoryFlags {
        cache: false,
        app_cache: false,
        temp: false,
        trash: false,
        build: false,
        downloads: false,
        large: false,
        old: false,
        applications: false,
        windows_update: false,
        event_logs: false,
    }
}

#[test]
fn list_logs_of_empty_history_is_empty() {
    assert_eq!(list_logs(&vec![]), Vec::<usize>::new());
}

#[test]
fn list_logs_is_newest_first() {
    assert_eq!(list_logs(&vec![10, 30, 20]), vec![1, 2, 0]);
    assert_eq!(list_logs(&vec![5]), vec![0]);
    assert_eq!(list_logs(&vec![1, 2, 3, 4]), vec![3, 2, 1, 0]);
}

#[test]
fn list_logs_breaks_ties_by_storage_order() {
    assert_eq!(list_logs(&vec![7, 9, 7, 9, 7]), vec![1, 3, 0, 2, 4]);
    assert_eq!(list_logs(&vec![0, 0, 0]), vec![0, 1, 2]);
    assert_eq!(list_logs(&vec![u64::MAX, 0, u64::MAX]), vec![0, 2, 1]);
}

#[test]
fn scan_runs_enabled_categories_in_order() {
    assert_eq!(
        categories_to_scan(&options(true, true, true, true)),
        vec![Category::Cache, Category::Temp, Category::Trash, Category::Build]
    );
    assert_eq!(
        categories_to_scan(&options(false, true, false, true)),
        vec![Category::Temp, Category::Build]
    );
    assert!(categories_to_scan(&options(false, false, false, false)).is_empty());
    assert!(options(true, false, false, false).is_enabled(Category::Cache));
    assert!(!options(true, false, false, false).is_enabled(Category::Build));
}

#[test]
fn one_failed_detector_leaves_the_others() {
    let report = scan_all(
        &options(true, true, true, true),
        Some(found(2, &["/c/1", "/c/2"])),
        None,
        Some(found(5, &[])),
        Some(found(1, &["/p/target"])),
    );
    assert_eq!(report.failed, vec![Category::Temp]);
    assert_eq!(report.results.cache.items, 2);
    assert_eq!(report.results.cache.paths, vec!["/c/1".to_string(), "/c/2".to_string()]);
    assert_eq!(report.results.temp.items, 0);
    assert!(report.results.temp.paths.is_empty());
    assert_eq!(report.results.trash.items, 5);
    assert_eq!(report.results.build.items, 1);
    assert_eq!(report.results.build.paths, vec!["/p/target".to_string()]);
}

#[test]
fn disabled_category_contributes_nothing() {
    let report = scan_all(
        &options(false, true, false, false),
        Some(found(2, &["/c/1", "/c/2"])),
        Some(found(1, &["/t/1"])),
        None,
        None,
    );
    assert!(report.failed.is_empty());
    assert_eq!(report.results.cache.items, 0);
    assert!(report.results.cache.paths.is_empty());
    assert_eq!(report.results.temp.items, 1);
    assert_eq!(report.results.trash.items, 0);
    assert_eq!(report.results.build.items, 0);
}

#[test]
fn every_detector_failing_is_no_failure_of_the_scan() {
    let report = scan_all(&options(true, true, true, true), None, None, None, None);
    assert_eq!(
        report.failed,
        vec![Category::Cache, Category::Temp, Category::Trash, Category::Build]
    );
    assert_eq!(count_items(&report.results), Some(0));
}

#[test]
fn scan_warnings() {
    assert_eq!(scan_warning(Category::Cache, "denied"), "Warning: Cache scan failed: denied");
    assert_eq!(scan_warning(Category::Temp, "x"), "Warning: Temp scan failed: x");
    assert_eq!(scan_warning(Category::Trash, ""), "Warning: Trash scan failed: ");
    assert_eq!(scan_warning(Category::Build, "gone"), "Warning: Build scan failed: gone");
}

#[test]
fn default_results_are_empty() {
    let results = ScanResults::default();
    assert_eq!(count_items(&results), Some(0));
    assert!(results.cache.paths.is_empty() && results.build.paths.is_empty());
    assert_eq!(clean_all(&results, true), CleanStart::NothingToClean);
    assert_eq!(clean_all(&results, false), CleanStart::NothingToClean);
}

fn some_results() -> ScanResults {
    ScanResults {
        cache: found(2, &["/c/1", "/c/2"]),
        temp: found(0, &["/t/ignored"]),
        trash: found(7, &[]),
        build: found(3, &["/b/1", "/b/2", "/b/3"]),
    }
}

#[test]
fn nothing_is_removed_without_authorization() {
    let results = some_results();
    assert_eq!(count_items(&results), Some(12));
    assert_eq!(clean_all(&results, false), CleanStart::Confirm { total: 12 });
    assert_eq!(clean_all(&results, true), CleanStart::Clean { total: 12 });
    assert_eq!(confirmation_prompt(12), "Delete 12 items? [y/N]: ");
}

#[test]
fn only_a_lone_y_confirms() {
    assert!(confirms("y"));
    assert!(confirms("Y"));
    assert!(confirms("  y \n"));
    assert!(confirms("\tY\r\n"));
    assert!(!confirms(""));
    assert!(!confirms("\n"));
    assert!(!confirms("yes"));
    assert!(!confirms("n"));
    assert!(!confirms("y y"));
    assert!(!confirms("ÿ"));
    assert!(is_yes("y"));
    assert!(is_yes("Y"));
    assert!(!is_yes(" y"));
    assert!(!is_yes("yy"));
    assert!(!is_yes(""));
}

#[test]
fn item_count_beyond_usize_is_told() {
    let results = ScanResults {
        cache: found(usize::MAX, &[]),
        temp: found(1, &[]),
        trash: found(0, &[]),
        build: found(0, &[]),
    };
    assert_eq!(count_items(&results), None);
}

#[test]
fn categories_with_items_are_cleaned_in_order() {
    assert_eq!(
        categories_to_clean(&some_results()),
        vec![Category::Cache, Category::Trash, Category::Build]
    );
    assert!(categories_to_clean(&ScanResults::default()).is_empty());
    assert_eq!(Category::Cache.cleaning_notice(), "Cleaning cache directories...");
    assert_eq!(Category::Temp.cleaning_notice(), "Cleaning temp files...");
    assert_eq!(Category::Trash.cleaning_notice(), "Emptying Recycle Bin...");
    assert_eq!(Category::Build.cleaning_notice(), "Cleaning build artifacts...");
}

#[test]
fn failures_are_counted_and_the_batch_goes_on() {
    let results = some_results();
    let outcomes = CleanOutcomes {
        cache: vec![true, false],
        temp: vec![false],
        trash: true,
        build: vec![false, true, true],
    };
    assert!(can_tally(&results, &outcomes));
    let tally = tally_cleaning(&results, &outcomes);
    assert_eq!(tally, CleanTally { cleaned: 1 + 7 + 2, errors: 2 });
    assert_eq!(tally.message(), "Cleanup complete. 10 items cleaned, 2 errors encountered.");
}

#[test]
fn trash_not_emptied_is_one_error() {
    let results = some_results();
    let outcomes =
        CleanOutcomes { cache: vec![true, true], temp: vec![], trash: false, build: vec![true; 3] };
    let tally = tally_cleaning(&results, &outcomes);
    assert_eq!(tally, CleanTally { cleaned: 5, errors: 1 });
}

#[test]
fn clean_run_without_errors() {
    let results = some_results();
    let outcomes =
        CleanOutcomes { cache: vec![true, true], temp: vec![], trash: true, build: vec![true; 3] };
    let tally = tally_cleaning(&results, &outcomes);
    assert_eq!(tally, CleanTally { cleaned: 12, errors: 0 });
    assert_eq!(tally.message(), "Cleanup complete. 12 items cleaned.");
}

#[test]
fn cleaning_warnings() {
    assert_eq!(clean_warning("/c/1", "denied"), "Warning: Failed to clean /c/1: denied");
    assert_eq!(trash_warning("busy"), "Warning: Failed to empty Recycle Bin: busy");
}

#[test]
fn tally_beyond_usize_is_told() {
    let results = ScanResults {
        cache: found(1, &["/c"]),
        temp: found(0, &[]),
        trash: found(usize::MAX, &[]),
        build: found(0, &[]),
    };
    let outcomes = CleanOutcomes { cache: vec![true], temp: vec![], trash: true, build: vec![] };
    assert!(!can_tally(&results, &outcomes));
    let outcomes = CleanOutcomes { cache: vec![false], temp: vec![], trash: true, build: vec![] };
    assert!(can_tally(&results, &outcomes));
}

#[test]
fn scan_command_selection() {
    assert_eq!(handle_scan(false, &no_flags()), ScanCommand::ShowHelp);
    match handle_scan(true, &no_flags()) {
        ScanCommand::Scan(s) => {
            assert!(s.cache && s.app_cache && s.temp && s.trash && s.build && s.downloads);
            assert!(s.large && s.old && s.applications && s.browser && s.system && s.empty);
            assert!(s.duplicates && s.windows_update && s.event_logs);
        }
        ScanCommand::ShowHelp => panic!("--all selects every category"),
    }
    let flags = CategoryFlags { temp: true, event_logs: true, ..no_flags() };
    match handle_scan(false, &flags) {
        ScanCommand::Scan(s) => {
            assert!(s.temp && s.event_logs);
            assert!(!s.cache && !s.app_cache && !s.trash && !s.build && !s.downloads);
            assert!(!s.large && !s.old && !s.applications && !s.windows_update);
            assert!(!s.browser && !s.system && !s.empty && !s.duplicates);
        }
        ScanCommand::ShowHelp => panic!("two categories were named"),
    }
}

#[test]
fn scan_cache_decisions() {
    assert!(use_cache(false, true, false));
    assert!(!use_cache(true, true, false));
    assert!(!use_cache(false, false, false));
    assert!(!use_cache(false, true, true));
    assert_eq!(
        cache_parts_to_clear(true, &no_flags()),
        vec![
            "cache",
            "app_cache",
            "temp",
            "trash",
            "build",
            "downloads",
            "large",
            "old",
            "applications",
            "windows_update",
            "event_logs"
        ]
    );
    let flags = CategoryFlags { build: true, cache: true, old: true, ..no_flags() };
    assert_eq!(cache_parts_to_clear(false, &flags), vec!["cache", "build", "old"]);
    assert!(cache_parts_to_clear(false, &no_flags()).is_empty());
}

#[test]
fn size_thresholds() {
    assert_eq!(whole_megabytes(0), 0);
    assert_eq!(whole_megabytes(1_048_575), 0);
    assert_eq!(whole_megabytes(1_048_576), 1);
    assert_eq!(whole_megabytes(100 * 1024 * 1024 + 5), 100);
    assert_eq!(megabytes_in_bytes(100), Some(104_857_600));
    assert_eq!(megabytes_in_bytes(0), Some(0));
    assert_eq!(megabytes_in_bytes(u64::MAX / 1_048_576), Some(u64::MAX - 1_048_575));
    assert_eq!(megabytes_in_bytes(u64::MAX / 1_048_576 + 1), None);
    assert_eq!(
        invalid_size_message("12xb", "unknown unit"),
        "Invalid size format '12xb': unknown unit"
    );
}

#[test]
fn log_directory_by_platform() {
    let dirs = HostDirs {
        local_app_data: Some("C:\\Users\\me\\AppData\\Local".to_string()),
        user_profile: Some("C:\\Users\\me".to_string()),
        home: Some("/home/me".to_string()),
    };
    assert_eq!(
        log_dir(true, &dirs),
        Some(vec!["C:\\Users\\me\\AppData\\Local".to_string(), "wole".to_string(), "logs".to_string()])
    );
    assert_eq!(
        log_dir(false, &dirs),
        Some(
            ["/home/me", ".local", "share", "wole", "logs"].iter().map(|s| s.to_string()).collect()
        )
    );
    let profile_only = HostDirs {
        local_app_data: None,
        user_profile: Some("C:\\Users\\me".to_string()),
        home: None,
    };
    assert_eq!(
        log_dir(true, &profile_only),
        Some(
            ["C:\\Users\\me", "AppData", "Local", "wole", "logs"]
                .iter()
                .map(|s| s.to_string())
                .collect()
        )
    );
    assert_eq!(log_dir(false, &profile_only), None);
    let nothing = HostDirs { local_app_data: None, user_profile: None, home: None };
    assert_eq!(log_dir(true, &nothing), None);
    assert_eq!(log_path(true, &nothing, "cleaning.log"), None);
    assert_eq!(
        log_path(false, &dirs, "cleaning.log"),
        Some(
            ["/home/me", ".local", "share", "wole", "logs", "cleaning.log"]
                .iter()
                .map(|s| s.to_string())
                .collect()
        )
    );
}

#[test]
fn log_lines() {
    assert_eq!(log_line("2024-01-02 03:04:05", "started"), "[2024-01-02 03:04:05] started");
    assert_eq!(log_line("", ""), "[] ");
    let entry = cleaning_log("2024-01-02 03:04:05", "removed /tmp/x");
    assert_eq!(entry.file_name, "cleaning.log");
    assert_eq!(entry.line, "[2024-01-02 03:04:05] removed /tmp/x");
    assert_eq!(CLEANING_LOG, "cleaning.log");
    assert_eq!(TIMESTAMP_FORMAT, "%Y-%m-%d %H:%M:%S");
}
