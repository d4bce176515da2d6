//! Discovery filtering, the scan coordinator's protocol, the result set, and
//! the deletion decisions.

use dr_analyzer::deletion::{should_remove_parent, DeletionSettings};
use dr_analyzer::discover::is_scan_candidate;
use dr_analyzer::outcome::{initial_results, rows_of, AnalysisOutcome, ScanResult, ScanTarget};
use dr_analyzer::results::ResultSet;
use dr_analyzer::scan::ScanCoordinator;

fn result(name: &str, path: &str, outcome: AnalysisOutcome) -> ScanResult {
    ScanResult { filename: name.to_string(), path: path.to_string(), outcome }
}

#[test]
fn recognized_extensions() {
    assert!(is_scan_candidate("notes.txt"));
    assert!(is_scan_candidate("server.log"));
    assert!(is_scan_candidate("a.b.txt"));
    assert!(is_scan_candidate("..txt"));
}

#[test]
fn rejected_extensions() {
    assert!(!is_scan_candidate("notes.TXT"));
    assert!(!is_scan_candidate("notes.md"));
    assert!(!is_scan_candidate("txt"));
    assert!(!is_scan_candidate(".txt"));
    assert!(!is_scan_candidate(".log"));
    assert!(!is_scan_candidate("archive.txt.bak"));
    assert!(!is_scan_candidate(""));
}

#[test]
fn empty_scan_emits_single_zero_notice_and_empty_batch() {
    let (coordinator, notice) = ScanCoordinator::start(0);
    assert_eq!(notice, Some((0, 0)));
    assert!(coordinator.is_done());
    let batch = coordinator.into_batch();
    assert_eq!(batch.len(), 0);
}

#[test]
fn nonempty_scan_emits_no_upfront_notice() {
    let (coordinator, notice) = ScanCoordinator::start(2);
    assert_eq!(notice, None);
    assert!(!coordinator.is_done());
}

#[test]
fn progress_counts_up_to_the_fixed_total() {
    let (mut coordinator, _) = ScanCoordinator::start(3);
    let p1 = coordinator.record(result("a.txt", "a.txt", AnalysisOutcome::Rated(1)));
    assert_eq!(p1, (1, 3));
    assert!(!coordinator.is_done());
    let p2 = coordinator.record(result("b.txt", "b.txt", AnalysisOutcome::Error));
    assert_eq!(p2, (2, 3));
    let p3 = coordinator.record(result("c.txt", "c.txt", AnalysisOutcome::Rated(200)));
    assert_eq!(p3, (3, 3));
    assert!(coordinator.is_done());
    let batch = coordinator.into_batch();
    assert_eq!(batch.len(), 3);
}

#[test]
fn batch_keeps_an_entry_for_every_file_beside_a_failure() {
    let (mut coordinator, _) = ScanCoordinator::start(2);
    coordinator.record(result("bad.txt", "bad.txt", AnalysisOutcome::Error));
    coordinator.record(result("good.txt", "good.txt", AnalysisOutcome::Rated(12)));
    let batch = coordinator.into_batch();
    assert_eq!(batch.len(), 2);
    assert!(batch.iter().any(|r| r.path == "good.txt"));
    assert!(batch.iter().any(|r| r.path == "bad.txt"));
}

#[test]
fn discovery_publishes_all_pending() {
    let targets = vec![
        ScanTarget { filename: "a.txt".to_string(), path: "/d/a.txt".to_string() },
        ScanTarget { filename: "b.log".to_string(), path: "/d/b.log".to_string() },
    ];
    let rs = initial_results(&targets);
    assert_eq!(rs.len(), 2);
    assert!(rs.iter().all(|r| r.outcome == AnalysisOutcome::Pending));
    assert_eq!(rs[0].path, "/d/a.txt");
    assert_eq!(rs[1].path, "/d/b.log");
}

#[test]
fn pending_rows_show_pending() {
    let targets = vec![ScanTarget { filename: "a.txt".to_string(), path: "/d/a.txt".to_string() }];
    let rs = initial_results(&targets);
    let rows = rows_of(&rs);
    assert_eq!(rows.len(), 1);
    assert_eq!(rows[0].label, "PENDING");
}

#[test]
fn removal_shrinks_by_exactly_the_requested_count() {
    let mut set = ResultSet::new();
    set.replace(vec![
        result("a", "/d/a", AnalysisOutcome::Rated(1)),
        result("b", "/d/b", AnalysisOutcome::Rated(2)),
        result("c", "/d/c", AnalysisOutcome::Error),
        result("d", "/d/d", AnalysisOutcome::Pending),
    ]);
    let requested = vec!["/d/b".to_string(), "/d/d".to_string()];
    set.remove_paths(&requested);
    assert_eq!(set.len(), 2);
    assert_eq!(set.get(0).path, "/d/a");
    assert_eq!(set.get(1).path, "/d/c");
}

#[test]
fn removal_of_absent_path_changes_nothing() {
    let mut set = ResultSet::new();
    set.replace(vec![result("a", "/d/a", AnalysisOutcome::Rated(1))]);
    set.remove_paths(&vec!["/d/zzz".to_string()]);
    assert_eq!(set.len(), 1);
}

#[test]
fn clear_empties_the_set() {
    let mut set = ResultSet::new();
    set.replace(vec![result("a", "/d/a", AnalysisOutcome::Rated(1))]);
    set.clear();
    assert_eq!(set.len(), 0);
}

#[test]
fn sorted_view_of_the_set() {
    let mut set = ResultSet::new();
    set.replace(vec![
        result("b", "/d/b", AnalysisOutcome::Rated(3)),
        result("a", "/d/a", AnalysisOutcome::Rated(14)),
        result("c", "/d/c", AnalysisOutcome::Pending),
    ]);
    let sorted = set.sorted_results();
    let paths: Vec<String> = sorted.iter().map(|r| r.path.clone()).collect();
    assert_eq!(paths, vec!["/d/a", "/d/b", "/d/c"]);
}

#[test]
fn settings_default_off_and_gate_pruning() {
    let mut settings = DeletionSettings::new();
    assert!(!settings.needs_confirmation());
    assert!(!settings.set_delete_folders(true));
    assert!(!settings.needs_confirmation());
    settings.set_delete_files(true);
    assert!(settings.needs_confirmation());
    assert!(settings.set_delete_folders(true));
    settings.set_delete_files(false);
    assert!(!settings.needs_confirmation());
    assert!(!settings.set_delete_folders(true));
}

#[test]
fn sole_file_prunes_parent_with_cascade() {
    let mut settings = DeletionSettings::new();
    settings.set_delete_files(true);
    settings.set_delete_folders(true);
    // The directory held one file; its removal succeeded; nothing is left.
    assert!(should_remove_parent(&settings, true, 0));
}

#[test]
fn one_of_two_files_leaves_parent_with_cascade() {
    let mut settings = DeletionSettings::new();
    settings.set_delete_files(true);
    settings.set_delete_folders(true);
    // The directory held two files; one removal succeeded; one is left.
    assert!(!should_remove_parent(&settings, true, 1));
}

#[test]
fn failed_removal_never_prunes() {
    let mut settings = DeletionSettings::new();
    settings.set_delete_files(true);
    settings.set_delete_folders(true);
    assert!(!should_remove_parent(&settings, false, 0));
}

#[test]
fn no_cascade_never_prunes() {
    let mut settings = DeletionSettings::new();
    settings.set_delete_files(true);
    assert!(!should_remove_parent(&settings, true, 0));
}

#[test]
fn disabled_filesystem_deletion_never_prunes() {
    let settings = DeletionSettings::new();
    assert!(!should_remove_parent(&settings, true, 0));
}

#[test]
fn in_memory_removal_ignores_filesystem_failures() {
    // Simulate a batch where every filesystem deletion failed: the set
    // still shrinks by exactly the number of requested paths, and the
    // deletion decisions above show no directory would be touched.
    let mut set = ResultSet::new();
    set.replace(vec![
        result("a", "/d/a", AnalysisOutcome::Rated(1)),
        result("b", "/d/b", AnalysisOutcome::Rated(2)),
        result("c", "/d/c", AnalysisOutcome::Rated(3)),
    ]);
    let requested = vec!["/d/a".to_string(), "/d/c".to_string()];
    let settings = DeletionSettings::new();
    for _path in &requested {
        assert!(!should_remove_parent(&settings, false, 1));
    }
    set.remove_paths(&requested);
    assert_eq!(set.len(), 1);
    assert_eq!(set.get(0).path, "/d/b");
}
