//! The canonical order: the documented example, tie-breaks, idempotence, and
//! the rating labels.

use dr_analyzer::order::sort_results;
use dr_analyzer::outcome::{rating_label, row_of, AnalysisOutcome, ScanResult};

fn result(name: &str, path: &str, outcome: AnalysisOutcome) -> ScanResult {
    ScanResult { filename: name.to_string(), path: path.to_string(), outcome }
}

fn paths_of(batch: &[ScanResult]) -> Vec<String> {
    batch.iter().map(|r| r.path.clone()).collect()
}

#[test]
fn documented_example_order() {
    let batch = vec![
        result("b.txt", "b.txt", AnalysisOutcome::Rated(12)),
        result("a.txt", "a.txt", AnalysisOutcome::Rated(12)),
        result("c.txt", "c.txt", AnalysisOutcome::Rated(3)),
        result("d.txt", "d.txt", AnalysisOutcome::Error),
        result("e.txt", "e.txt", AnalysisOutcome::Pending),
    ];
    let sorted = sort_results(batch);
    assert_eq!(paths_of(&sorted), vec!["a.txt", "b.txt", "c.txt", "d.txt", "e.txt"]);
    assert_eq!(sorted[0].outcome, AnalysisOutcome::Rated(12));
    assert_eq!(sorted[1].outcome, AnalysisOutcome::Rated(12));
    assert_eq!(sorted[2].outcome, AnalysisOutcome::Rated(3));
    assert_eq!(sorted[3].outcome, AnalysisOutcome::Error);
    assert_eq!(sorted[4].outcome, AnalysisOutcome::Pending);
}

#[test]
fn ratings_sort_descending() {
    let batch = vec![
        result("low.txt", "low.txt", AnalysisOutcome::Rated(3)),
        result("high.txt", "high.txt", AnalysisOutcome::Rated(14)),
        result("mid.txt", "mid.txt", AnalysisOutcome::Rated(9)),
    ];
    let sorted = sort_results(batch);
    assert_eq!(paths_of(&sorted), vec!["high.txt", "mid.txt", "low.txt"]);
}

#[test]
fn any_rating_precedes_error_and_pending() {
    let batch = vec![
        result("p.log", "p.log", AnalysisOutcome::Pending),
        result("e.log", "e.log", AnalysisOutcome::Error),
        result("r.log", "r.log", AnalysisOutcome::Rated(0)),
    ];
    let sorted = sort_results(batch);
    assert_eq!(paths_of(&sorted), vec!["r.log", "e.log", "p.log"]);
}

#[test]
fn errors_precede_pending_and_tie_break_by_path() {
    let batch = vec![
        result("z", "z", AnalysisOutcome::Pending),
        result("y", "y", AnalysisOutcome::Error),
        result("x", "x", AnalysisOutcome::Pending),
        result("w", "w", AnalysisOutcome::Error),
    ];
    let sorted = sort_results(batch);
    assert_eq!(paths_of(&sorted), vec!["w", "y", "x", "z"]);
}

#[test]
fn sorting_twice_reproduces_the_sequence() {
    let batch = vec![
        result("b", "b", AnalysisOutcome::Rated(5)),
        result("a", "a", AnalysisOutcome::Error),
        result("c", "c", AnalysisOutcome::Rated(200)),
        result("d", "d", AnalysisOutcome::Pending),
    ];
    let once = sort_results(batch);
    let first_paths = paths_of(&once);
    let first_outcomes: Vec<AnalysisOutcome> = once.iter().map(|r| r.outcome).collect();
    let twice = sort_results(once);
    assert_eq!(paths_of(&twice), first_paths);
    let second_outcomes: Vec<AnalysisOutcome> = twice.iter().map(|r| r.outcome).collect();
    assert_eq!(second_outcomes, first_outcomes);
}

#[test]
fn path_tie_break_is_by_code_point() {
    // 'z' (U+007A) precedes 'ä' (U+00E4), and '-' (U+002D) precedes '/'
    // (U+002F), whatever a locale-aware collation would say.
    let batch = vec![
        result("x", "\u{e4}.txt", AnalysisOutcome::Error),
        result("x", "z.txt", AnalysisOutcome::Error),
        result("x", "a/b.txt", AnalysisOutcome::Error),
        result("x", "a-b.txt", AnalysisOutcome::Error),
    ];
    let sorted = sort_results(batch);
    assert_eq!(paths_of(&sorted), vec!["a-b.txt", "a/b.txt", "z.txt", "\u{e4}.txt"]);
}

#[test]
fn equal_ratings_tie_break_by_path() {
    let batch = vec![
        result("x", "/m/b.txt", AnalysisOutcome::Rated(12)),
        result("x", "/m/a.txt", AnalysisOutcome::Rated(12)),
        result("x", "/m/aa.txt", AnalysisOutcome::Rated(12)),
    ];
    let sorted = sort_results(batch);
    assert_eq!(paths_of(&sorted), vec!["/m/a.txt", "/m/aa.txt", "/m/b.txt"]);
}

#[test]
fn empty_batch_sorts_to_empty() {
    let sorted = sort_results(Vec::new());
    assert_eq!(sorted.len(), 0);
}

#[test]
fn label_of_rated_values() {
    assert_eq!(rating_label(&AnalysisOutcome::Rated(0)), "0");
    assert_eq!(rating_label(&AnalysisOutcome::Rated(7)), "7");
    assert_eq!(rating_label(&AnalysisOutcome::Rated(10)), "10");
    assert_eq!(rating_label(&AnalysisOutcome::Rated(99)), "99");
    assert_eq!(rating_label(&AnalysisOutcome::Rated(100)), "100");
    assert_eq!(rating_label(&AnalysisOutcome::Rated(254)), "254");
}

#[test]
fn label_of_error_and_pending() {
    assert_eq!(rating_label(&AnalysisOutcome::Error), "ERR");
    assert_eq!(rating_label(&AnalysisOutcome::Pending), "PENDING");
}

#[test]
fn row_carries_name_path_and_label() {
    let r = result("song.txt", "/music/song.txt", AnalysisOutcome::Rated(12));
    let row = row_of(&r);
    assert_eq!(row.name, "song.txt");
    assert_eq!(row.path, "/music/song.txt");
    assert_eq!(row.label, "12");
}
