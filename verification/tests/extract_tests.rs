//! Classification of file content: the rating tag in both label forms, the
//! error token, out-of-range values, unreadable files, and lenient decoding.

use dr_analyzer::extract::analyze;
use dr_analyzer::outcome::AnalysisOutcome;

const RU_LABEL: &str = "\u{420}\u{435}\u{430}\u{43B}\u{44C}\u{43D}\u{44B}\u{435} \u{437}\u{43D}\u{430}\u{447}\u{435}\u{43D}\u{438}\u{44F} DR:";

fn analyze_text(text: &str) -> AnalysisOutcome {
    let bytes: Vec<u8> = text.as_bytes().to_vec();
    analyze(Some(&bytes))
}

#[test]
fn rated_english_form() {
    assert_eq!(analyze_text("Official DR value: DR12"), AnalysisOutcome::Rated(12));
}

#[test]
fn rated_russian_form() {
    let text = format!("{} DR7", RU_LABEL);
    assert_eq!(analyze_text(&text), AnalysisOutcome::Rated(7));
}

#[test]
fn rated_inside_larger_text() {
    let text = "album notes\nOfficial DR value: DR9\ntrailing text";
    assert_eq!(analyze_text(text), AnalysisOutcome::Rated(9));
}

#[test]
fn rated_with_mixed_whitespace() {
    assert_eq!(analyze_text("Official DR value:\t\n   DR11"), AnalysisOutcome::Rated(11));
}

#[test]
fn rated_without_any_whitespace() {
    assert_eq!(analyze_text("Official DR value:DR8"), AnalysisOutcome::Rated(8));
}

#[test]
fn rated_zero() {
    assert_eq!(analyze_text("Official DR value: DR0"), AnalysisOutcome::Rated(0));
}

#[test]
fn rated_top_of_range() {
    assert_eq!(analyze_text("Official DR value: DR254"), AnalysisOutcome::Rated(254));
}

#[test]
fn rated_leading_zeros() {
    assert_eq!(analyze_text("Official DR value: DR0012"), AnalysisOutcome::Rated(12));
}

#[test]
fn digits_stop_at_first_non_digit() {
    assert_eq!(analyze_text("Official DR value: DR12abc"), AnalysisOutcome::Rated(12));
}

#[test]
fn overflow_just_past_range() {
    assert_eq!(analyze_text("Official DR value: DR255"), AnalysisOutcome::Error);
}

#[test]
fn overflow_large_number() {
    assert_eq!(analyze_text("Official DR value: DR9999999"), AnalysisOutcome::Error);
}

#[test]
fn explicit_error_token_english() {
    assert_eq!(analyze_text("Official DR value: DRERR"), AnalysisOutcome::Error);
}

#[test]
fn explicit_error_token_russian() {
    let text = format!("{} DRERR", RU_LABEL);
    assert_eq!(analyze_text(&text), AnalysisOutcome::Error);
}

#[test]
fn no_tag_at_all() {
    assert_eq!(analyze_text("no rating information here"), AnalysisOutcome::Error);
}

#[test]
fn empty_content() {
    assert_eq!(analyze_text(""), AnalysisOutcome::Error);
}

#[test]
fn label_without_marker() {
    assert_eq!(analyze_text("Official DR value: 12"), AnalysisOutcome::Error);
}

#[test]
fn marker_without_capture() {
    assert_eq!(analyze_text("Official DR value: DRX"), AnalysisOutcome::Error);
}

#[test]
fn case_sensitive_label() {
    assert_eq!(analyze_text("official dr value: dr12"), AnalysisOutcome::Error);
}

#[test]
fn first_occurrence_wins_error_first() {
    let text = "Official DR value: DRERR then Official DR value: DR10";
    assert_eq!(analyze_text(text), AnalysisOutcome::Error);
}

#[test]
fn first_occurrence_wins_rating_first() {
    let text = "Official DR value: DR10 then Official DR value: DRERR";
    assert_eq!(analyze_text(text), AnalysisOutcome::Rated(10));
}

#[test]
fn failed_occurrence_does_not_stop_search() {
    let text = "Official DR value: nothing Official DR value: DR5";
    assert_eq!(analyze_text(text), AnalysisOutcome::Rated(5));
}

#[test]
fn non_ascii_digits_do_not_match() {
    let text = "Official DR value: DR\u{661}\u{662}";
    assert_eq!(analyze_text(text), AnalysisOutcome::Error);
}

#[test]
fn unreadable_file_is_error() {
    assert_eq!(analyze(None), AnalysisOutcome::Error);
}

#[test]
fn invalid_bytes_before_tag_are_tolerated() {
    let mut bytes: Vec<u8> = vec![0xFF, 0xFE, 0x80];
    bytes.extend_from_slice(b" Official DR value: DR12");
    assert_eq!(analyze(Some(&bytes)), AnalysisOutcome::Rated(12));
}

#[test]
fn invalid_bytes_inside_label_break_it() {
    let mut bytes: Vec<u8> = b"Official DR".to_vec();
    bytes.push(0xFF);
    bytes.extend_from_slice(b" value: DR12");
    assert_eq!(analyze(Some(&bytes)), AnalysisOutcome::Error);
}

#[test]
fn russian_label_from_utf8_bytes() {
    let text = format!("prefix {} \t DR14 suffix", RU_LABEL);
    let bytes: Vec<u8> = text.into_bytes();
    assert_eq!(analyze(Some(&bytes)), AnalysisOutcome::Rated(14));
}
