use langmeta::fixture::{check_fixture, FixtureVerdict};
use langmeta::marker::extract_marker;
use langmeta::stats::{aggregate, read_expectations, LanguageStats, Metric, Stats};

fn report(lines: u64, code: u64, comments: u64, blanks: u64) -> LanguageStats {
    LanguageStats {
        lines,
        code,
        comments,
        blanks,
        per_file: vec![Stats { lines, code, comments, blanks }],
        inaccurate: false,
    }
}

const FIXTURE_TEXT: &str = "\
// LINES: 10
// CODE: 7
// COMMENTS: 2
// BLANKS: 1
fn main() {}
";

#[test]
fn extract_marker_reads_first_value() {
    assert_eq!(extract_marker(FIXTURE_TEXT, "LINES"), Some(10));
    assert_eq!(extract_marker(FIXTURE_TEXT, "CODE"), Some(7));
    assert_eq!(extract_marker(FIXTURE_TEXT, "COMMENTS"), Some(2));
    assert_eq!(extract_marker(FIXTURE_TEXT, "BLANKS"), Some(1));
}

#[test]
fn extract_marker_missing_name() {
    assert_eq!(extract_marker(FIXTURE_TEXT, "WORDS"), None);
}

#[test]
fn extract_marker_without_number() {
    assert_eq!(extract_marker("// LINES: none", "LINES"), None);
}

#[test]
fn extract_marker_first_occurrence_wins() {
    assert_eq!(extract_marker("LINES: 3 and later LINES: 9", "LINES"), Some(3));
}

#[test]
fn extract_marker_overflowing_number() {
    assert_eq!(extract_marker("LINES: 99999999999999999999999", "LINES"), None);
}

#[test]
fn read_expectations_collects_all_four() {
    let e = read_expectations(FIXTURE_TEXT).unwrap();
    assert_eq!(e, Stats { lines: 10, code: 7, comments: 2, blanks: 1 });
}

#[test]
fn read_expectations_fails_on_missing_marker() {
    assert_eq!(read_expectations("// LINES: 10\n// CODE: 7\n"), None);
}

#[test]
fn fixture_passes_when_engine_agrees() {
    let detected = vec![("X".to_string(), report(10, 7, 2, 1))];
    assert_eq!(check_fixture(&detected, FIXTURE_TEXT), FixtureVerdict::Pass);
}

#[test]
fn fixture_reports_diverging_metric() {
    let detected = vec![("X".to_string(), report(11, 7, 2, 1))];
    assert_eq!(
        check_fixture(&detected, FIXTURE_TEXT),
        FixtureVerdict::Mismatch(Metric::Lines, 10, 11)
    );
}

#[test]
fn fixture_checks_metrics_in_marker_order() {
    let detected = vec![("X".to_string(), report(10, 8, 3, 1))];
    assert_eq!(
        check_fixture(&detected, FIXTURE_TEXT),
        FixtureVerdict::Mismatch(Metric::Code, 7, 8)
    );
}

#[test]
fn ambiguous_detection_lists_all_languages() {
    let detected = vec![
        ("X".to_string(), report(10, 7, 2, 1)),
        ("Y".to_string(), report(10, 7, 2, 1)),
    ];
    assert_eq!(
        check_fixture(&detected, FIXTURE_TEXT),
        FixtureVerdict::Ambiguous(vec!["X".to_string(), "Y".to_string()])
    );
}

#[test]
fn no_detection_is_ambiguous_too() {
    let detected: Vec<(String, LanguageStats)> = Vec::new();
    assert_eq!(check_fixture(&detected, FIXTURE_TEXT), FixtureVerdict::Ambiguous(Vec::new()));
}

#[test]
fn missing_markers_fail_the_fixture() {
    let detected = vec![("X".to_string(), report(10, 7, 2, 1))];
    assert_eq!(check_fixture(&detected, "no markers here"), FixtureVerdict::MarkerMissing);
}

#[test]
fn breakdown_divergence_is_reported() {
    let mut ls = report(10, 7, 2, 1);
    ls.per_file = vec![Stats { lines: 10, code: 7, comments: 1, blanks: 2 }];
    let detected = vec![("X".to_string(), ls)];
    assert_eq!(
        check_fixture(&detected, FIXTURE_TEXT),
        FixtureVerdict::BreakdownMismatch(Metric::Comments, 2, 1)
    );
}

#[test]
fn breakdown_count_must_be_one() {
    let mut ls = report(10, 7, 2, 1);
    ls.per_file = Vec::new();
    let detected = vec![("X".to_string(), ls)];
    assert_eq!(check_fixture(&detected, FIXTURE_TEXT), FixtureVerdict::BreakdownCount(0));
}

#[test]
fn aggregate_of_single_file_is_that_file() {
    let one = Stats { lines: 5, code: 3, comments: 1, blanks: 1 };
    assert_eq!(aggregate(&vec![one]), Some(one));
}

#[test]
fn aggregate_sums_fields() {
    let files = vec![
        Stats { lines: 5, code: 3, comments: 1, blanks: 1 },
        Stats { lines: 7, code: 2, comments: 4, blanks: 1 },
    ];
    assert_eq!(aggregate(&files), Some(Stats { lines: 12, code: 5, comments: 5, blanks: 2 }));
}

#[test]
fn aggregate_overflow_is_refused() {
    let files = vec![
        Stats { lines: u64::MAX, code: 0, comments: 0, blanks: 0 },
        Stats { lines: 1, code: 0, comments: 0, blanks: 0 },
    ];
    assert_eq!(aggregate(&files), None);
}
