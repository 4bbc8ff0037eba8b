use langmeta::numeral::{parse_u64, u64_to_string};
use langmeta::stats::{LanguageStats, Stats};
use langmeta::table::{
    isnt_empty, print_header, print_inaccuracy_warning, print_language, print_results,
    FALLBACK_ROW_LEN,
};

fn rule() -> String {
    "-".repeat(FALLBACK_ROW_LEN)
}

fn language(lines: u64, code: u64, comments: u64, blanks: u64) -> LanguageStats {
    LanguageStats {
        lines,
        code,
        comments,
        blanks,
        per_file: vec![Stats { lines, code, comments, blanks }],
        inaccurate: false,
    }
}

#[test]
fn numerals_render_exactly() {
    assert_eq!(u64_to_string(0), "0");
    assert_eq!(u64_to_string(7), "7");
    assert_eq!(u64_to_string(12345), "12345");
    assert_eq!(u64_to_string(u64::MAX), "18446744073709551615");
}

#[test]
fn numerals_parse_back() {
    assert_eq!(parse_u64("12345", 0), Some((12345, 5)));
    assert_eq!(parse_u64("a12", 0), None);
    assert_eq!(parse_u64("18446744073709551616", 0), None);
}

#[test]
fn header_matches_standard_formatting() {
    let row = rule();
    let mut out = String::new();
    print_header(&mut out, &row, FALLBACK_ROW_LEN);
    let expected = format!(
        "{}\n {:<12} {:>12} {:>12} {:>12} {:>12} {:>12}\n{}\n",
        row, "Language", "Files", "Lines", "Code", "Comments", "Blanks", row
    );
    assert_eq!(out, expected);
}

#[test]
fn language_row_matches_standard_formatting() {
    let row = rule();
    let mut out = String::new();
    let ls = language(10, 7, 2, 1);
    print_language(&mut out, FALLBACK_ROW_LEN, &ls, "Rust");
    let expected = format!(
        " {:<18} {:>6} {:>12} {:>12} {:>12} {:>12}\n",
        "Rust", 1, 10, 7, 2, 1
    );
    assert_eq!(out, expected);
}

#[test]
fn inaccurate_language_is_marked() {
    let mut ls = language(10, 7, 2, 1);
    ls.inaccurate = true;
    let mut out = String::new();
    print_language(&mut out, FALLBACK_ROW_LEN, &ls, "Rust");
    let expected = format!(
        " {:<15}(!) {:>6} {:>12} {:>12} {:>12} {:>12}\n",
        "Rust", 1, 10, 7, 2, 1
    );
    assert_eq!(out, expected);
}

#[test]
fn long_name_is_truncated_with_a_bar() {
    let ls = language(1, 1, 0, 0);
    let mut out = String::new();
    // a 65-column row leaves a 4-wide language section
    print_language(&mut out, 65, &ls, "VeryLongName");
    assert!(out.starts_with(" Ver|"));
}

#[test]
fn results_skip_empty_languages() {
    let row = rule();
    let entries = vec![
        ("Empty".to_string(), language(0, 0, 0, 0)),
        ("Rust".to_string(), language(10, 7, 2, 1)),
    ];
    assert!(!isnt_empty(&entries[0]));
    assert!(isnt_empty(&entries[1]));
    let mut out = String::new();
    print_results(&mut out, &row, &entries, false);
    assert!(!out.contains("Empty"));
    assert!(out.contains("Rust"));
}

#[test]
fn results_list_files_between_rules() {
    let row = rule();
    let entries = vec![("Rust".to_string(), language(10, 7, 2, 1))];
    let mut out = String::new();
    print_results(&mut out, &row, &entries, true);
    let expected_file_row = format!(" {:>12} {:>12} {:>12} {:>12}\n", 10, 7, 2, 1);
    assert!(out.contains(&format!("{}\n{}{}\n", row, expected_file_row, row)));
}

#[test]
fn warning_text_is_exact() {
    let mut out = String::new();
    print_inaccuracy_warning(&mut out);
    assert_eq!(
        out,
        "Note: results can be inaccurate for languages marked with '(!)'\n"
    );
}
