use langmeta::codec::{parse_table, render_table};
use langmeta::language::LanguageDefinition;
use langmeta::loader::{load_corpus, LoadError};
use langmeta::sorter::sort_corpus;
use langmeta::synth::{
    synthesize_all, synthesize_test, test_identifier, TEST_CHECKS, TEST_DETECT, TEST_HEAD,
    TEST_READ, TEST_RUN,
};
use langmeta::json::JsonValue;
use langmeta::template::render_with_template;

fn s(t: &str) -> String {
    t.to_string()
}

fn sample_table() -> Vec<(String, LanguageDefinition)> {
    vec![
        (
            s("X"),
            LanguageDefinition {
                line_comments: vec![s("//")],
                extensions: vec![s("x")],
                nested: false,
                quotes: vec![vec![s("\"\"\""), s("\"\"\"")], vec![s("\""), s("\"")]],
                multi_line: vec![vec![s("/*"), s("*/")]],
                other: vec![],
            },
        ),
        (
            s("Y"),
            LanguageDefinition {
                line_comments: vec![],
                extensions: vec![s("y"), s("yy")],
                nested: true,
                quotes: vec![],
                multi_line: vec![],
                other: vec![],
            },
        ),
    ]
}

fn tables_equal(a: &[(String, LanguageDefinition)], b: &[(String, LanguageDefinition)]) -> bool {
    a.len() == b.len()
        && a.iter().zip(b.iter()).all(|(x, y)| {
            x.0 == y.0
                && x.1.line_comments == y.1.line_comments
                && x.1.extensions == y.1.extensions
                && x.1.nested == y.1.nested
                && x.1.quotes == y.1.quotes
                && x.1.multi_line == y.1.multi_line
        })
}

#[test]
fn metadata_round_trip() {
    let table = sample_table();
    let artifact = render_table(&table);
    let back = parse_table(artifact.as_str()).expect("artifact must parse");
    assert!(tables_equal(&table, &back));
}

#[test]
fn metadata_keeps_group_order_through_round_trip() {
    let sorted = sort_corpus(sample_table());
    let artifact = render_table(&sorted);
    let back = parse_table(artifact.as_str()).unwrap();
    assert_eq!(back[0].1.quotes[0], vec![s("\"\"\""), s("\"\"\"")]);
    assert_eq!(back[0].1.quotes[1], vec![s("\""), s("\"")]);
}

#[test]
fn corrupted_artifact_is_refused() {
    let mut artifact = render_table(&sample_table());
    artifact.push('x');
    assert!(parse_table(artifact.as_str()).is_none());
    assert!(parse_table("7").is_none());
    assert!(parse_table("").is_none());
}

#[test]
fn load_corpus_reads_languages() {
    let text = r#"{"languages": {
        "X": {"quotes": [["\"", "\""], ["\"\"\"", "\"\"\""]],
               "multi_line": [["/*", "*/"]],
               "line_comment": ["//"],
               "extensions": ["x"],
               "nested": true}
    }}"#;
    let corpus = load_corpus(text).unwrap();
    assert_eq!(corpus.len(), 1);
    assert_eq!(corpus[0].0, s("X"));
    assert_eq!(corpus[0].1.quotes.len(), 2);
    assert_eq!(corpus[0].1.multi_line[0], vec![s("/*"), s("*/")]);
    assert_eq!(corpus[0].1.line_comments, vec![s("//")]);
    assert_eq!(corpus[0].1.extensions, vec![s("x")]);
    assert!(corpus[0].1.nested);
}

#[test]
fn load_corpus_rejects_invalid_json() {
    assert_eq!(load_corpus("not json").unwrap_err(), LoadError::CorpusMalformed);
}

#[test]
fn load_corpus_rejects_missing_languages_key() {
    assert_eq!(load_corpus("{}").unwrap_err(), LoadError::SchemaViolation);
}

#[test]
fn load_corpus_rejects_missing_delimiter_fields() {
    let text = r#"{"languages": {"X": {"quotes": []}}}"#;
    assert_eq!(load_corpus(text).unwrap_err(), LoadError::SchemaViolation);
}

#[test]
fn load_corpus_rejects_group_that_is_no_collection() {
    let text = r#"{"languages": {"X": {"quotes": ["oops"], "multi_line": []}}}"#;
    assert_eq!(load_corpus(text).unwrap_err(), LoadError::SchemaViolation);
}

#[test]
fn load_corpus_rejects_empty_group() {
    let text = r#"{"languages": {"X": {"quotes": [[]], "multi_line": []}}}"#;
    assert_eq!(load_corpus(text).unwrap_err(), LoadError::SchemaViolation);
}

#[test]
fn loaded_corpus_sorts_into_longest_match_order() {
    let text = r#"{"languages": {
        "X": {"quotes": [["\"", "\""], ["\"\"\"", "\"\"\""]], "multi_line": []}
    }}"#;
    let sorted = sort_corpus(load_corpus(text).unwrap());
    assert_eq!(sorted[0].1.quotes[0], vec![s("\"\"\""), s("\"\"\"")]);
    assert_eq!(sorted[0].1.quotes[1], vec![s("\""), s("\"")]);
}

#[test]
fn template_renders_language_names() {
    let table = sample_table();
    let out = render_with_template("{{#each languages}}{{@key}};{{/each}}", &table).unwrap();
    assert_eq!(out, "X;Y;");
}

#[test]
fn template_passes_delimiters_unescaped() {
    let table = sample_table();
    let out = render_with_template(
        "{{#each languages.X.quotes.[1]}}{{this}}{{/each}}",
        &table,
    )
    .unwrap();
    assert_eq!(out, "\"\"");
}

#[test]
fn malformed_template_is_an_error() {
    let table = sample_table();
    assert!(render_with_template("{{#each}}", &table).is_err());
}

#[test]
fn test_identifier_case_folds_the_stem() {
    assert_eq!(test_identifier("./tests/data/Foo.x"), s("foo"));
    assert_eq!(test_identifier("BARE"), s("bare"));
    assert_eq!(test_identifier("dir/a.b.c"), s("a.b"));
    assert_eq!(test_identifier("dir/.hidden"), s(".hidden"));
}

#[test]
fn synthesized_test_splices_name_and_path() {
    let body = synthesize_test("foo", "./tests/data/Foo.x");
    let expected = format!(
        "{}{}{}{}{}{}{}{}{}",
        TEST_HEAD,
        "foo",
        TEST_RUN,
        "./tests/data/Foo.x",
        TEST_DETECT,
        "foo",
        TEST_READ,
        "./tests/data/Foo.x",
        TEST_CHECKS
    );
    assert_eq!(body, expected);
    assert!(body.contains("fn foo()"));
    assert!(body.contains("get_statistics(&[\"./tests/data/Foo.x\"]"));
    assert!(body.contains("get_digit!(LINES, contents)"));
}

#[test]
fn synthesize_all_concatenates_in_walk_order() {
    let paths = vec![s("d/A.x"), s("d/B.y")];
    let all = synthesize_all(&paths);
    let first = synthesize_test("a", "d/A.x");
    let second = synthesize_test("b", "d/B.y");
    assert_eq!(all, format!("{}{}", first, second));
}

#[test]
fn synthesize_all_of_nothing_is_empty() {
    assert_eq!(synthesize_all(&Vec::new()), String::new());
}

#[test]
fn empty_corpus_round_trips() {
    let table: Vec<(String, LanguageDefinition)> = Vec::new();
    let artifact = render_table(&table);
    let back = parse_table(artifact.as_str()).unwrap();
    assert!(back.is_empty());
}

#[test]
fn empty_languages_object_loads() {
    let corpus = load_corpus(r#"{"languages": {}}"#).unwrap();
    assert!(corpus.is_empty());
}

#[test]
fn unknown_attributes_pass_through() {
    let text = r#"{"languages": {
        "X": {"quotes": [], "multi_line": [], "mime": ["text/x-x"], "verbatim": true}
    }}"#;
    let corpus = load_corpus(text).unwrap();
    assert_eq!(corpus[0].1.other.len(), 2);
    assert_eq!(corpus[0].1.other[0].0, s("mime"));
    let sorted = sort_corpus(corpus);
    let out = render_with_template(
        "{{#each languages.X.mime}}{{this}}{{/each}};{{languages.X.verbatim}}",
        &sorted,
    )
    .unwrap();
    assert_eq!(out, "text/x-x;true");
}

#[test]
fn numbers_pass_through_their_text() {
    let text = r#"{"languages": {
        "X": {"quotes": [], "multi_line": [], "weight": 42}
    }}"#;
    let corpus = load_corpus(text).unwrap();
    assert!(matches!(&corpus[0].1.other[0].1, JsonValue::Number(n) if n == "42"));
    let out = render_with_template("{{languages.X.weight}}", &corpus).unwrap();
    assert_eq!(out, "42");
}

#[test]
fn test_identifier_handles_both_separators() {
    assert_eq!(test_identifier("dir\\sub\\Foo.x"), s("foo"));
    assert_eq!(test_identifier("dir/sub\\Foo.x"), s("foo"));
}
