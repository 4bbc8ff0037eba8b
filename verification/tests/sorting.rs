use langmeta::language::LanguageDefinition;
use langmeta::sorter::{max_group_len, sort_corpus, sort_groups, sort_language};

fn s(t: &str) -> String {
    t.to_string()
}

fn group(members: &[&str]) -> Vec<String> {
    members.iter().map(|m| s(m)).collect()
}

fn max_len_of(g: &Vec<String>) -> usize {
    g.iter().map(|m| m.chars().count()).max().unwrap_or(0)
}

#[test]
fn max_group_len_takes_longest_member() {
    assert_eq!(max_group_len(&group(&["\"", "\"\"\""])), 3);
    assert_eq!(max_group_len(&group(&["abc"])), 3);
    assert_eq!(max_group_len(&Vec::new()), 0);
}

#[test]
fn sort_puts_triple_quote_group_first() {
    // a language whose quotes hold a one-character group and a
    // three-character group: the longer group must come first
    let groups = vec![group(&["\"", "\""]), group(&["\"\"\"", "\"\"\""])];
    let sorted = sort_groups(groups);
    assert_eq!(sorted[0], group(&["\"\"\"", "\"\"\""]));
    assert_eq!(sorted[1], group(&["\"", "\""]));
}

#[test]
fn sort_orders_by_descending_max_length() {
    let groups = vec![
        group(&["'"]),
        group(&["<<<", ">>>"]),
        group(&["/*", "*/"]),
        group(&["x"]),
    ];
    let sorted = sort_groups(groups);
    for pair in sorted.windows(2) {
        assert!(max_len_of(&pair[0]) >= max_len_of(&pair[1]));
    }
}

#[test]
fn sort_is_a_permutation() {
    let groups = vec![
        group(&["'"]),
        group(&["<<<", ">>>"]),
        group(&["/*", "*/"]),
        group(&["'"]),
    ];
    let mut before: Vec<Vec<String>> = groups.clone();
    let mut after = sort_groups(groups);
    before.sort();
    after.sort();
    assert_eq!(before, after);
}

#[test]
fn sort_language_keeps_other_fields() {
    let def = LanguageDefinition {
        line_comments: vec![s("//")],
        extensions: vec![s("x"), s("y")],
        nested: true,
        quotes: vec![group(&["\""]), group(&["\"\"\""])],
        multi_line: vec![group(&["/*", "*/"]), group(&["/***", "***/"])],
        other: vec![],
    };
    let sorted = sort_language(def);
    assert_eq!(sorted.line_comments, vec![s("//")]);
    assert_eq!(sorted.extensions, vec![s("x"), s("y")]);
    assert!(sorted.nested);
    assert_eq!(sorted.quotes[0], group(&["\"\"\""]));
    assert_eq!(sorted.multi_line[0], group(&["/***", "***/"]));
}

#[test]
fn sort_corpus_keeps_language_order() {
    let corpus = vec![
        (
            s("a"),
            LanguageDefinition {
                line_comments: vec![],
                extensions: vec![],
                nested: false,
                quotes: vec![group(&["'"]), group(&["'''"])],
                multi_line: vec![],
                other: vec![],
            },
        ),
        (
            s("b"),
            LanguageDefinition {
                line_comments: vec![],
                extensions: vec![],
                nested: false,
                quotes: vec![],
                multi_line: vec![group(&["--"]), group(&["----"])],
                other: vec![],
            },
        ),
    ];
    let sorted = sort_corpus(corpus);
    assert_eq!(sorted[0].0, s("a"));
    assert_eq!(sorted[1].0, s("b"));
    assert_eq!(sorted[0].1.quotes[0], group(&["'''"]));
    assert_eq!(sorted[1].1.multi_line[0], group(&["----"]));
}

#[test]
fn equal_lengths_keep_all_groups() {
    let groups = vec![group(&["ab"]), group(&["cd"]), group(&["ef"])];
    let sorted = sort_groups(groups.clone());
    assert_eq!(sorted.len(), 3);
    for g in &groups {
        assert!(sorted.contains(g));
    }
}

#[test]
fn sorting_nothing_yields_nothing() {
    assert!(sort_groups(Vec::new()).is_empty());
}
