use vstd::prelude::*;

verus! {

/// Case-folded image of a character sequence.  The folding itself is the
/// standard library's; only that it is a pure function of the characters is
/// assumed here.
pub uninterp spec fn lower_of(s: Seq<char>) -> Seq<char>;

/// Relies on str::to_lowercase: the result is determined by the input
/// characters alone, and an empty input folds to an empty output.
#[verifier::external_body]
fn lowercase(s: &str) -> (r: String)
    ensures
        r@ == lower_of(s@),
        s@.len() == 0 ==> r@.len() == 0,
{
    s.to_lowercase()
}

/// Index of the last occurrence of `c` in `s`, or `-1` when `c` does not
/// occur.
pub open spec fn last_index_of(s: Seq<char>, c: char) -> int
    decreases s.len(),
{
    if s.len() == 0 {
        -1
    } else if s.last() == c {
        s.len() - 1
    } else {
        last_index_of(s.drop_last(), c)
    }
}

pub proof fn lemma_last_index_of_some(s: Seq<char>, c: char, m: int)
    requires
        0 <= m < s.len(),
        s[m] == c,
        forall|j: int| m < j < s.len() ==> s[j] != c,
    ensures
        last_index_of(s, c) == m,
    decreases s.len(),
{
    if m < s.len() - 1 {
        assert(s.drop_last()[m] == c);
        lemma_last_index_of_some(s.drop_last(), c, m);
    }
}

pub proof fn lemma_last_index_of_none(s: Seq<char>, c: char)
    requires
        forall|j: int| 0 <= j < s.len() ==> s[j] != c,
    ensures
        last_index_of(s, c) == -1,
    decreases s.len(),
{
    if s.len() > 0 {
        lemma_last_index_of_none(s.drop_last(), c);
    }
}

/// Finds the last occurrence of `c` in `s`.
fn find_last(s: &str, c: char) -> (r: Option<usize>)
    ensures
        match r {
            Some(i) => last_index_of(s@, c) == i as int && (i as int) < s@.len(),
            None => last_index_of(s@, c) == -1,
        },
{
    let n = s.unicode_len();
    let mut best: Option<usize> = None;
    let mut k: usize = 0;
    while k < n
        invariant
            0 <= k <= n,
            n == s@.len(),
            match best {
                Some(i) => i < k && s@[i as int] == c && (forall|j: int|
                    i < j < k ==> s@[j] != c),
                None => forall|j: int| 0 <= j < k ==> s@[j] != c,
            },
        decreases n - k,
    {
        if s.get_char(k) == c {
            best = Some(k);
        }
        k += 1;
    }
    proof {
        match best {
            Some(i) => lemma_last_index_of_some(s@, c, i as int),
            None => lemma_last_index_of_none(s@, c),
        }
    }
    best
}

/// Index of the last path separator in `p`, or `-1` when none occurs;
/// both separator conventions count.
pub open spec fn last_sep_index(p: Seq<char>) -> int {
    let a = last_index_of(p, '/');
    let b = last_index_of(p, '\\');
    if a >= b {
        a
    } else {
        b
    }
}

/// The file name part of a path: everything after the last separator.
pub open spec fn spec_file_name(p: Seq<char>) -> Seq<char> {
    p.subrange(last_sep_index(p) + 1, p.len() as int)
}

/// The stem of a file name: everything before the last `.`, unless that dot
/// leads the name or there is none.
pub open spec fn spec_stem(name: Seq<char>) -> Seq<char> {
    let d = last_index_of(name, '.');
    if d >= 1 {
        name.take(d)
    } else {
        name
    }
}

/// The identifier of the test generated for a fixture: the case-folded stem
/// of its file name.
pub open spec fn spec_test_identifier(p: Seq<char>) -> Seq<char> {
    lower_of(spec_stem(spec_file_name(p)))
}

/// Derives the generated test's identifier from a fixture's path.
pub fn test_identifier(path: &str) -> (r: String)
    ensures
        r@ == spec_test_identifier(path@),
{
    let n = path.unicode_len();
    let name_start: usize = match (find_last(path, '/'), find_last(path, '\\')) {
        (None, None) => 0,
        (Some(i), None) => i + 1,
        (None, Some(j)) => j + 1,
        (Some(i), Some(j)) => {
            if i >= j {
                i + 1
            } else {
                j + 1
            }
        },
    };
    let name = path.substring_char(name_start, n);
    let name_len = name.unicode_len();
    let stem = match find_last(name, '.') {
        Some(d) => {
            if d >= 1 {
                name.substring_char(0, d)
            } else {
                name
            }
        },
        None => name,
    };
    proof {
        assert(name@ == spec_file_name(path@));
        assert(stem@ =~= spec_stem(spec_file_name(path@)));
    }
    lowercase(stem)
}

/// Opening of one generated test, up to its identifier.
pub const TEST_HEAD: &'static str = "
        #[test]
        fn ";

/// From the identifier to the fixture path handed to the engine.
pub const TEST_RUN: &'static str = "() {
            let mut languages = Languages::new();
            languages.get_statistics(&[\"";

/// From the path to the diagnostic that lists the detected languages.
pub const TEST_DETECT: &'static str = "\"], &[], &Config::default());

            if languages.len() != 1 {
                panic!(\"wrong languages detected: expected just ";

/// From the diagnostic to the read of the fixture's own text.
pub const TEST_READ: &'static str = ", found {:?}\",
                       languages.into_iter().collect::<Vec<_>>());
            }

            let (name, mut language) = languages.into_iter().next().unwrap();

            let contents = fs::read_to_string(\"";

/// The four marker checks and the breakdown consistency check.
pub const TEST_CHECKS: &'static str = "\").unwrap();

            assert_eq!(get_digit!(LINES, contents), language.lines);
            println!(\"{} LINES MATCH\", name);
            assert_eq!(get_digit!(CODE, contents), language.code);
            println!(\"{} CODE MATCH\", name);
            assert_eq!(get_digit!(COMMENTS, contents), language.comments);
            println!(\"{} COMMENTS MATCH\", name);
            assert_eq!(get_digit!(BLANKS, contents), language.blanks);
            println!(\"{} BLANKS MATCH\", name);

            let stats = language.stats.pop().unwrap();

            assert_eq!(language.lines, stats.lines);
            assert_eq!(language.code, stats.code);
            assert_eq!(language.comments, stats.comments);
            assert_eq!(language.blanks, stats.blanks);
        }
        ";

/// The text of one self-contained generated test: it runs the engine on the
/// one fixture path, demands exactly one detected language, checks the four
/// embedded expectations in marker order, and checks the sole per-file
/// record against the aggregate.
pub open spec fn spec_test_body(name: Seq<char>, path: Seq<char>) -> Seq<char> {
    TEST_HEAD@ + name + TEST_RUN@ + path + TEST_DETECT@ + name + TEST_READ@ + path + TEST_CHECKS@
}

/// Renders the generated test for one fixture.
pub fn synthesize_test(name: &str, path: &str) -> (r: String)
    ensures
        r@ == spec_test_body(name@, path@),
{
    let mut s = String::from_str(TEST_HEAD);
    s.append(name);
    s.append(TEST_RUN);
    s.append(path);
    s.append(TEST_DETECT);
    s.append(name);
    s.append(TEST_READ);
    s.append(path);
    s.append(TEST_CHECKS);
    s
}

/// The whole generated test artifact: the tests of all fixtures, in walk
/// order, each under the case-folded stem of its path.
pub open spec fn spec_synthesize_all(paths: Seq<Seq<char>>) -> Seq<char>
    decreases paths.len(),
{
    if paths.len() == 0 {
        Seq::<char>::empty()
    } else {
        spec_synthesize_all(paths.drop_last()) + spec_test_body(
            spec_test_identifier(paths.last()),
            paths.last(),
        )
    }
}

/// Renders the generated tests for every fixture path, concatenated into one
/// artifact.
pub fn synthesize_all(paths: &Vec<String>) -> (r: String)
    ensures
        r@ == spec_synthesize_all(paths.deep_view()),
{
    let ghost pv = paths.deep_view();
    let mut out = String::new();
    let mut k: usize = 0;
    proof {
        assert(pv.take(0) =~= Seq::<Seq<char>>::empty());
    }
    while k < paths.len()
        invariant
            0 <= k <= pv.len(),
            pv == paths.deep_view(),
            pv.len() == paths@.len(),
            out@ == spec_synthesize_all(pv.take(k as int)),
        decreases pv.len() - k,
    {
        let path = &paths[k];
        let name = test_identifier(path.as_str());
        let body = synthesize_test(name.as_str(), path.as_str());
        out.append(body.as_str());
        proof {
            assert(pv.take(k + 1).drop_last() =~= pv.take(k as int));
            assert(pv.take(k + 1).last() == paths@[k as int]@);
        }
        k += 1;
    }
    proof {
        assert(pv.take(pv.len() as int) =~= pv);
    }
    out
}

} // verus!
