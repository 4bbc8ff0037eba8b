use vstd::prelude::*;

use crate::stats::{
    spec_aggregate, spec_expectations, lemma_aggregate_singleton, read_expectations,
    LanguageStats, Metric, Stats,
};

verus! {

/// Outcome of one synthesized fixture test at run time.  Every failing
/// variant names what diverged, so a failure identifies exactly which check
/// broke.
#[derive(PartialEq, Eq, Debug)]
pub enum FixtureVerdict {
    /// Every check passed.
    Pass,
    /// Not exactly one language was detected; the listing holds every
    /// detected language identifier.
    Ambiguous(Vec<String>),
    /// An expectation marker is absent or carries no number.
    MarkerMissing,
    /// An aggregate count diverges from the fixture's expectation: the
    /// metric, the expected value, the reported value.
    Mismatch(Metric, u64, u64),
    /// Not exactly one per-file breakdown record was reported.
    BreakdownCount(u64),
    /// The sole breakdown record diverges from the aggregate: the metric,
    /// the aggregate value, the breakdown value.
    BreakdownMismatch(Metric, u64, u64),
}

/// Ghost image of a `FixtureVerdict`.
pub ghost enum SpecVerdict {
    Pass,
    Ambiguous(Seq<Seq<char>>),
    MarkerMissing,
    Mismatch(Metric, u64, u64),
    BreakdownCount(int),
    BreakdownMismatch(Metric, u64, u64),
}

/// The identifiers of the detected languages, in report order.
pub open spec fn spec_names(detected: Seq<(String, LanguageStats)>) -> Seq<Seq<char>> {
    detected.map(|i: int, p: (String, LanguageStats)| p.0@)
}

/// The runtime contract of one synthesized test, as a decision over the
/// engine's report and the fixture's own text: exactly one detected
/// language, the four expected counts in marker order, then the sole
/// breakdown record against the aggregate.
pub open spec fn spec_check_fixture(
    detected: Seq<(String, LanguageStats)>,
    text: Seq<char>,
) -> SpecVerdict {
    if detected.len() != 1 {
        SpecVerdict::Ambiguous(spec_names(detected))
    } else {
        match spec_expectations(text) {
            None => SpecVerdict::MarkerMissing,
            Some(e) => {
                let ls = detected[0].1;
                if e.lines != ls.lines {
                    SpecVerdict::Mismatch(Metric::Lines, e.lines, ls.lines)
                } else if e.code != ls.code {
                    SpecVerdict::Mismatch(Metric::Code, e.code, ls.code)
                } else if e.comments != ls.comments {
                    SpecVerdict::Mismatch(Metric::Comments, e.comments, ls.comments)
                } else if e.blanks != ls.blanks {
                    SpecVerdict::Mismatch(Metric::Blanks, e.blanks, ls.blanks)
                } else if ls.per_file@.len() != 1 {
                    SpecVerdict::BreakdownCount(ls.per_file@.len() as int)
                } else {
                    let f = ls.per_file@[0];
                    if f.lines != ls.lines {
                        SpecVerdict::BreakdownMismatch(Metric::Lines, ls.lines, f.lines)
                    } else if f.code != ls.code {
                        SpecVerdict::BreakdownMismatch(Metric::Code, ls.code, f.code)
                    } else if f.comments != ls.comments {
                        SpecVerdict::BreakdownMismatch(Metric::Comments, ls.comments, f.comments)
                    } else if f.blanks != ls.blanks {
                        SpecVerdict::BreakdownMismatch(Metric::Blanks, ls.blanks, f.blanks)
                    } else {
                        SpecVerdict::Pass
                    }
                }
            },
        }
    }
}

/// The executable verdict agrees with its ghost image.
pub open spec fn verdict_matches(r: FixtureVerdict, s: SpecVerdict) -> bool {
    match (r, s) {
        (FixtureVerdict::Pass, SpecVerdict::Pass) => true,
        (FixtureVerdict::Ambiguous(ns), SpecVerdict::Ambiguous(sv)) => ns.deep_view() == sv,
        (FixtureVerdict::MarkerMissing, SpecVerdict::MarkerMissing) => true,
        (FixtureVerdict::Mismatch(m, a, b), SpecVerdict::Mismatch(m2, a2, b2)) => m == m2 && a
            == a2 && b == b2,
        (FixtureVerdict::BreakdownCount(n), SpecVerdict::BreakdownCount(i)) => n as int == i,
        (
            FixtureVerdict::BreakdownMismatch(m, a, b),
            SpecVerdict::BreakdownMismatch(m2, a2, b2),
        ) => m == m2 && a == a2 && b == b2,
        _ => false,
    }
}

/// Decides one synthesized test: the engine's report for the fixture's path
/// against the expectations embedded in the fixture's own text.  Ambiguous
/// language detection is a hard failure that lists every detected language.
pub fn check_fixture(detected: &Vec<(String, LanguageStats)>, text: &str) -> (r: FixtureVerdict)
    ensures
        verdict_matches(r, spec_check_fixture(detected@, text@)),
        (detected@.len() != 1) <==> (r is Ambiguous),
{
    if detected.len() != 1 {
        let mut names: Vec<String> = Vec::new();
        let mut k: usize = 0;
        while k < detected.len()
            invariant
                0 <= k <= detected@.len(),
                names@.len() == k,
                forall|i: int| 0 <= i < k ==> #[trigger] names@[i]@ == detected@[i].0@,
            decreases detected@.len() - k,
        {
            let n = detected[k].0.clone();
            names.push(n);
            k += 1;
        }
        proof {
            assert forall|i: int| 0 <= i < detected@.len() implies names.deep_view()[i]
                == spec_names(detected@)[i] by {
                assert(names@[i]@ == detected@[i].0@);
            }
            assert(names.deep_view() =~= spec_names(detected@));
        }
        return FixtureVerdict::Ambiguous(names);
    }
    let e = match read_expectations(text) {
        None => {
            return FixtureVerdict::MarkerMissing;
        },
        Some(e) => e,
    };
    let ls = &detected[0].1;
    if e.lines != ls.lines {
        return FixtureVerdict::Mismatch(Metric::Lines, e.lines, ls.lines);
    }
    if e.code != ls.code {
        return FixtureVerdict::Mismatch(Metric::Code, e.code, ls.code);
    }
    if e.comments != ls.comments {
        return FixtureVerdict::Mismatch(Metric::Comments, e.comments, ls.comments);
    }
    if e.blanks != ls.blanks {
        return FixtureVerdict::Mismatch(Metric::Blanks, e.blanks, ls.blanks);
    }
    if ls.per_file.len() != 1 {
        return FixtureVerdict::BreakdownCount(ls.per_file.len() as u64);
    }
    let f = ls.per_file[0];
    if f.lines != ls.lines {
        return FixtureVerdict::BreakdownMismatch(Metric::Lines, ls.lines, f.lines);
    }
    if f.code != ls.code {
        return FixtureVerdict::BreakdownMismatch(Metric::Code, ls.code, f.code);
    }
    if f.comments != ls.comments {
        return FixtureVerdict::BreakdownMismatch(Metric::Comments, ls.comments, f.comments);
    }
    if f.blanks != ls.blanks {
        return FixtureVerdict::BreakdownMismatch(Metric::Blanks, ls.blanks, f.blanks);
    }
    FixtureVerdict::Pass
}

/// Fixture self-consistency: a synthesized test passes only if the
/// language's aggregate counts equal its sole per-file breakdown entry —
/// aggregation over one file is the identity.
pub proof fn lemma_pass_implies_consistent(detected: Seq<(String, LanguageStats)>, text: Seq<char>)
    requires
        spec_check_fixture(detected, text) is Pass,
    ensures
        detected.len() == 1,
        detected[0].1@.per_file.len() == 1,
        detected[0].1@.per_file[0] == detected[0].1.spec_totals(),
        detected[0].1.consistent(),
{
    let ls = detected[0].1;
    lemma_aggregate_singleton(ls@.per_file);
    assert(spec_aggregate(ls@.per_file) == (
        ls.lines as int,
        ls.code as int,
        ls.comments as int,
        ls.blanks as int,
    ));
}

} // verus!
