use vstd::prelude::*;

use crate::marker::{extract_marker, spec_extract_marker};

verus! {

/// Line counts for one scanned file, or aggregated over a language: total
/// lines, code lines, comment lines and blank lines.
#[derive(Clone, Copy, PartialEq, Eq, Structural, Debug)]
pub struct Stats {
    pub lines: u64,
    pub code: u64,
    pub comments: u64,
    pub blanks: u64,
}

/// What the statistics engine reports for one detected language: the four
/// aggregate counts, one breakdown entry per scanned file, and a flag that
/// marks the result as possibly inaccurate.
#[derive(Debug)]
pub struct LanguageStats {
    pub lines: u64,
    pub code: u64,
    pub comments: u64,
    pub blanks: u64,
    pub per_file: Vec<Stats>,
    pub inaccurate: bool,
}

/// Mathematical image of a `LanguageStats`.
pub ghost struct LanguageStatsView {
    pub lines: u64,
    pub code: u64,
    pub comments: u64,
    pub blanks: u64,
    pub per_file: Seq<Stats>,
    pub inaccurate: bool,
}

impl View for LanguageStats {
    type V = LanguageStatsView;

    open spec fn view(&self) -> LanguageStatsView {
        LanguageStatsView {
            lines: self.lines,
            code: self.code,
            comments: self.comments,
            blanks: self.blanks,
            per_file: self.per_file@,
            inaccurate: self.inaccurate,
        }
    }
}

impl LanguageStats {
    /// A report is empty when all four aggregate counts are zero.
    pub open spec fn spec_is_empty(&self) -> bool {
        self.lines == 0 && self.code == 0 && self.comments == 0 && self.blanks == 0
    }

    /// The four aggregate counts as one record.
    pub open spec fn spec_totals(&self) -> Stats {
        Stats { lines: self.lines, code: self.code, comments: self.comments, blanks: self.blanks }
    }

    /// The aggregate counts equal the field-wise sums of the per-file
    /// breakdown entries.
    pub open spec fn consistent(&self) -> bool {
        spec_aggregate(self@.per_file) == (
            self.lines as int,
            self.code as int,
            self.comments as int,
            self.blanks as int,
        )
    }
}

/// Field-wise sums of a sequence of per-file records, as unbounded integers:
/// lines, code, comments and blanks in that order.
pub open spec fn spec_aggregate(s: Seq<Stats>) -> (int, int, int, int)
    decreases s.len(),
{
    if s.len() == 0 {
        (0, 0, 0, 0)
    } else {
        let r = spec_aggregate(s.drop_last());
        (
            r.0 + s.last().lines,
            r.1 + s.last().code,
            r.2 + s.last().comments,
            r.3 + s.last().blanks,
        )
    }
}

/// Aggregation over a single file is the identity: the aggregate of a sole
/// breakdown entry is that entry itself.
pub proof fn lemma_aggregate_singleton(s: Seq<Stats>)
    requires
        s.len() == 1,
    ensures
        spec_aggregate(s) == (
            s[0].lines as int,
            s[0].code as int,
            s[0].comments as int,
            s[0].blanks as int,
        ),
{
    assert(s.drop_last() =~= Seq::<Stats>::empty());
    assert(spec_aggregate(Seq::<Stats>::empty()) == (0int, 0int, 0int, 0int));
    assert(s.last() == s[0]);
}

/// Sums the per-file breakdown records field by field; nothing when a sum
/// does not fit in 64 bits.
pub fn aggregate(per_file: &Vec<Stats>) -> (r: Option<Stats>)
    ensures
        match r {
            Some(t) => spec_aggregate(per_file@) == (
                t.lines as int,
                t.code as int,
                t.comments as int,
                t.blanks as int,
            ),
            None => spec_aggregate(per_file@).0 > u64::MAX || spec_aggregate(per_file@).1
                > u64::MAX || spec_aggregate(per_file@).2 > u64::MAX || spec_aggregate(
                per_file@,
            ).3 > u64::MAX,
        },
{
    let ghost all = per_file@;
    let mut t = Stats { lines: 0, code: 0, comments: 0, blanks: 0 };
    let mut k: usize = 0;
    proof {
        assert(all.take(0) =~= Seq::<Stats>::empty());
    }
    while k < per_file.len()
        invariant
            0 <= k <= all.len(),
            all == per_file@,
            spec_aggregate(all.take(k as int)) == (
                t.lines as int,
                t.code as int,
                t.comments as int,
                t.blanks as int,
            ),
        decreases all.len() - k,
    {
        let s = per_file[k];
        proof {
            assert(all.take(k + 1).drop_last() =~= all.take(k as int));
            assert(all.take(k + 1).last() == all[k as int]);
            lemma_aggregate_prefix_le(all, k + 1);
        }
        if t.lines > u64::MAX - s.lines || t.code > u64::MAX - s.code || t.comments > u64::MAX
            - s.comments || t.blanks > u64::MAX - s.blanks {
            return None;
        }
        t = Stats {
            lines: t.lines + s.lines,
            code: t.code + s.code,
            comments: t.comments + s.comments,
            blanks: t.blanks + s.blanks,
        };
        k += 1;
    }
    proof {
        assert(all.take(all.len() as int) =~= all);
    }
    Some(t)
}

/// Field-wise sums only grow as further records are taken.
proof fn lemma_aggregate_prefix_le(s: Seq<Stats>, k: int)
    requires
        0 <= k <= s.len(),
    ensures
        spec_aggregate(s.take(k)).0 <= spec_aggregate(s).0,
        spec_aggregate(s.take(k)).1 <= spec_aggregate(s).1,
        spec_aggregate(s.take(k)).2 <= spec_aggregate(s).2,
        spec_aggregate(s.take(k)).3 <= spec_aggregate(s).3,
    decreases s.len() - k,
{
    if k < s.len() {
        lemma_aggregate_prefix_le(s, k + 1);
        assert(s.take(k + 1).drop_last() =~= s.take(k));
        assert(s.take(k + 1).last() == s[k]);
    } else {
        assert(s.take(k) =~= s);
    }
}

/// The four expectation markers of the fixture protocol, in the order the
/// generated test checks them.
#[derive(Clone, Copy, PartialEq, Eq, Structural, Debug)]
pub enum Metric {
    Lines,
    Code,
    Comments,
    Blanks,
}

/// The four expectations a fixture asserts about itself, if its text holds
/// all four markers.
pub open spec fn spec_expectations(text: Seq<char>) -> Option<Stats> {
    let l = spec_extract_marker(text, "LINES"@);
    let c = spec_extract_marker(text, "CODE"@);
    let m = spec_extract_marker(text, "COMMENTS"@);
    let b = spec_extract_marker(text, "BLANKS"@);
    if l is Some && c is Some && m is Some && b is Some {
        Some(
            Stats {
                lines: l->Some_0,
                code: c->Some_0,
                comments: m->Some_0,
                blanks: b->Some_0,
            },
        )
    } else {
        None
    }
}

/// Reads the four expectation markers out of a fixture's own text; nothing
/// when any of them is absent or malformed.
pub fn read_expectations(text: &str) -> (r: Option<Stats>)
    ensures
        r == spec_expectations(text@),
{
    let l = extract_marker(text, "LINES");
    let c = extract_marker(text, "CODE");
    let m = extract_marker(text, "COMMENTS");
    let b = extract_marker(text, "BLANKS");
    match (l, c, m, b) {
        (Some(lv), Some(cv), Some(mv), Some(bv)) => Some(
            Stats { lines: lv, code: cv, comments: mv, blanks: bv },
        ),
        _ => None,
    }
}

} // verus!
