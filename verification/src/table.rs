use vstd::prelude::*;

use crate::numeral::{spec_digits, u64_to_string};
use crate::stats::{LanguageStats, LanguageStatsView};

verus! {

/// Width of the output table when no terminal width is known.
pub const FALLBACK_ROW_LEN: usize = 79;

/// Width taken by everything in the header row except the language column.
pub const NO_LANG_HEADER_ROW_LEN: usize = 67;

/// Width taken by everything in a language row except the language column.
pub const NO_LANG_ROW_LEN: usize = 61;

/// Mark set against a language whose counts may be inaccurate.
pub const IDENT_INACCURATE: &'static str = "(!)";

/// A run of `n` spaces.
pub open spec fn spaces(n: int) -> Seq<char>
    decreases n,
{
    if n <= 0 {
        Seq::<char>::empty()
    } else {
        spaces(n - 1).push(' ')
    }
}

/// `s` padded with spaces on the left up to width `w`; a longer `s` stands
/// unchanged.
pub open spec fn spec_pad_left(s: Seq<char>, w: int) -> Seq<char> {
    spaces(w - s.len()) + s
}

/// `s` padded with spaces on the right up to width `w`; a longer `s` stands
/// unchanged.
pub open spec fn spec_pad_right(s: Seq<char>, w: int) -> Seq<char> {
    s + spaces(w - s.len())
}

/// Appends `n` spaces to `out`.
fn push_spaces(out: &mut String, n: usize)
    ensures
        final(out)@ == old(out)@ + spaces(n as int),
{
    let ghost base = out@;
    let mut k: usize = 0;
    proof {
        assert(base + spaces(0) =~= base);
    }
    while k < n
        invariant
            0 <= k <= n,
            out@ == base + spaces(k as int),
        decreases n - k,
    {
        out.append(" ");
        proof {
            reveal_strlit(" ");
            assert(base + spaces(k as int) + " "@ =~= base + spaces(k + 1));
        }
        k += 1;
    }
}

/// Appends `s` padded on the left to width `w`.
pub fn pad_left(out: &mut String, s: &str, w: usize)
    ensures
        final(out)@ == old(out)@ + spec_pad_left(s@, w as int),
{
    let len = s.unicode_len();
    if len < w {
        push_spaces(out, w - len);
    } else {
        proof {
            assert(spaces(w - s@.len()) =~= Seq::<char>::empty());
        }
    }
    out.append(s);
}

/// Appends `s` padded on the right to width `w`.
pub fn pad_right(out: &mut String, s: &str, w: usize)
    ensures
        final(out)@ == old(out)@ + spec_pad_right(s@, w as int),
{
    let len = s.unicode_len();
    out.append(s);
    if len < w {
        push_spaces(out, w - len);
    } else {
        proof {
            assert(old(out)@ + s@ + spaces(w - s@.len()) =~= old(out)@ + s@);
        }
    }
}

/// A separating space, then a column title right-aligned in a twelve-wide
/// column.
pub open spec fn spec_title_col(title: Seq<char>) -> Seq<char> {
    " "@ + spec_pad_left(title, 12)
}

/// Appends one column title: a space, then the title right-aligned.
fn append_title_col(sink: &mut String, title: &str)
    ensures
        final(sink)@ == old(sink)@ + spec_title_col(title@),
{
    sink.append(" ");
    pad_left(sink, title, 12);
    proof {
        assert(final(sink)@ =~= old(sink)@ + spec_title_col(title@));
    }
}

/// The three header lines: the rule, the column titles, the rule again.  The
/// language column is as wide as the row leaves beside the fixed columns.
pub open spec fn spec_header(row: Seq<char>, columns: int) -> Seq<char> {
    row + "\n"@ + " "@ + spec_pad_right("Language"@, columns - NO_LANG_HEADER_ROW_LEN as int)
        + spec_title_col("Files"@) + spec_title_col("Lines"@) + spec_title_col("Code"@)
        + spec_title_col("Comments"@) + spec_title_col("Blanks"@) + "\n"@ + row + "\n"@
}

/// Writes the table header: a rule, the column titles, a rule.
#[verifier::rlimit(80)]
pub fn print_header(sink: &mut String, row: &str, columns: usize)
    requires
        columns >= NO_LANG_HEADER_ROW_LEN,
    ensures
        final(sink)@ == old(sink)@ + spec_header(row@, columns as int),
{
    sink.append(row);
    sink.append("\n");
    sink.append(" ");
    pad_right(sink, "Language", columns - NO_LANG_HEADER_ROW_LEN);
    proof {
        assert(sink@ =~= old(sink)@ + row@ + "\n"@ + " "@ + spec_pad_right(
            "Language"@,
            columns - NO_LANG_HEADER_ROW_LEN as int,
        ));
    }
    append_title_col(sink, "Files");
    append_title_col(sink, "Lines");
    append_title_col(sink, "Code");
    append_title_col(sink, "Comments");
    append_title_col(sink, "Blanks");
    sink.append("\n");
    sink.append(row);
    sink.append("\n");
    proof {
        assert(final(sink)@ =~= old(sink)@ + spec_header(row@, columns as int));
    }
}

/// The note set under a table that holds an inaccurately counted language.
pub open spec fn spec_inaccuracy_warning() -> Seq<char> {
    "Note: results can be inaccurate for languages marked with '"@ + IDENT_INACCURATE@ + "'\n"@
}

/// Writes the warning that marked languages may be counted inaccurately.
pub fn print_inaccuracy_warning(sink: &mut String)
    ensures
        final(sink)@ == old(sink)@ + spec_inaccuracy_warning(),
{
    sink.append("Note: results can be inaccurate for languages marked with '");
    sink.append(IDENT_INACCURATE);
    sink.append("'\n");
}

/// A separating space, then a count right-aligned in a `w`-wide column.
pub open spec fn spec_col(n: nat, w: int) -> Seq<char> {
    " "@ + spec_pad_left(spec_digits(n), w)
}

/// Appends one count column: a space, then the count right-aligned.
fn append_col(sink: &mut String, n: u64, w: usize)
    ensures
        final(sink)@ == old(sink)@ + spec_col(n as nat, w as int),
{
    sink.append(" ");
    let digits = u64_to_string(n);
    pad_left(sink, digits.as_str(), w);
    proof {
        assert(final(sink)@ =~= old(sink)@ + spec_col(n as nat, w as int));
    }
}

/// One language's table row: the name (truncated with a `|` when the row
/// leaves too little room), the inaccuracy mark when set, the file count and
/// the four aggregate counts right-aligned.
pub open spec fn spec_language_row(name: Seq<char>, ls: LanguageStatsView, columns: int) -> Seq<
    char,
> {
    let lsl = columns - NO_LANG_ROW_LEN as int - (if ls.inaccurate {
        3int
    } else {
        0int
    });
    let name_part = if lsl < name.len() {
        " "@ + name.take(lsl - 1) + "|"@
    } else {
        " "@ + spec_pad_right(name, lsl)
    };
    let mark = if ls.inaccurate {
        IDENT_INACCURATE@
    } else {
        Seq::<char>::empty()
    };
    name_part + mark + spec_col(ls.per_file.len(), 6) + spec_col(ls.lines as nat, 12) + spec_col(
        ls.code as nat,
        12,
    ) + spec_col(ls.comments as nat, 12) + spec_col(ls.blanks as nat, 12) + "\n"@
}

/// Writes one language's row of the results table.
#[verifier::rlimit(80)]
pub fn print_language(sink: &mut String, columns: usize, language: &LanguageStats, name: &str)
    requires
        columns >= NO_LANG_ROW_LEN + (if language.inaccurate {
            3int
        } else {
            0int
        }) + 1,
    ensures
        final(sink)@ == old(sink)@ + spec_language_row(name@, language@, columns as int),
{
    proof {
        reveal_strlit("(!)");
    }
    let mut lsl = columns - NO_LANG_ROW_LEN;
    if language.inaccurate {
        lsl = lsl - IDENT_INACCURATE.unicode_len();
    }
    let nlen = name.unicode_len();
    sink.append(" ");
    if lsl < nlen {
        // truncate, marking the cut with a bar
        let prefix = name.substring_char(0, lsl - 1);
        sink.append(prefix);
        sink.append("|");
        proof {
            assert(prefix@ =~= name@.take(lsl - 1));
        }
    } else {
        pad_right(sink, name, lsl);
    }
    proof {
        let np = if (lsl as int) < name@.len() {
            " "@ + name@.take(lsl - 1) + "|"@
        } else {
            " "@ + spec_pad_right(name@, lsl as int)
        };
        assert(sink@ =~= old(sink)@ + np);
    }
    let ghost with_name = sink@;
    if language.inaccurate {
        sink.append(IDENT_INACCURATE);
    }
    let ghost with_mark = sink@;
    append_col(sink, language.per_file.len() as u64, 6);
    append_col(sink, language.lines, 12);
    append_col(sink, language.code, 12);
    append_col(sink, language.comments, 12);
    append_col(sink, language.blanks, 12);
    sink.append("\n");
    proof {
        assert(final(sink)@ =~= old(sink)@ + spec_language_row(name@, language@, columns as int));
    }
}

/// One per-file breakdown row: the record's four counts right-aligned under
/// the aggregate columns.
pub open spec fn spec_file_row(f: crate::stats::Stats) -> Seq<char> {
    spec_col(f.lines as nat, 12) + spec_col(f.code as nat, 12) + spec_col(f.comments as nat, 12)
        + spec_col(f.blanks as nat, 12) + "\n"@
}

pub open spec fn spec_file_rows(s: Seq<crate::stats::Stats>) -> Seq<char>
    decreases s.len(),
{
    if s.len() == 0 {
        Seq::<char>::empty()
    } else {
        spec_file_rows(s.drop_last()) + spec_file_row(s.last())
    }
}

/// Writes one per-file breakdown row.
fn print_file_row(sink: &mut String, f: &crate::stats::Stats)
    ensures
        final(sink)@ == old(sink)@ + spec_file_row(*f),
{
    append_col(sink, f.lines, 12);
    append_col(sink, f.code, 12);
    append_col(sink, f.comments, 12);
    append_col(sink, f.blanks, 12);
    sink.append("\n");
    proof {
        assert(final(sink)@ =~= old(sink)@ + spec_file_row(*f));
    }
}

/// The rows of the results table: one row per language that counted
/// anything, each followed, when asked for, by its per-file breakdown
/// between two rules.
pub open spec fn spec_results(
    row: Seq<char>,
    langs: Seq<(String, LanguageStats)>,
    list_files: bool,
) -> Seq<char>
    decreases langs.len(),
{
    if langs.len() == 0 {
        Seq::<char>::empty()
    } else {
        let entry = langs.last();
        spec_results(row, langs.drop_last(), list_files) + (if entry.1.spec_is_empty() {
            Seq::<char>::empty()
        } else {
            spec_language_row(entry.0@, entry.1@, row.len() as int) + (if list_files {
                row + "\n"@ + spec_file_rows(entry.1@.per_file) + row + "\n"@
            } else {
                Seq::<char>::empty()
            })
        })
    }
}

/// Writes the results table: every non-empty language's row, with the
/// per-file breakdowns when `list_files` is set.
#[verifier::rlimit(100)]
pub fn print_results(
    sink: &mut String,
    row: &str,
    languages: &Vec<(String, LanguageStats)>,
    list_files: bool,
)
    requires
        row@.len() >= NO_LANG_ROW_LEN + 4,
    ensures
        final(sink)@ == old(sink)@ + spec_results(row@, languages@, list_files),
{
    let ghost base = old(sink)@;
    let columns = row.unicode_len();
    let mut k: usize = 0;
    proof {
        assert(base + spec_results(row@, languages@.take(0), list_files) =~= base);
    }
    while k < languages.len()
        invariant
            0 <= k <= languages@.len(),
            columns == row@.len(),
            row@.len() >= NO_LANG_ROW_LEN + 4,
            sink@ == base + spec_results(row@, languages@.take(k as int), list_files),
        decreases languages@.len() - k,
    {
        let ghost pre = sink@;
        let entry = &languages[k];
        if isnt_empty(entry) {
            print_language(sink, columns, &entry.1, entry.0.as_str());
            if list_files {
                let ghost base2 = sink@;
                sink.append(row);
                sink.append("\n");
                let mut j: usize = 0;
                proof {
                    assert(entry.1@.per_file.take(0) =~= Seq::<crate::stats::Stats>::empty());
                    assert(sink@ =~= base2 + row@ + "\n"@ + spec_file_rows(
                        entry.1@.per_file.take(0),
                    ));
                }
                while j < entry.1.per_file.len()
                    invariant
                        0 <= j <= entry.1@.per_file.len(),
                        sink@ == base2 + row@ + "\n"@ + spec_file_rows(
                            entry.1@.per_file.take(j as int),
                        ),
                    decreases entry.1@.per_file.len() - j,
                {
                    print_file_row(sink, &entry.1.per_file[j]);
                    proof {
                        assert(entry.1@.per_file.take(j + 1).drop_last() =~= entry.1@.per_file.take(
                            j as int,
                        ));
                        assert(entry.1@.per_file.take(j + 1).last() == entry.1@.per_file[j as int]);
                    }
                    j += 1;
                }
                proof {
                    assert(entry.1@.per_file.take(entry.1@.per_file.len() as int)
                        =~= entry.1@.per_file);
                }
                sink.append(row);
                sink.append("\n");
            }
        }
        proof {
            let lang = languages@[k as int];
            let addition = if lang.1.spec_is_empty() {
                Seq::<char>::empty()
            } else {
                spec_language_row(lang.0@, lang.1@, row@.len() as int) + (if list_files {
                    row@ + "\n"@ + spec_file_rows(lang.1@.per_file) + row@ + "\n"@
                } else {
                    Seq::<char>::empty()
                })
            };
            assert(sink@ =~= pre + addition);
            assert(languages@.take(k + 1).drop_last() =~= languages@.take(k as int));
            assert(languages@.take(k + 1).last() == lang);
            assert(spec_results(row@, languages@.take(k + 1), list_files) == spec_results(
                row@,
                languages@.take(k as int),
                list_files,
            ) + addition);
            assert(sink@ =~= base + spec_results(row@, languages@.take(k + 1), list_files));
        }
        k += 1;
    }
    proof {
        assert(languages@.take(languages@.len() as int) =~= languages@);
    }
}

/// The printed-row form of fixture self-consistency: when a language's
/// aggregate counts equal its sole per-file breakdown record, its table row
/// shows a file count of one and exactly that record's four counts.
pub proof fn lemma_row_shows_sole_breakdown(name: Seq<char>, v: LanguageStatsView, columns: int)
    requires
        v.per_file.len() == 1,
        v.per_file[0].lines == v.lines,
        v.per_file[0].code == v.code,
        v.per_file[0].comments == v.comments,
        v.per_file[0].blanks == v.blanks,
    ensures
        ({
            let f = v.per_file[0];
            let lsl = columns - NO_LANG_ROW_LEN as int - (if v.inaccurate {
                3int
            } else {
                0int
            });
            let name_part = if lsl < name.len() {
                " "@ + name.take(lsl - 1) + "|"@
            } else {
                " "@ + spec_pad_right(name, lsl)
            };
            let mark = if v.inaccurate {
                IDENT_INACCURATE@
            } else {
                Seq::<char>::empty()
            };
            spec_language_row(name, v, columns) == name_part + mark + spec_col(1, 6) + spec_col(
                f.lines as nat,
                12,
            ) + spec_col(f.code as nat, 12) + spec_col(f.comments as nat, 12) + spec_col(
                f.blanks as nat,
                12,
            ) + "\n"@
        }),
{
}

/// A language is listed only when it counted anything at all.
pub fn isnt_empty(entry: &(String, LanguageStats)) -> (r: bool)
    ensures
        r == !entry.1.spec_is_empty(),
{
    let ls = &entry.1;
    !(ls.lines == 0 && ls.code == 0 && ls.comments == 0 && ls.blanks == 0)
}

} // verus!
