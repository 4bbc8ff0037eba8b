use vstd::prelude::*;

use crate::numeral::{spec_parse_u64, parse_u64};

verus! {

/// The marker text `pat` stands in `text` at position `i`.
pub open spec fn is_match(text: Seq<char>, pat: Seq<char>, i: int) -> bool {
    0 <= i && i + pat.len() <= text.len() && text.subrange(i, i + pat.len() as int) == pat
}

/// Position of the first occurrence of `pat` at or after position `i`.
pub open spec fn first_match_from(text: Seq<char>, pat: Seq<char>, i: int) -> Option<int>
    decreases text.len() - i + 1,
{
    if i < 0 || i + pat.len() > text.len() {
        None
    } else if is_match(text, pat, i) {
        Some(i)
    } else {
        first_match_from(text, pat, i + 1)
    }
}

pub proof fn lemma_first_match_some(text: Seq<char>, pat: Seq<char>, i: int, m: int)
    requires
        0 <= i <= m,
        is_match(text, pat, m),
        forall|j: int| i <= j < m ==> !is_match(text, pat, j),
    ensures
        first_match_from(text, pat, i) == Some(m),
    decreases m - i,
{
    if i < m {
        lemma_first_match_some(text, pat, i + 1, m);
    }
}

pub proof fn lemma_first_match_none(text: Seq<char>, pat: Seq<char>, i: int)
    requires
        0 <= i,
        forall|j: int| i <= j ==> !is_match(text, pat, j),
    ensures
        first_match_from(text, pat, i) is None,
    decreases text.len() - i + 1,
{
    if !(i + pat.len() > text.len()) {
        lemma_first_match_none(text, pat, i + 1);
    }
}

/// Compares `pat` against `text` at position `i`.
fn match_at(text: &str, pat: &str, i: usize, tlen: usize, plen: usize) -> (r: bool)
    requires
        tlen == text@.len(),
        plen == pat@.len(),
        i + plen <= tlen,
    ensures
        r == is_match(text@, pat@, i as int),
{
    let mut k: usize = 0;
    while k < plen
        invariant
            0 <= k <= plen,
            tlen == text@.len(),
            plen == pat@.len(),
            i + plen <= tlen,
            forall|j: int| 0 <= j < k ==> text@[i + j] == pat@[j],
        decreases plen - k,
    {
        let tc = text.get_char(i + k);
        let pc = pat.get_char(k);
        if tc != pc {
            proof {
                if is_match(text@, pat@, i as int) {
                    assert(text@.subrange(i as int, i + plen)[k as int] == pat@[k as int]);
                }
            }
            return false;
        }
        k += 1;
    }
    proof {
        assert(text@.subrange(i as int, i + plen) =~= pat@);
    }
    true
}

/// Position of the first occurrence of `pat` in `text`, if any.
pub fn find_sub(text: &str, pat: &str) -> (r: Option<usize>)
    ensures
        match r {
            Some(i) => is_match(text@, pat@, i as int) && (forall|j: int|
                0 <= j < i ==> !is_match(text@, pat@, j)),
            None => forall|j: int| !is_match(text@, pat@, j),
        },
{
    let tlen = text.unicode_len();
    let plen = pat.unicode_len();
    if plen == 0 {
        proof {
            assert(text@.subrange(0, 0) =~= pat@);
        }
        return Some(0);
    }
    if plen > tlen {
        return None;
    }
    let mut i: usize = 0;
    while i <= tlen - plen
        invariant
            0 <= i <= tlen - plen + 1,
            1 <= plen <= tlen,
            tlen == text@.len(),
            plen == pat@.len(),
            forall|j: int| 0 <= j < i ==> !is_match(text@, pat@, j),
        decreases tlen - plen - i + 1,
    {
        if match_at(text, pat, i, tlen, plen) {
            return Some(i);
        }
        i += 1;
    }
    None
}

/// A character that may stand between a marker name and its number.
pub open spec fn is_sep(c: char) -> bool {
    c == ' ' || c == ':'
}

/// End of the run of separator characters that starts at position `i`.
pub open spec fn sep_run_end(s: Seq<char>, i: int) -> int
    recommends
        0 <= i <= s.len(),
    decreases s.len() - i,
{
    if i < 0 || i >= s.len() || !is_sep(s[i]) {
        i
    } else {
        sep_run_end(s, i + 1)
    }
}

pub proof fn lemma_sep_run_end_is(s: Seq<char>, i: int, m: int)
    requires
        0 <= i <= m <= s.len(),
        forall|j: int| i <= j < m ==> is_sep(#[trigger] s[j]),
        m == s.len() || !is_sep(s[m]),
    ensures
        sep_run_end(s, i) == m,
    decreases m - i,
{
    if i < m {
        lemma_sep_run_end_is(s, i + 1, m);
    }
}

/// The integer associated with the first occurrence of the marker `name` in
/// `text`: the decimal number that follows the name after any run of spaces
/// and colons.  Nothing if the name is absent, no digit follows it, or the
/// number does not fit in 64 bits.
pub open spec fn spec_extract_marker(text: Seq<char>, name: Seq<char>) -> Option<u64> {
    match first_match_from(text, name, 0) {
        None => None,
        Some(p) => {
            let a = sep_run_end(text, p + name.len());
            match spec_parse_u64(text, a) {
                None => None,
                Some(pr) => Some(pr.0),
            }
        },
    }
}

/// Steps over the run of separator characters that starts at `start`.
fn skip_separators(text: &str, start: usize, tlen: usize) -> (r: usize)
    requires
        tlen == text@.len(),
        start <= tlen,
    ensures
        r == sep_run_end(text@, start as int),
        start <= r <= tlen,
{
    let mut a: usize = start;
    while a < tlen
        invariant
            start <= a <= tlen,
            tlen == text@.len(),
            forall|j: int| start <= j < a ==> is_sep(#[trigger] text@[j]),
        decreases tlen - a,
    {
        let c = text.get_char(a);
        if !(c == ' ' || c == ':') {
            proof {
                lemma_sep_run_end_is(text@, start as int, a as int);
            }
            return a;
        }
        a += 1;
    }
    proof {
        lemma_sep_run_end_is(text@, start as int, a as int);
    }
    a
}

/// Extracts one expectation marker's value from a fixture's text.
pub fn extract_marker(text: &str, name: &str) -> (r: Option<u64>)
    ensures
        r == spec_extract_marker(text@, name@),
{
    let tlen = text.unicode_len();
    match find_sub(text, name) {
        None => {
            proof {
                lemma_first_match_none(text@, name@, 0);
            }
            None
        },
        Some(p) => {
            proof {
                lemma_first_match_some(text@, name@, 0, p as int);
            }
            let plen = name.unicode_len();
            let sep_end = skip_separators(text, p + plen, tlen);
            match parse_u64(text, sep_end) {
                None => None,
                Some(pr) => Some(pr.0),
            }
        },
    }
}

} // verus!
