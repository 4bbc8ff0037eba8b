use vstd::prelude::*;

use crate::language::{LangDefView, LanguageDefinition};
use crate::numeral::{
    digit_run_end, digits_val, is_digit, lemma_digit_run_end_is, lemma_digits_val_spec_digits,
    lemma_spec_digits_are_digits, parse_u64, spec_digits, spec_parse_u64, u64_to_string,
};

verus! {

// ---------------------------------------------------------------------------
// The encoding: every number is a decimal numeral closed by `:`; a string is
// its length followed by its characters verbatim, so no escaping ever touches
// a delimiter; lists carry their element count first.  The artifact is the
// table's language count followed by one record per language.
// ---------------------------------------------------------------------------

pub open spec fn enc_nat(n: nat) -> Seq<char> {
    spec_digits(n) + seq![':']
}

pub open spec fn enc_str(v: Seq<char>) -> Seq<char> {
    enc_nat(v.len()) + v
}

pub open spec fn enc_str_items(xs: Seq<Seq<char>>) -> Seq<char>
    decreases xs.len(),
{
    if xs.len() == 0 {
        Seq::<char>::empty()
    } else {
        enc_str(xs.first()) + enc_str_items(xs.drop_first())
    }
}

pub open spec fn enc_str_list(xs: Seq<Seq<char>>) -> Seq<char> {
    enc_nat(xs.len()) + enc_str_items(xs)
}

pub open spec fn enc_group_items(gs: Seq<Seq<Seq<char>>>) -> Seq<char>
    decreases gs.len(),
{
    if gs.len() == 0 {
        Seq::<char>::empty()
    } else {
        enc_str_list(gs.first()) + enc_group_items(gs.drop_first())
    }
}

pub open spec fn enc_group_list(gs: Seq<Seq<Seq<char>>>) -> Seq<char> {
    enc_nat(gs.len()) + enc_group_items(gs)
}

pub open spec fn enc_bool(b: bool) -> Seq<char> {
    enc_nat(if b { 1 } else { 0 })
}

pub open spec fn enc_lang(name: Seq<char>, d: LangDefView) -> Seq<char> {
    enc_str(name) + enc_str_list(d.line_comments) + enc_str_list(d.extensions) + enc_bool(d.nested)
        + enc_group_list(d.quotes) + enc_group_list(d.multi_line)
}

pub open spec fn enc_lang_items(t: Seq<(Seq<char>, LangDefView)>) -> Seq<char>
    decreases t.len(),
{
    if t.len() == 0 {
        Seq::<char>::empty()
    } else {
        enc_lang(t.first().0, t.first().1) + enc_lang_items(t.drop_first())
    }
}

pub open spec fn enc_table(t: Seq<(Seq<char>, LangDefView)>) -> Seq<char> {
    enc_nat(t.len()) + enc_lang_items(t)
}

// ---------------------------------------------------------------------------
// Size bounds under which the encoding can be read back: every count must
// fit in 64 bits.  Data held in vectors always satisfies them.
// ---------------------------------------------------------------------------

pub open spec fn str_ok(v: Seq<char>) -> bool {
    v.len() <= u64::MAX
}

pub open spec fn str_list_ok(xs: Seq<Seq<char>>) -> bool {
    xs.len() <= u64::MAX && forall|i: int| 0 <= i < xs.len() ==> str_ok(#[trigger] xs[i])
}

pub open spec fn group_list_ok(gs: Seq<Seq<Seq<char>>>) -> bool {
    gs.len() <= u64::MAX && forall|i: int| 0 <= i < gs.len() ==> str_list_ok(#[trigger] gs[i])
}

pub open spec fn lang_ok(name: Seq<char>, d: LangDefView) -> bool {
    str_ok(name) && str_list_ok(d.line_comments) && str_list_ok(d.extensions) && group_list_ok(
        d.quotes,
    ) && group_list_ok(d.multi_line)
}

pub open spec fn table_ok(t: Seq<(Seq<char>, LangDefView)>) -> bool {
    t.len() <= u64::MAX && forall|i: int|
        0 <= i < t.len() ==> lang_ok(#[trigger] t[i].0, t[i].1)
}

// ---------------------------------------------------------------------------
// Reading the artifact back, position by position.
// ---------------------------------------------------------------------------

pub open spec fn spec_parse_nat(s: Seq<char>, i: int) -> Option<(u64, int)> {
    match spec_parse_u64(s, i) {
        None => None,
        Some(p) => {
            if p.1 < s.len() && s[p.1] == ':' {
                Some((p.0, p.1 + 1))
            } else {
                None
            }
        },
    }
}

pub open spec fn spec_parse_str(s: Seq<char>, i: int) -> Option<(Seq<char>, int)> {
    match spec_parse_nat(s, i) {
        None => None,
        Some(p) => {
            if p.1 + p.0 <= s.len() {
                Some((s.subrange(p.1, p.1 + p.0), p.1 + p.0))
            } else {
                None
            }
        },
    }
}

pub open spec fn spec_parse_str_items(s: Seq<char>, i: int, count: nat) -> Option<
    (Seq<Seq<char>>, int),
>
    decreases count,
{
    if count == 0 {
        Some((Seq::<Seq<char>>::empty(), i))
    } else {
        match spec_parse_str(s, i) {
            None => None,
            Some(p) => {
                match spec_parse_str_items(s, p.1, (count - 1) as nat) {
                    None => None,
                    Some(q) => Some((seq![p.0] + q.0, q.1)),
                }
            },
        }
    }
}

pub open spec fn spec_parse_str_list(s: Seq<char>, i: int) -> Option<(Seq<Seq<char>>, int)> {
    match spec_parse_nat(s, i) {
        None => None,
        Some(p) => spec_parse_str_items(s, p.1, p.0 as nat),
    }
}

pub open spec fn spec_parse_group_items(s: Seq<char>, i: int, count: nat) -> Option<
    (Seq<Seq<Seq<char>>>, int),
>
    decreases count,
{
    if count == 0 {
        Some((Seq::<Seq<Seq<char>>>::empty(), i))
    } else {
        match spec_parse_str_list(s, i) {
            None => None,
            Some(p) => {
                match spec_parse_group_items(s, p.1, (count - 1) as nat) {
                    None => None,
                    Some(q) => Some((seq![p.0] + q.0, q.1)),
                }
            },
        }
    }
}

pub open spec fn spec_parse_group_list(s: Seq<char>, i: int) -> Option<(Seq<Seq<Seq<char>>>, int)> {
    match spec_parse_nat(s, i) {
        None => None,
        Some(p) => spec_parse_group_items(s, p.1, p.0 as nat),
    }
}

pub open spec fn spec_parse_bool(s: Seq<char>, i: int) -> Option<(bool, int)> {
    match spec_parse_nat(s, i) {
        None => None,
        Some(p) => {
            if p.0 == 0 {
                Some((false, p.1))
            } else if p.0 == 1 {
                Some((true, p.1))
            } else {
                None
            }
        },
    }
}

pub open spec fn spec_parse_lang(s: Seq<char>, i: int) -> Option<((Seq<char>, LangDefView), int)> {
    match spec_parse_str(s, i) {
        None => None,
        Some(name) => match spec_parse_str_list(s, name.1) {
            None => None,
            Some(lc) => match spec_parse_str_list(s, lc.1) {
                None => None,
                Some(ex) => match spec_parse_bool(s, ex.1) {
                    None => None,
                    Some(ne) => match spec_parse_group_list(s, ne.1) {
                        None => None,
                        Some(qu) => match spec_parse_group_list(s, qu.1) {
                            None => None,
                            Some(ml) => Some(
                                (
                                    (
                                        name.0,
                                        LangDefView {
                                            line_comments: lc.0,
                                            extensions: ex.0,
                                            nested: ne.0,
                                            quotes: qu.0,
                                            multi_line: ml.0,
                                        },
                                    ),
                                    ml.1,
                                ),
                            ),
                        },
                    },
                },
            },
        },
    }
}

pub open spec fn spec_parse_lang_items(s: Seq<char>, i: int, count: nat) -> Option<
    (Seq<(Seq<char>, LangDefView)>, int),
>
    decreases count,
{
    if count == 0 {
        Some((Seq::<(Seq<char>, LangDefView)>::empty(), i))
    } else {
        match spec_parse_lang(s, i) {
            None => None,
            Some(p) => {
                match spec_parse_lang_items(s, p.1, (count - 1) as nat) {
                    None => None,
                    Some(q) => Some((seq![p.0] + q.0, q.1)),
                }
            },
        }
    }
}

/// The whole artifact: a language count, that many records, and nothing
/// after them.
pub open spec fn spec_parse_table(s: Seq<char>) -> Option<Seq<(Seq<char>, LangDefView)>> {
    match spec_parse_nat(s, 0) {
        None => None,
        Some(p) => {
            match spec_parse_lang_items(s, p.1, p.0 as nat) {
                None => None,
                Some(q) => {
                    if q.1 == s.len() {
                        Some(q.0)
                    } else {
                        None
                    }
                },
            }
        },
    }
}

// ---------------------------------------------------------------------------
// Reading back what was rendered yields the rendered value: the round-trip
// lemmas, one per layer of the encoding.
// ---------------------------------------------------------------------------

/// A subrange that matches a concatenation splits into matching subranges.
proof fn lemma_split_subrange(s: Seq<char>, i: int, a: Seq<char>, b: Seq<char>)
    requires
        0 <= i,
        i + a.len() + b.len() <= s.len(),
        s.subrange(i, i + a.len() + b.len()) == a + b,
    ensures
        s.subrange(i, i + a.len() as int) == a,
        s.subrange(i + a.len(), i + a.len() + b.len()) == b,
{
    assert forall|j: int| 0 <= j < a.len() implies s.subrange(i, i + a.len() as int)[j] == a[j] by {
        assert(s.subrange(i, i + a.len() + b.len())[j] == (a + b)[j]);
    }
    assert(s.subrange(i, i + a.len() as int) =~= a);
    assert forall|j: int| 0 <= j < b.len() implies s.subrange(i + a.len(), i + a.len() + b.len())[j]
        == b[j] by {
        assert(s.subrange(i, i + a.len() + b.len())[j + a.len()] == (a + b)[j + a.len()]);
        assert((a + b)[j + a.len()] == b[j]);
        assert(s.subrange(i, i + a.len() + b.len())[j + a.len()] == s[i + a.len() + j]);
        assert(s.subrange(i + a.len(), i + a.len() + b.len())[j] == s[i + a.len() + j]);
    }
    assert(s.subrange(i + a.len(), i + a.len() + b.len()) =~= b);
}

proof fn lemma_parse_nat_enc(s: Seq<char>, i: int, n: nat)
    requires
        0 <= i,
        i + enc_nat(n).len() <= s.len(),
        s.subrange(i, i + enc_nat(n).len()) == enc_nat(n),
        n <= u64::MAX,
    ensures
        spec_parse_nat(s, i) == Some((n as u64, i + enc_nat(n).len())),
{
    let d = spec_digits(n);
    let dl = d.len() as int;
    lemma_spec_digits_are_digits(n);
    assert forall|j: int| i <= j < i + dl implies is_digit(#[trigger] s[j]) by {
        assert(s[j] == s.subrange(i, i + enc_nat(n).len())[j - i]);
        assert(enc_nat(n)[j - i] == d[j - i]);
    }
    assert(s[i + dl] == enc_nat(n)[dl]);
    assert(enc_nat(n)[dl] == ':');
    assert(!is_digit(':'));
    lemma_digit_run_end_is(s, i, i + dl);
    assert(s.subrange(i, i + dl) =~= d) by {
        assert forall|j: int| 0 <= j < dl implies s.subrange(i, i + dl)[j] == d[j] by {
            assert(s[i + j] == s.subrange(i, i + enc_nat(n).len())[j]);
        }
    }
    lemma_digits_val_spec_digits(n);
    assert(spec_parse_u64(s, i) == Some((n as u64, i + dl)));
}

proof fn lemma_parse_str_enc(s: Seq<char>, i: int, v: Seq<char>)
    requires
        0 <= i,
        i + enc_str(v).len() <= s.len(),
        s.subrange(i, i + enc_str(v).len()) == enc_str(v),
        str_ok(v),
    ensures
        spec_parse_str(s, i) == Some((v, i + enc_str(v).len())),
{
    lemma_split_subrange(s, i, enc_nat(v.len()), v);
    lemma_parse_nat_enc(s, i, v.len());
}

proof fn lemma_parse_str_items_enc(s: Seq<char>, i: int, xs: Seq<Seq<char>>)
    requires
        0 <= i,
        i + enc_str_items(xs).len() <= s.len(),
        s.subrange(i, i + enc_str_items(xs).len()) == enc_str_items(xs),
        forall|k: int| 0 <= k < xs.len() ==> str_ok(#[trigger] xs[k]),
    ensures
        spec_parse_str_items(s, i, xs.len()) == Some((xs, i + enc_str_items(xs).len())),
    decreases xs.len(),
{
    if xs.len() == 0 {
        assert(xs =~= Seq::<Seq<char>>::empty());
    } else {
        let x = xs.first();
        let rest = xs.drop_first();
        lemma_split_subrange(s, i, enc_str(x), enc_str_items(rest));
        lemma_parse_str_enc(s, i, x);
        let j = i + enc_str(x).len();
        assert forall|k: int| 0 <= k < rest.len() implies str_ok(#[trigger] rest[k]) by {
            assert(rest[k] == xs[k + 1]);
        }
        lemma_parse_str_items_enc(s, j, rest);
        assert(seq![x] + rest =~= xs);
    }
}

proof fn lemma_parse_str_list_enc(s: Seq<char>, i: int, xs: Seq<Seq<char>>)
    requires
        0 <= i,
        i + enc_str_list(xs).len() <= s.len(),
        s.subrange(i, i + enc_str_list(xs).len()) == enc_str_list(xs),
        str_list_ok(xs),
    ensures
        spec_parse_str_list(s, i) == Some((xs, i + enc_str_list(xs).len())),
{
    lemma_split_subrange(s, i, enc_nat(xs.len()), enc_str_items(xs));
    lemma_parse_nat_enc(s, i, xs.len());
    lemma_parse_str_items_enc(s, i + enc_nat(xs.len()).len(), xs);
}

proof fn lemma_parse_group_items_enc(s: Seq<char>, i: int, gs: Seq<Seq<Seq<char>>>)
    requires
        0 <= i,
        i + enc_group_items(gs).len() <= s.len(),
        s.subrange(i, i + enc_group_items(gs).len()) == enc_group_items(gs),
        forall|k: int| 0 <= k < gs.len() ==> str_list_ok(#[trigger] gs[k]),
    ensures
        spec_parse_group_items(s, i, gs.len()) == Some((gs, i + enc_group_items(gs).len())),
    decreases gs.len(),
{
    if gs.len() == 0 {
        assert(gs =~= Seq::<Seq<Seq<char>>>::empty());
    } else {
        let x = gs.first();
        let rest = gs.drop_first();
        lemma_split_subrange(s, i, enc_str_list(x), enc_group_items(rest));
        lemma_parse_str_list_enc(s, i, x);
        let j = i + enc_str_list(x).len();
        assert forall|k: int| 0 <= k < rest.len() implies str_list_ok(#[trigger] rest[k]) by {
            assert(rest[k] == gs[k + 1]);
        }
        lemma_parse_group_items_enc(s, j, rest);
        assert(seq![x] + rest =~= gs);
    }
}

proof fn lemma_parse_group_list_enc(s: Seq<char>, i: int, gs: Seq<Seq<Seq<char>>>)
    requires
        0 <= i,
        i + enc_group_list(gs).len() <= s.len(),
        s.subrange(i, i + enc_group_list(gs).len()) == enc_group_list(gs),
        group_list_ok(gs),
    ensures
        spec_parse_group_list(s, i) == Some((gs, i + enc_group_list(gs).len())),
{
    lemma_split_subrange(s, i, enc_nat(gs.len()), enc_group_items(gs));
    lemma_parse_nat_enc(s, i, gs.len());
    lemma_parse_group_items_enc(s, i + enc_nat(gs.len()).len(), gs);
}

proof fn lemma_parse_bool_enc(s: Seq<char>, i: int, b: bool)
    requires
        0 <= i,
        i + enc_bool(b).len() <= s.len(),
        s.subrange(i, i + enc_bool(b).len()) == enc_bool(b),
    ensures
        spec_parse_bool(s, i) == Some((b, i + enc_bool(b).len())),
{
    lemma_parse_nat_enc(s, i, if b { 1nat } else { 0nat });
}

proof fn lemma_parse_lang_enc(s: Seq<char>, i: int, name: Seq<char>, d: LangDefView)
    requires
        0 <= i,
        i + enc_lang(name, d).len() <= s.len(),
        s.subrange(i, i + enc_lang(name, d).len()) == enc_lang(name, d),
        lang_ok(name, d),
    ensures
        spec_parse_lang(s, i) == Some(((name, d), i + enc_lang(name, d).len())),
{
    let e1 = enc_str(name);
    let e2 = enc_str_list(d.line_comments);
    let e3 = enc_str_list(d.extensions);
    let e4 = enc_bool(d.nested);
    let e5 = enc_group_list(d.quotes);
    let e6 = enc_group_list(d.multi_line);
    assert(enc_lang(name, d) =~= e1 + (e2 + (e3 + (e4 + (e5 + e6)))));
    lemma_split_subrange(s, i, e1, e2 + (e3 + (e4 + (e5 + e6))));
    let i1 = i + e1.len();
    lemma_split_subrange(s, i1, e2, e3 + (e4 + (e5 + e6)));
    let i2 = i1 + e2.len();
    lemma_split_subrange(s, i2, e3, e4 + (e5 + e6));
    let i3 = i2 + e3.len();
    lemma_split_subrange(s, i3, e4, e5 + e6);
    let i4 = i3 + e4.len();
    lemma_split_subrange(s, i4, e5, e6);
    let i5 = i4 + e5.len();
    lemma_parse_str_enc(s, i, name);
    lemma_parse_str_list_enc(s, i1, d.line_comments);
    lemma_parse_str_list_enc(s, i2, d.extensions);
    lemma_parse_bool_enc(s, i3, d.nested);
    lemma_parse_group_list_enc(s, i4, d.quotes);
    lemma_parse_group_list_enc(s, i5, d.multi_line);
    assert(d == LangDefView {
        line_comments: d.line_comments,
        extensions: d.extensions,
        nested: d.nested,
        quotes: d.quotes,
        multi_line: d.multi_line,
    });
}

proof fn lemma_parse_lang_items_enc(s: Seq<char>, i: int, t: Seq<(Seq<char>, LangDefView)>)
    requires
        0 <= i,
        i + enc_lang_items(t).len() <= s.len(),
        s.subrange(i, i + enc_lang_items(t).len()) == enc_lang_items(t),
        forall|k: int| 0 <= k < t.len() ==> lang_ok(#[trigger] t[k].0, t[k].1),
    ensures
        spec_parse_lang_items(s, i, t.len()) == Some((t, i + enc_lang_items(t).len())),
    decreases t.len(),
{
    if t.len() == 0 {
        assert(t =~= Seq::<(Seq<char>, LangDefView)>::empty());
    } else {
        let x = t.first();
        let rest = t.drop_first();
        lemma_split_subrange(s, i, enc_lang(x.0, x.1), enc_lang_items(rest));
        lemma_parse_lang_enc(s, i, x.0, x.1);
        let j = i + enc_lang(x.0, x.1).len();
        assert forall|k: int| 0 <= k < rest.len() implies lang_ok(
            #[trigger] rest[k].0,
            rest[k].1,
        ) by {
            assert(rest[k] == t[k + 1]);
        }
        lemma_parse_lang_items_enc(s, j, rest);
        assert(seq![x] + rest =~= t);
    }
}

// ---------------------------------------------------------------------------
// Rendering the artifact.
// ---------------------------------------------------------------------------

/// Mathematical image of a language table.
pub open spec fn table_view(t: Seq<(String, LanguageDefinition)>) -> Seq<(Seq<char>, LangDefView)> {
    t.map(|i: int, p: (String, LanguageDefinition)| (p.0@, p.1@))
}

fn render_nat(out: &mut String, n: u64)
    ensures
        final(out)@ == old(out)@ + enc_nat(n as nat),
{
    let d = u64_to_string(n);
    out.append(d.as_str());
    out.append(":");
    proof {
        reveal_strlit(":");
        assert(old(out)@ + d@ + ":"@ =~= old(out)@ + enc_nat(n as nat));
    }
}

fn render_str(out: &mut String, v: &str)
    ensures
        final(out)@ == old(out)@ + enc_str(v@),
{
    let len = v.unicode_len();
    render_nat(out, len as u64);
    out.append(v);
    proof {
        assert(old(out)@ + enc_nat(v@.len()) + v@ =~= old(out)@ + enc_str(v@));
    }
}

fn render_str_items(out: &mut String, xs: &Vec<String>, from: usize)
    requires
        from <= xs@.len(),
    ensures
        final(out)@ == old(out)@ + enc_str_items(xs.deep_view().skip(from as int)),
    decreases xs@.len() - from,
{
    let ghost dv = xs.deep_view();
    if from == xs.len() {
        proof {
            assert(dv.skip(from as int) =~= Seq::<Seq<char>>::empty());
            assert(old(out)@ + enc_str_items(dv.skip(from as int)) =~= old(out)@);
        }
        return ;
    }
    render_str(out, xs[from].as_str());
    render_str_items(out, xs, from + 1);
    proof {
        assert(dv.skip(from as int).first() == dv[from as int]);
        assert(dv.skip(from as int).drop_first() =~= dv.skip(from + 1));
        assert(old(out)@ + enc_str(dv[from as int]) + enc_str_items(dv.skip(from + 1)) =~= old(
            out,
        )@ + enc_str_items(dv.skip(from as int)));
    }
}

fn render_str_list(out: &mut String, xs: &Vec<String>)
    ensures
        final(out)@ == old(out)@ + enc_str_list(xs.deep_view()),
{
    render_nat(out, xs.len() as u64);
    render_str_items(out, xs, 0);
    proof {
        assert(xs.deep_view().skip(0) =~= xs.deep_view());
        assert(old(out)@ + enc_nat(xs.deep_view().len()) + enc_str_items(xs.deep_view()) =~= old(
            out,
        )@ + enc_str_list(xs.deep_view()));
    }
}

fn render_group_items(out: &mut String, gs: &Vec<Vec<String>>, from: usize)
    requires
        from <= gs@.len(),
    ensures
        final(out)@ == old(out)@ + enc_group_items(gs.deep_view().skip(from as int)),
    decreases gs@.len() - from,
{
    let ghost dv = gs.deep_view();
    if from == gs.len() {
        proof {
            assert(dv.skip(from as int) =~= Seq::<Seq<Seq<char>>>::empty());
            assert(old(out)@ + enc_group_items(dv.skip(from as int)) =~= old(out)@);
        }
        return ;
    }
    render_str_list(out, &gs[from]);
    render_group_items(out, gs, from + 1);
    proof {
        assert(dv.skip(from as int).first() == dv[from as int]);
        assert(dv.skip(from as int).drop_first() =~= dv.skip(from + 1));
        assert(old(out)@ + enc_str_list(dv[from as int]) + enc_group_items(dv.skip(from + 1)) =~=
            old(out)@ + enc_group_items(dv.skip(from as int)));
    }
}

fn render_group_list(out: &mut String, gs: &Vec<Vec<String>>)
    ensures
        final(out)@ == old(out)@ + enc_group_list(gs.deep_view()),
{
    render_nat(out, gs.len() as u64);
    render_group_items(out, gs, 0);
    proof {
        assert(gs.deep_view().skip(0) =~= gs.deep_view());
        assert(old(out)@ + enc_nat(gs.deep_view().len()) + enc_group_items(gs.deep_view()) =~= old(
            out,
        )@ + enc_group_list(gs.deep_view()));
    }
}

fn render_bool(out: &mut String, b: bool)
    ensures
        final(out)@ == old(out)@ + enc_bool(b),
{
    if b {
        render_nat(out, 1);
    } else {
        render_nat(out, 0);
    }
}

fn render_lang(out: &mut String, name: &str, d: &LanguageDefinition)
    ensures
        final(out)@ == old(out)@ + enc_lang(name@, d@),
{
    render_str(out, name);
    render_str_list(out, &d.line_comments);
    render_str_list(out, &d.extensions);
    render_bool(out, d.nested);
    render_group_list(out, &d.quotes);
    render_group_list(out, &d.multi_line);
    proof {
        assert(old(out)@ + enc_str(name@) + enc_str_list(d@.line_comments) + enc_str_list(
            d@.extensions,
        ) + enc_bool(d@.nested) + enc_group_list(d@.quotes) + enc_group_list(d@.multi_line) =~= old(
            out,
        )@ + enc_lang(name@, d@));
    }
}

fn render_lang_items(out: &mut String, t: &Vec<(String, LanguageDefinition)>, from: usize)
    requires
        from <= t@.len(),
    ensures
        final(out)@ == old(out)@ + enc_lang_items(table_view(t@).skip(from as int)),
    decreases t@.len() - from,
{
    let ghost tv = table_view(t@);
    if from == t.len() {
        proof {
            assert(tv.skip(from as int) =~= Seq::<(Seq<char>, LangDefView)>::empty());
            assert(old(out)@ + enc_lang_items(tv.skip(from as int)) =~= old(out)@);
        }
        return ;
    }
    let entry = &t[from];
    render_lang(out, entry.0.as_str(), &entry.1);
    render_lang_items(out, t, from + 1);
    proof {
        assert(tv.skip(from as int).first() == tv[from as int]);
        assert(tv.skip(from as int).drop_first() =~= tv.skip(from + 1));
        assert(old(out)@ + enc_lang(tv[from as int].0, tv[from as int].1) + enc_lang_items(
            tv.skip(from + 1),
        ) =~= old(out)@ + enc_lang_items(tv.skip(from as int)));
    }
}

/// Renders the sorted language table as the metadata artifact.
pub fn render_table(t: &Vec<(String, LanguageDefinition)>) -> (r: String)
    ensures
        r@ == enc_table(table_view(t@)),
{
    let mut out = String::new();
    render_nat(&mut out, t.len() as u64);
    render_lang_items(&mut out, t, 0);
    proof {
        assert(table_view(t@).skip(0) =~= table_view(t@));
        assert(Seq::<char>::empty() + enc_nat(table_view(t@).len()) + enc_lang_items(
            table_view(t@),
        ) =~= enc_table(table_view(t@)));
    }
    out
}

// ---------------------------------------------------------------------------
// Reading the artifact.
// ---------------------------------------------------------------------------

fn parse_nat(s: &str, i: usize) -> (r: Option<(u64, usize)>)
    requires
        i <= s@.len(),
    ensures
        match r {
            Some(p) => spec_parse_nat(s@, i as int) == Some((p.0, p.1 as int)) && p.1 <= s@.len(),
            None => spec_parse_nat(s@, i as int) is None,
        },
{
    let tlen = s.unicode_len();
    match parse_u64(s, i) {
        None => None,
        Some(p) => {
            proof {
                crate::numeral::lemma_digit_run_end(s@, i as int);
            }
            if p.1 < tlen {
                let c = s.get_char(p.1);
                if c == ':' {
                    Some((p.0, p.1 + 1))
                } else {
                    None
                }
            } else {
                None
            }
        },
    }
}

fn parse_str(s: &str, i: usize) -> (r: Option<(String, usize)>)
    requires
        i <= s@.len(),
    ensures
        match r {
            Some(p) => spec_parse_str(s@, i as int) == Some((p.0@, p.1 as int)) && p.1 <= s@.len(),
            None => spec_parse_str(s@, i as int) is None,
        },
{
    let tlen = s.unicode_len();
    match parse_nat(s, i) {
        None => None,
        Some(p) => {
            if p.0 > (tlen - p.1) as u64 {
                None
            } else {
                let nn = p.0 as usize;
                let sub = s.substring_char(p.1, p.1 + nn);
                Some((String::from_str(sub), p.1 + nn))
            }
        },
    }
}

fn parse_str_items(s: &str, i: usize, count: u64) -> (r: Option<(Vec<String>, usize)>)
    requires
        i <= s@.len(),
    ensures
        match r {
            Some(p) => spec_parse_str_items(s@, i as int, count as nat) == Some(
                (p.0.deep_view(), p.1 as int),
            ) && p.1 <= s@.len(),
            None => spec_parse_str_items(s@, i as int, count as nat) is None,
        },
    decreases count,
{
    if count == 0 {
        let empty: Vec<String> = Vec::new();
        proof {
            assert(empty.deep_view() =~= Seq::<Seq<char>>::empty());
        }
        return Some((empty, i));
    }
    match parse_str(s, i) {
        None => None,
        Some((x, j)) => {
            match parse_str_items(s, j, count - 1) {
                None => None,
                Some((rest, e)) => {
                    let ghost old_dv = rest.deep_view();
                    let mut rest = rest;
                    rest.insert(0, x);
                    proof {
                        assert(rest.deep_view() =~= seq![x@] + old_dv);
                    }
                    Some((rest, e))
                },
            }
        },
    }
}

fn parse_str_list(s: &str, i: usize) -> (r: Option<(Vec<String>, usize)>)
    requires
        i <= s@.len(),
    ensures
        match r {
            Some(p) => spec_parse_str_list(s@, i as int) == Some((p.0.deep_view(), p.1 as int))
                && p.1 <= s@.len(),
            None => spec_parse_str_list(s@, i as int) is None,
        },
{
    match parse_nat(s, i) {
        None => None,
        Some(p) => parse_str_items(s, p.1, p.0),
    }
}

fn parse_group_items(s: &str, i: usize, count: u64) -> (r: Option<(Vec<Vec<String>>, usize)>)
    requires
        i <= s@.len(),
    ensures
        match r {
            Some(p) => spec_parse_group_items(s@, i as int, count as nat) == Some(
                (p.0.deep_view(), p.1 as int),
            ) && p.1 <= s@.len(),
            None => spec_parse_group_items(s@, i as int, count as nat) is None,
        },
    decreases count,
{
    if count == 0 {
        let empty: Vec<Vec<String>> = Vec::new();
        proof {
            assert(empty.deep_view() =~= Seq::<Seq<Seq<char>>>::empty());
        }
        return Some((empty, i));
    }
    match parse_str_list(s, i) {
        None => None,
        Some((x, j)) => {
            match parse_group_items(s, j, count - 1) {
                None => None,
                Some((rest, e)) => {
                    let ghost old_dv = rest.deep_view();
                    let ghost xv = x.deep_view();
                    let mut rest = rest;
                    rest.insert(0, x);
                    proof {
                        assert(rest.deep_view() =~= seq![xv] + old_dv);
                    }
                    Some((rest, e))
                },
            }
        },
    }
}

fn parse_group_list(s: &str, i: usize) -> (r: Option<(Vec<Vec<String>>, usize)>)
    requires
        i <= s@.len(),
    ensures
        match r {
            Some(p) => spec_parse_group_list(s@, i as int) == Some((p.0.deep_view(), p.1 as int))
                && p.1 <= s@.len(),
            None => spec_parse_group_list(s@, i as int) is None,
        },
{
    match parse_nat(s, i) {
        None => None,
        Some(p) => parse_group_items(s, p.1, p.0),
    }
}

fn parse_bool(s: &str, i: usize) -> (r: Option<(bool, usize)>)
    requires
        i <= s@.len(),
    ensures
        match r {
            Some(p) => spec_parse_bool(s@, i as int) == Some((p.0, p.1 as int)) && p.1 <= s@.len(),
            None => spec_parse_bool(s@, i as int) is None,
        },
{
    match parse_nat(s, i) {
        None => None,
        Some(p) => {
            if p.0 == 0 {
                Some((false, p.1))
            } else if p.0 == 1 {
                Some((true, p.1))
            } else {
                None
            }
        },
    }
}

fn parse_lang(s: &str, i: usize) -> (r: Option<((String, LanguageDefinition), usize)>)
    requires
        i <= s@.len(),
    ensures
        match r {
            Some(p) => spec_parse_lang(s@, i as int) == Some(
                ((p.0.0@, p.0.1@), p.1 as int),
            ) && p.1 <= s@.len(),
            None => spec_parse_lang(s@, i as int) is None,
        },
{
    let (name, i1) = match parse_str(s, i) {
        None => {
            return None;
        },
        Some(p) => p,
    };
    let (lc, i2) = match parse_str_list(s, i1) {
        None => {
            return None;
        },
        Some(p) => p,
    };
    let (ex, i3) = match parse_str_list(s, i2) {
        None => {
            return None;
        },
        Some(p) => p,
    };
    let (ne, i4) = match parse_bool(s, i3) {
        None => {
            return None;
        },
        Some(p) => p,
    };
    let (qu, i5) = match parse_group_list(s, i4) {
        None => {
            return None;
        },
        Some(p) => p,
    };
    let (ml, i6) = match parse_group_list(s, i5) {
        None => {
            return None;
        },
        Some(p) => p,
    };
    let def = LanguageDefinition {
        line_comments: lc,
        extensions: ex,
        nested: ne,
        quotes: qu,
        multi_line: ml,
        other: Vec::new(),
    };
    Some(((name, def), i6))
}

fn parse_lang_items(s: &str, i: usize, count: u64) -> (r: Option<
    (Vec<(String, LanguageDefinition)>, usize),
>)
    requires
        i <= s@.len(),
    ensures
        match r {
            Some(p) => spec_parse_lang_items(s@, i as int, count as nat) == Some(
                (table_view(p.0@), p.1 as int),
            ) && p.1 <= s@.len(),
            None => spec_parse_lang_items(s@, i as int, count as nat) is None,
        },
    decreases count,
{
    if count == 0 {
        let empty: Vec<(String, LanguageDefinition)> = Vec::new();
        proof {
            assert(table_view(empty@) =~= Seq::<(Seq<char>, LangDefView)>::empty());
        }
        return Some((empty, i));
    }
    match parse_lang(s, i) {
        None => None,
        Some((x, j)) => {
            match parse_lang_items(s, j, count - 1) {
                None => None,
                Some((rest, e)) => {
                    let ghost old_tv = table_view(rest@);
                    let ghost xv = (x.0@, x.1@);
                    let mut rest = rest;
                    rest.insert(0, x);
                    proof {
                        assert(table_view(rest@) =~= seq![xv] + old_tv);
                    }
                    Some((rest, e))
                },
            }
        },
    }
}

/// Reads the metadata artifact back into a language table; nothing when the
/// text is not exactly one rendered table.
pub fn parse_table(s: &str) -> (r: Option<Vec<(String, LanguageDefinition)>>)
    ensures
        match r {
            Some(v) => spec_parse_table(s@) == Some(table_view(v@)),
            None => spec_parse_table(s@) is None,
        },
{
    let tlen = s.unicode_len();
    match parse_nat(s, 0) {
        None => None,
        Some(p) => {
            match parse_lang_items(s, p.1, p.0) {
                None => None,
                Some((v, e)) => {
                    if e == tlen {
                        Some(v)
                    } else {
                        None
                    }
                },
            }
        },
    }
}

/// Round-trip: re-parsing the rendered metadata artifact yields the table it
/// was rendered from — in particular, every language's delimiter group order
/// is read back exactly as it was written.
pub proof fn lemma_metadata_round_trip(t: Seq<(Seq<char>, LangDefView)>)
    requires
        table_ok(t),
    ensures
        spec_parse_table(enc_table(t)) == Some(t),
{
    let s = enc_table(t);
    assert(s.subrange(0, s.len() as int) =~= s);
    lemma_split_subrange(s, 0, enc_nat(t.len()), enc_lang_items(t));
    lemma_parse_nat_enc(s, 0, t.len());
    lemma_parse_lang_items_enc(s, enc_nat(t.len()).len() as int, t);
}

} // verus!
