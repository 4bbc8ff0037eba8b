use vstd::prelude::*;

use vstd::multiset::Multiset;

use crate::language::{
    group_max_len, groups_sorted, DelimiterGroup, LanguageDefinition,
};

verus! {

broadcast use vstd::seq_lib::group_to_multiset_ensures;

/// Largest marker length within one group, counted in characters.
pub fn max_group_len(g: &DelimiterGroup) -> (r: usize)
    ensures
        r == group_max_len(g.deep_view()),
{
    let ghost dv = g.deep_view();
    let mut m: usize = 0;
    let mut k: usize = 0;
    while k < g.len()
        invariant
            0 <= k <= g@.len(),
            dv == g.deep_view(),
            m == group_max_len(dv.take(k as int)),
        decreases g@.len() - k,
    {
        let l = g[k].as_str().unicode_len();
        if l > m {
            m = l;
        }
        proof {
            assert(dv.take(k + 1).drop_last() =~= dv.take(k as int));
            assert(dv.take(k + 1).last() == g@[k as int]@);
        }
        k += 1;
    }
    proof {
        assert(dv.take(g@.len() as int) =~= dv);
    }
    m
}

/// Reorders delimiter groups into descending order of maximum marker length.
/// The result is a permutation of the input: the multiset of groups, by
/// content, is unchanged, so no group is duplicated or dropped.  The order of
/// groups whose maximum lengths tie is left unspecified.
pub fn sort_groups(groups: Vec<DelimiterGroup>) -> (r: Vec<DelimiterGroup>)
    ensures
        groups_sorted(r.deep_view()),
        r.deep_view().to_multiset() == groups.deep_view().to_multiset(),
        r@.len() == groups@.len(),
{
    let ghost gdv = groups.deep_view();
    let mut rest = groups;
    let mut out: Vec<DelimiterGroup> = Vec::new();
    while rest.len() > 0
        invariant
            out.deep_view().to_multiset().add(rest.deep_view().to_multiset())
                == gdv.to_multiset(),
            groups_sorted(out.deep_view()),
            forall|i: int, j: int|
                0 <= i < out.deep_view().len() && 0 <= j < rest.deep_view().len()
                    ==> group_max_len(#[trigger] out.deep_view()[i])
                        >= group_max_len(#[trigger] rest.deep_view()[j]),
            out@.len() + rest@.len() == gdv.len(),
        decreases rest@.len(),
    {
        let ghost old_out = out.deep_view();
        let ghost old_rest = rest.deep_view();

        // index of the first group of maximum length among the remaining ones
        let mut m: usize = 0;
        let mut mlen: usize = max_group_len(&rest[0]);
        let mut k: usize = 1;
        while k < rest.len()
            invariant
                1 <= k <= rest@.len(),
                (m as int) < (k as int),
                old_rest == rest.deep_view(),
                mlen == group_max_len(old_rest[m as int]),
                forall|j: int| 0 <= j < k ==> mlen >= group_max_len(#[trigger] old_rest[j]),
            decreases rest@.len() - k,
        {
            let l = max_group_len(&rest[k]);
            if l > mlen {
                m = k;
                mlen = l;
            }
            k += 1;
        }

        let g = rest.remove(m);
        out.push(g);

        proof {
            let gv = old_rest[m as int];
            assert(rest.deep_view() =~= old_rest.remove(m as int));
            assert(out.deep_view() =~= old_out.push(gv));
            assert(old_rest.to_multiset().count(gv) > 0) by {
                assert(old_rest[m as int] == gv);
                assert(old_rest.contains(gv));
            }
            assert(out.deep_view().to_multiset().add(rest.deep_view().to_multiset())
                =~= gdv.to_multiset()) by {
                assert(out.deep_view().to_multiset() =~= old_out.to_multiset().insert(gv));
                assert(rest.deep_view().to_multiset() =~= old_rest.to_multiset().remove(gv));
            }
            assert forall|i: int|
                0 <= i < out.deep_view().len()
                implies group_max_len(out.deep_view()[i]) >= mlen by {
                if i < old_out.len() {
                    assert(out.deep_view()[i] == old_out[i]);
                }
            }
            assert forall|i: int, j: int|
                0 <= i < out.deep_view().len() && 0 <= j < rest.deep_view().len()
                implies group_max_len(out.deep_view()[i])
                    >= group_max_len(rest.deep_view()[j]) by {
                old_rest.remove_ensures(m as int);
                assert(rest.deep_view()[j] == old_rest[if j < m as int { j } else { j + 1 }]);
            }
        }
    }
    proof {
        assert(rest.deep_view().to_multiset() =~= Multiset::<Seq<Seq<char>>>::empty()) by {
            assert(rest.deep_view() =~= Seq::<Seq<Seq<char>>>::empty());
        }
        assert(out.deep_view().to_multiset() =~= gdv.to_multiset());
        assert(out.deep_view().to_multiset().len() == gdv.to_multiset().len());
    }
    out
}

/// Sorts one language's `quotes` and `multi_line` delimiter sequences into
/// longest-match order; every other attribute passes through unchanged.
/// A pure transformation: it consumes its input and never fails.
pub fn sort_language(def: LanguageDefinition) -> (r: LanguageDefinition)
    ensures
        r.sorted(),
        r@.quotes.to_multiset() == def@.quotes.to_multiset(),
        r@.multi_line.to_multiset() == def@.multi_line.to_multiset(),
        r@.quotes.len() == def@.quotes.len(),
        r@.multi_line.len() == def@.multi_line.len(),
        r@.line_comments == def@.line_comments,
        r@.extensions == def@.extensions,
        r@.nested == def@.nested,
        r.other == def.other,
{
    let LanguageDefinition { line_comments, extensions, nested, quotes, multi_line, other } = def;
    LanguageDefinition {
        line_comments,
        extensions,
        nested,
        quotes: sort_groups(quotes),
        multi_line: sort_groups(multi_line),
        other,
    }
}

/// Sorts every language of a corpus into longest-match order.  Each entry
/// keeps its identifier and place; each definition's delimiter sequences are
/// permuted into descending maximum-length order and its other attributes
/// stand unchanged.
pub fn sort_corpus(t: Vec<(String, LanguageDefinition)>) -> (r: Vec<
    (String, LanguageDefinition),
>)
    ensures
        r@.len() == t@.len(),
        forall|i: int|
            0 <= i < r@.len() ==> {
                &&& (#[trigger] r@[i]).0 == t@[i].0
                &&& r@[i].1.sorted()
                &&& r@[i].1@.quotes.to_multiset() == t@[i].1@.quotes.to_multiset()
                &&& r@[i].1@.multi_line.to_multiset() == t@[i].1@.multi_line.to_multiset()
                &&& r@[i].1@.line_comments == t@[i].1@.line_comments
                &&& r@[i].1@.extensions == t@[i].1@.extensions
                &&& r@[i].1@.nested == t@[i].1@.nested
                &&& r@[i].1.other == t@[i].1.other
            },
{
    let ghost orig = t@;
    let mut rest = t;
    let mut out: Vec<(String, LanguageDefinition)> = Vec::new();
    while rest.len() > 0
        invariant
            out@.len() + rest@.len() == orig.len(),
            forall|i: int| 0 <= i < rest@.len() ==> #[trigger] rest@[i] == orig[out@.len() + i],
            forall|i: int|
                0 <= i < out@.len() ==> {
                    &&& (#[trigger] out@[i]).0 == orig[i].0
                    &&& out@[i].1.sorted()
                    &&& out@[i].1@.quotes.to_multiset() == orig[i].1@.quotes.to_multiset()
                    &&& out@[i].1@.multi_line.to_multiset() == orig[i].1@.multi_line.to_multiset()
                    &&& out@[i].1@.line_comments == orig[i].1@.line_comments
                    &&& out@[i].1@.extensions == orig[i].1@.extensions
                    &&& out@[i].1@.nested == orig[i].1@.nested
                    &&& out@[i].1.other == orig[i].1.other
                },
        decreases rest@.len(),
    {
        let (name, def) = rest.remove(0);
        let sorted = sort_language(def);
        out.push((name, sorted));
    }
    out
}

/// A permutation of well-formed delimiter groups is well formed: since the
/// multiset of groups is unchanged, no empty group can appear.
pub proof fn lemma_permutation_preserves_wf(a: Seq<Seq<Seq<char>>>, b: Seq<Seq<Seq<char>>>)
    requires
        crate::language::groups_wf(a),
        a.to_multiset() == b.to_multiset(),
    ensures
        crate::language::groups_wf(b),
{
    assert forall|i: int| 0 <= i < b.len() implies #[trigger] b[i].len() > 0 by {
        assert(b.contains(b[i]));
        assert(b.to_multiset().count(b[i]) > 0);
        assert(a.contains(b[i]));
        let j = choose|j: int| 0 <= j < a.len() && a[j] == b[i];
        assert(a[j].len() > 0);
    }
}

/// The sort invariant instantiated at adjacent pairs: in a sorted delimiter
/// sequence every group's maximum marker length is at least its successor's.
pub proof fn lemma_sorted_adjacent_pairs(gs: Seq<Seq<Seq<char>>>)
    requires
        groups_sorted(gs),
    ensures
        forall|i: int|
            0 <= i && i + 1 < gs.len()
                ==> group_max_len(#[trigger] gs[i]) >= group_max_len(gs[i + 1]),
{
}

} // verus!
