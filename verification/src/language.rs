use vstd::prelude::*;

use crate::json::JsonValue;

verus! {

/// One lexical construct's alternative marker strings (for example the two
/// textual forms that open and close one kind of quoted literal).
pub type DelimiterGroup = Vec<String>;

/// The lexical rule set of one language in the corpus.  `quotes` and
/// `multi_line` are the two sequences of delimiter groups that the
/// longest-match ordering invariant applies to; the remaining attributes are
/// descriptive and pass through the sorter unchanged.  `other` carries every
/// corpus attribute the loader does not read, as parsed values, so that
/// nothing of the document is lost on the way to the renderer.
#[derive(Debug)]
pub struct LanguageDefinition {
    pub line_comments: Vec<String>,
    pub extensions: Vec<String>,
    pub nested: bool,
    pub quotes: Vec<DelimiterGroup>,
    pub multi_line: Vec<DelimiterGroup>,
    pub other: Vec<(String, JsonValue)>,
}

/// Mathematical image of a `LanguageDefinition`: every string is a sequence
/// of characters.
pub ghost struct LangDefView {
    pub line_comments: Seq<Seq<char>>,
    pub extensions: Seq<Seq<char>>,
    pub nested: bool,
    pub quotes: Seq<Seq<Seq<char>>>,
    pub multi_line: Seq<Seq<Seq<char>>>,
}

impl View for LanguageDefinition {
    type V = LangDefView;

    open spec fn view(&self) -> LangDefView {
        LangDefView {
            line_comments: self.line_comments.deep_view(),
            extensions: self.extensions.deep_view(),
            nested: self.nested,
            quotes: self.quotes.deep_view(),
            multi_line: self.multi_line.deep_view(),
        }
    }
}

/// Largest marker length within one group, in characters; an empty group has
/// maximum length zero.
pub open spec fn group_max_len(g: Seq<Seq<char>>) -> int
    decreases g.len(),
{
    if g.len() == 0 {
        0
    } else {
        let rest = group_max_len(g.drop_last());
        if g.last().len() > rest {
            g.last().len() as int
        } else {
            rest
        }
    }
}

/// The longest-match ordering invariant: groups stand in descending order of
/// their maximum marker length, so a scanner that tries them in order always
/// reaches a longer delimiter before any shorter one it textually contains.
pub open spec fn groups_sorted(gs: Seq<Seq<Seq<char>>>) -> bool {
    forall|i: int, j: int|
        0 <= i <= j < gs.len() ==> group_max_len(gs[i]) >= group_max_len(gs[j])
}

/// A well-formed definition has only non-empty delimiter groups, as the
/// corpus schema demands.
pub open spec fn groups_wf(gs: Seq<Seq<Seq<char>>>) -> bool {
    forall|i: int| 0 <= i < gs.len() ==> #[trigger] gs[i].len() > 0
}

impl LanguageDefinition {
    /// Both delimiter sequences satisfy the ordering invariant.
    pub open spec fn sorted(&self) -> bool {
        groups_sorted(self@.quotes) && groups_sorted(self@.multi_line)
    }

    /// Both delimiter sequences hold only non-empty groups.
    pub open spec fn wf(&self) -> bool {
        groups_wf(self@.quotes) && groups_wf(self@.multi_line)
    }
}

} // verus!
