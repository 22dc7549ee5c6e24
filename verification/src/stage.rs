//! One link of the pipeline: a traversal direction plus structural,
//! substring and regex matching criteria.

use vstd::prelude::*;
use crate::dom;
use crate::pattern::{CssPattern, RegexPattern, regex_match};
use crate::text::contains_sub;

verus! {

/// Whether a stage's recursion continues from the matched element
/// (`Current`) or keeps the element it was applied to, using the stage
/// purely as an existence test (`Document`).
#[derive(Clone, Copy)]
pub enum Direction {
    Document,
    Current,
}

/// The models of a list of byte vectors.
pub open spec fn bytes_views(s: Seq<Vec<u8>>) -> Seq<Seq<u8>> {
    s.map_values(|v: Vec<u8>| v@)
}

/// The models of a list of compiled structural selectors.
pub open spec fn patterns_view(s: Seq<CssPattern>) -> Seq<Seq<u8>> {
    s.map_values(|p: CssPattern| p@)
}

/// The models of a list of compiled regexes.
pub open spec fn regexes_view(s: Seq<RegexPattern>) -> Seq<Seq<u8>> {
    s.map_values(|r: RegexPattern| r@)
}

/// One link of the pipeline.
pub struct Stage {
    pub direction: Direction,
    pub patterns: Vec<CssPattern>,
    pub substrings: Vec<Vec<u8>>,
    pub regexes: Vec<RegexPattern>,
}

/// The mathematical model of a [`Stage`]: each pattern stands as its
/// source text.
pub ghost struct StageView {
    pub direction: Direction,
    pub patterns: Seq<Seq<u8>>,
    pub substrings: Seq<Seq<u8>>,
    pub regexes: Seq<Seq<u8>>,
}

impl View for Stage {
    type V = StageView;

    open spec fn view(&self) -> StageView {
        StageView {
            direction: self.direction,
            patterns: patterns_view(self.patterns@),
            substrings: bytes_views(self.substrings@),
            regexes: regexes_view(self.regexes@),
        }
    }
}

/// The model of a whole pipeline.
pub open spec fn pipeline_view(stages: Seq<Stage>) -> Seq<StageView> {
    stages.map_values(|st: Stage| st@)
}

/// The filter predicate of a stage, evaluated against the concatenated
/// text content of element `el`: vacuously true when no substring and
/// no regex filter is configured, and otherwise true when any regex or
/// any substring matches that text.
pub open spec fn filter_passes(dom: Seq<u8>, el: int, st: StageView) -> bool {
    let text = dom::text_content(dom, el);
    ||| st.substrings.len() == 0 && st.regexes.len() == 0
    ||| exists|k: int| 0 <= k < st.regexes.len() && regex_match(st.regexes[k], text)
    ||| exists|k: int| 0 <= k < st.substrings.len() && contains_sub(text, st.substrings[k])
}

/// Whether the text content of element `el` satisfies the stage's
/// substring/regex criteria.
pub fn fragment_matches_search(doc: &scraper::Html, el: usize, stage: &Stage) -> (r: bool)
    ensures
        r == filter_passes(dom::dom_of(*doc), el as int, stage@),
{
    if stage.substrings.len() == 0 && stage.regexes.len() == 0 {
        return true;
    }
    let text = dom::text_of(doc, el);
    let mut k: usize = 0;
    while k < stage.regexes.len()
        invariant
            text@ == dom::text_content(dom::dom_of(*doc), el as int),
            forall|j: int| 0 <= j < k ==> !regex_match(stage@.regexes[j], text@),
        decreases stage.regexes.len() - k,
    {
        if stage.regexes[k].is_match(text.as_slice()) {
            assert(regex_match(stage@.regexes[k as int], text@));
            return true;
        }
        k += 1;
    }
    let mut k: usize = 0;
    while k < stage.substrings.len()
        invariant
            text@ == dom::text_content(dom::dom_of(*doc), el as int),
            forall|j: int| 0 <= j < k ==> !contains_sub(text@, stage@.substrings[j]),
        decreases stage.substrings.len() - k,
    {
        if crate::text::contains_subslice(text.as_slice(), stage.substrings[k].as_slice()) {
            assert(contains_sub(text@, stage@.substrings[k as int]));
            return true;
        }
        k += 1;
    }
    false
}

} // verus!
