//! Compiled structural selector patterns and regex patterns.
//!
//! Compilation and matching are delegated to the `scraper` and `regex`
//! crates.  A compiled pattern carries the source text it was compiled
//! from; contracts speak of that source, and what matching computes is
//! named by uninterpreted spec functions over it.

use vstd::prelude::*;
use crate::dom::dom_of;

verus! {

#[verifier::external_type_specification]
#[verifier::external_body]
pub struct ExSelector(scraper::Selector);

#[verifier::external_type_specification]
#[verifier::external_body]
pub struct ExRegex(regex::bytes::Regex);

/// Whether `src` is accepted by the structural-selector compiler.
pub uninterp spec fn selector_ok(src: Seq<u8>) -> bool;

/// The pre-order element indices, in document order, of the descendants
/// of element `el` (itself excluded) of the document parsed from `dom`
/// that match the structural selector compiled from `sel`; empty when
/// no element `el` exists.
pub uninterp spec fn css_matches(dom: Seq<u8>, el: int, sel: Seq<u8>) -> Seq<int>;

/// Whether `src` is accepted by the regex compiler.
pub uninterp spec fn regex_ok(src: Seq<u8>) -> bool;

/// Whether the regex compiled from `pattern` matches somewhere in
/// `text`.
pub uninterp spec fn regex_match(pattern: Seq<u8>, text: Seq<u8>) -> bool;

/// A compiled structural selector together with its source text.
///
/// The only constructor is [`CssPattern::parse`], so the compiled
/// selector always corresponds to the stored source.
pub struct CssPattern {
    source: Vec<u8>,
    compiled: scraper::Selector,
}

impl View for CssPattern {
    type V = Seq<u8>;

    closed spec fn view(&self) -> Seq<u8> {
        self.source@
    }
}

impl CssPattern {
    /// Relies on `scraper::Selector::parse`: whether a selector source
    /// compiles depends on that source alone.  Source bytes that are
    /// not valid UTF-8 are rejected.
    #[verifier::external_body]
    pub fn parse(src: &[u8]) -> (r: Option<CssPattern>)
        ensures
            r is Some <==> selector_ok(src@),
            r is Some ==> r.unwrap()@ == src@,
    {
        match std::str::from_utf8(src).ok().and_then(|s| scraper::Selector::parse(s).ok()) {
            Some(sel) => Some(CssPattern { source: src.to_vec(), compiled: sel }),
            None => None,
        }
    }

    /// Relies on `scraper::ElementRef::select`: the matched descendants
    /// and their document order depend on the tree, the base element
    /// and the selector alone.
    #[verifier::external_body]
    pub fn select_within(&self, doc: &scraper::Html, el: usize) -> (r: Vec<usize>)
        ensures
            r@.len() == css_matches(dom_of(*doc), el as int, self@).len(),
            forall|k: int|
                0 <= k < r@.len() ==> r@[k] as int == css_matches(dom_of(*doc), el as int, self@)[k],
    {
        let elems: Vec<scraper::ElementRef> = doc.root_element().descendants().filter_map(
            scraper::ElementRef::wrap,
        ).collect();
        match elems.get(el) {
            Some(base) => base.select(&self.compiled).filter_map(
                |m: scraper::ElementRef| elems.iter().position(|e| e.id() == m.id()),
            ).collect(),
            None => Vec::new(),
        }
    }
}

/// A compiled regex together with its source text.
///
/// The only constructor is [`RegexPattern::parse`], so the compiled
/// regex always corresponds to the stored source.
pub struct RegexPattern {
    source: Vec<u8>,
    compiled: regex::bytes::Regex,
}

impl View for RegexPattern {
    type V = Seq<u8>;

    closed spec fn view(&self) -> Seq<u8> {
        self.source@
    }
}

impl RegexPattern {
    /// Relies on `regex::bytes::Regex::new`: whether a regex source
    /// compiles depends on that source alone.  Source bytes that are
    /// not valid UTF-8 are rejected.
    #[verifier::external_body]
    pub fn parse(src: &[u8]) -> (r: Option<RegexPattern>)
        ensures
            r is Some <==> regex_ok(src@),
            r is Some ==> r.unwrap()@ == src@,
    {
        match std::str::from_utf8(src).ok().and_then(|s| regex::bytes::Regex::new(s).ok()) {
            Some(re) => Some(RegexPattern { source: src.to_vec(), compiled: re }),
            None => None,
        }
    }

    /// Relies on `regex::bytes::Regex::is_match`: whether a regex
    /// matches depends on the pattern and the haystack alone.
    #[verifier::external_body]
    pub fn is_match(&self, text: &[u8]) -> (r: bool)
        ensures
            r == regex_match(self@, text@),
    {
        self.compiled.is_match(text)
    }
}

} // verus!
