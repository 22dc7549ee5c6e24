//! Trusted view of a parsed markup document.
//!
//! The document tree itself is built and queried by the `scraper` crate;
//! Verus sees it as an opaque value.  Its mathematical model is the
//! markup text it was parsed from (a byte sequence), and elements are
//! identified by their index in the pre-order walk of the element nodes
//! under the root element (the root element itself has index 0).  What
//! the outside crate computes from the tree — text content, outer
//! markup, attribute values — is named by uninterpreted spec functions
//! over that model.
//!
//! Every document handled here comes from [`parse_document`]; document
//! parsing always yields a root element, so the wrappers' walk from the
//! root element is defined for every document the library holds.

use vstd::prelude::*;

verus! {

#[verifier::external_type_specification]
#[verifier::external_body]
pub struct ExHtml(scraper::Html);

/// The markup text that `doc` was parsed from.
pub uninterp spec fn dom_of(doc: scraper::Html) -> Seq<u8>;

/// The pre-order element index of the root element of the document
/// parsed from `dom`.
pub uninterp spec fn root_of(dom: Seq<u8>) -> int;

/// The concatenated text content (all text-node descendants, in
/// document order, no separator) of element `el` of the document parsed
/// from `dom`; empty when no such element exists.
pub uninterp spec fn text_content(dom: Seq<u8>, el: int) -> Seq<u8>;

/// The outer markup serialization of element `el` of the document
/// parsed from `dom`; empty when no such element exists.
pub uninterp spec fn outer_markup(dom: Seq<u8>, el: int) -> Seq<u8>;

/// The value of attribute `name` on element `el` of the document parsed
/// from `dom`; `None` when the element or the attribute is missing.
pub uninterp spec fn attr_value(dom: Seq<u8>, el: int, name: Seq<u8>) -> Option<Seq<u8>>;

/// The byte sequences held by an optional byte vector.
pub open spec fn opt_bytes(o: Option<Vec<u8>>) -> Option<Seq<u8>> {
    match o {
        Some(v) => Some(v@),
        None => None,
    }
}

/// Relies on `scraper::Html::parse_document`: parsing is deterministic
/// in the markup text, so the parsed tree is modeled by that text.
/// Bytes that are not valid UTF-8 are substituted before parsing.
#[verifier::external_body]
pub(crate) fn parse_document(contents: &[u8]) -> (doc: scraper::Html)
    ensures
        dom_of(doc) == contents@,
{
    let text = String::from_utf8_lossy(contents);
    scraper::Html::parse_document(&text)
}

/// Relies on `scraper::Html::root_element`: the returned element is a
/// fixed function of the parsed tree.
#[verifier::external_body]
pub(crate) fn root_element(doc: &scraper::Html) -> (el: usize)
    ensures
        el as int == root_of(dom_of(*doc)),
{
    let root = doc.root_element();
    let pos = doc.root_element().descendants().filter_map(scraper::ElementRef::wrap).position(
        |e: scraper::ElementRef| e.id() == root.id(),
    );
    pos.unwrap_or(0)
}

/// Relies on `scraper::ElementRef::text`: the concatenation of the
/// element's text-node descendants depends on the tree alone.
#[verifier::external_body]
pub(crate) fn text_of(doc: &scraper::Html, el: usize) -> (r: Vec<u8>)
    ensures
        r@ == text_content(dom_of(*doc), el as int),
{
    match doc.root_element().descendants().filter_map(scraper::ElementRef::wrap).nth(el) {
        Some(e) => e.text().collect::<String>().into_bytes(),
        None => Vec::new(),
    }
}

/// Relies on `scraper::ElementRef::html`: the element's outer markup
/// serialization depends on the tree alone.
#[verifier::external_body]
pub(crate) fn outer_html(doc: &scraper::Html, el: usize) -> (r: Vec<u8>)
    ensures
        r@ == outer_markup(dom_of(*doc), el as int),
{
    match doc.root_element().descendants().filter_map(scraper::ElementRef::wrap).nth(el) {
        Some(e) => e.html().into_bytes(),
        None => Vec::new(),
    }
}

/// Relies on `scraper::ElementRef::attr`: an attribute lookup depends
/// on the tree alone.  An attribute name that is not valid UTF-8 names
/// no attribute.
#[verifier::external_body]
pub(crate) fn attr_of(doc: &scraper::Html, el: usize, name: &[u8]) -> (r: Option<Vec<u8>>)
    ensures
        opt_bytes(r) == attr_value(dom_of(*doc), el as int, name@),
{
    match doc.root_element().descendants().filter_map(scraper::ElementRef::wrap).nth(el) {
        Some(e) => match std::str::from_utf8(name) {
            Ok(n) => e.attr(n).map(|v: &str| v.as_bytes().to_vec()),
            Err(_) => None,
        },
        None => None,
    }
}

} // verus!
