//! Trusted view of a parsed page. The `scraper` crate parses HTML and
//! answers CSS-selector queries; each query's result is named as a
//! function of the document and the selector, and every contract about
//! classification and link collection is stated over those names. A
//! selector that does not parse matches nothing.

use vstd::prelude::*;

verus! {

#[verifier::external_type_specification]
#[verifier::external_body]
pub struct ExHtml(scraper::Html);

/// Whether any element of the document matches the CSS selector.
pub uninterp spec fn dom_has_match(d: scraper::Html, sel: Seq<char>) -> bool;

/// The `href` attribute of each element matching the selector, in
/// document order; an element without the attribute contributes
/// `None`.
pub uninterp spec fn dom_hrefs(d: scraper::Html, sel: Seq<char>) -> Seq<Option<Seq<char>>>;

/// The `class` attribute of the document's `body` element, if the
/// document has a body with that attribute.
pub uninterp spec fn dom_body_class(d: scraper::Html) -> Option<Seq<char>>;

/// The text contents of the document's `script` elements, in document
/// order.
pub uninterp spec fn dom_script_texts(d: scraper::Html) -> Seq<Seq<char>>;

/// Relies on `scraper::Selector::parse` and `scraper::Html::select`:
/// whether the selector matches some element of the document, a
/// function of the parsed document and the selector text alone.
#[verifier::external_body]
pub fn query_has_match(doc: &scraper::Html, sel: &str) -> (r: bool)
    ensures
        r == dom_has_match(*doc, sel@),
{
    match scraper::Selector::parse(sel) {
        Ok(s) => doc.select(&s).next().is_some(),
        Err(_) => false,
    }
}

/// Relies on `scraper::Html::select` and `scraper::ElementRef::attr`:
/// the `href` attributes of the matched elements, in document order.
#[verifier::external_body]
pub fn query_hrefs(doc: &scraper::Html, sel: &str) -> (r: Vec<Option<String>>)
    ensures
        r.deep_view() == dom_hrefs(*doc, sel@),
{
    match scraper::Selector::parse(sel) {
        Ok(s) => doc.select(&s).map(|el| el.attr("href").map(|h| h.to_string())).collect(),
        Err(_) => Vec::new(),
    }
}

/// Relies on `scraper::Html::select` and `scraper::ElementRef::attr`:
/// the `class` attribute of the body element.
#[verifier::external_body]
pub fn query_body_class(doc: &scraper::Html) -> (r: Option<String>)
    ensures
        r.deep_view() == dom_body_class(*doc),
{
    match scraper::Selector::parse("body") {
        Ok(s) => doc.select(&s).next().and_then(|el| el.attr("class")).map(|c| c.to_string()),
        Err(_) => None,
    }
}

/// Relies on `scraper::Html::select` and `scraper::ElementRef::text`:
/// the text of each script element, in document order.
#[verifier::external_body]
pub fn query_script_texts(doc: &scraper::Html) -> (r: Vec<String>)
    ensures
        r.deep_view() == dom_script_texts(*doc),
{
    match scraper::Selector::parse("script") {
        Ok(s) => doc.select(&s).map(|el| el.text().collect::<String>()).collect(),
        Err(_) => Vec::new(),
    }
}

} // verus!
