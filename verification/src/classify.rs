//! Site classification: a fixed, ordered list of structural marker
//! groups decides whether the rendered page belongs to a supported
//! documentation framework. The first group with a match wins; if none
//! matches, the site is unsupported and the run aborts before any link
//! collection or rendering.

use vstd::prelude::*;

use crate::chartext::{seq_contains, str_contains};
use crate::dom::{
    dom_body_class, dom_has_match, dom_script_texts, query_body_class, query_has_match,
    query_script_texts,
};

verus! {

/// The body carries a theme class-name convention.
pub open spec fn spec_theme_class(d: scraper::Html) -> bool {
    match dom_body_class(d) {
        Some(c) => seq_contains(c, "theme-"@),
        None => false,
    }
}

/// Some script's text names the second framework.
pub open spec fn spec_script_marker(d: scraper::Html) -> bool {
    exists|i: int|
        0 <= i < dom_script_texts(d).len() && (seq_contains(
            #[trigger] dom_script_texts(d)[i],
            "docusaurus"@,
        ) || seq_contains(dom_script_texts(d)[i], "__DOCUSAURUS__"@))
}

/// The classifier's marker groups, in evaluation order: the first
/// framework's root container and navigation landmarks, the theme
/// class convention, the second framework's containers, and the script
/// content marker.
pub open spec fn spec_supported(d: scraper::Html) -> bool {
    ||| dom_has_match(d, "body > .gitbook-root"@)
    ||| dom_has_match(d, "body > div.scroll-nojump"@)
    ||| dom_has_match(d, "nav[role=\"navigation\"]"@)
    ||| dom_has_match(d, "a[href*=\"gitbook.io\"]"@)
    ||| spec_theme_class(d)
    ||| dom_has_match(d, "div#__docusaurus"@)
    ||| dom_has_match(d, "div.docusaurus-root"@)
    ||| dom_has_match(d, "nav.navbar--fixed-top"@)
    ||| dom_has_match(d, "div.navbar__logo"@)
    ||| dom_has_match(d, "script[src*=\"docusaurus\"]"@)
    ||| spec_script_marker(d)
}

/// Decide whether the rendered page is a supported documentation site.
pub fn is_supported_documentation_site(doc: &scraper::Html) -> (r: bool)
    ensures
        r == spec_supported(*doc),
{
    if query_has_match(doc, "body > .gitbook-root") {
        return true;
    }
    if query_has_match(doc, "body > div.scroll-nojump") {
        return true;
    }
    if query_has_match(doc, "nav[role=\"navigation\"]") {
        return true;
    }
    if query_has_match(doc, "a[href*=\"gitbook.io\"]") {
        return true;
    }
    let body_class = query_body_class(doc);
    match body_class {
        Some(c) => {
            if str_contains(c.as_str(), "theme-") {
                return true;
            }
        },
        None => {},
    }
    if query_has_match(doc, "div#__docusaurus") {
        return true;
    }
    if query_has_match(doc, "div.docusaurus-root") {
        return true;
    }
    if query_has_match(doc, "nav.navbar--fixed-top") {
        return true;
    }
    if query_has_match(doc, "div.navbar__logo") {
        return true;
    }
    if query_has_match(doc, "script[src*=\"docusaurus\"]") {
        return true;
    }
    let texts = query_script_texts(doc);
    let n: usize = texts.len();
    let mut i: usize = 0;
    while i < n
        invariant
            i <= n,
            n == texts@.len(),
            texts.deep_view() == dom_script_texts(*doc),
            texts.deep_view().len() == texts@.len(),
            forall|k: int|
                0 <= k < i ==> !seq_contains(#[trigger] dom_script_texts(*doc)[k], "docusaurus"@)
                    && !seq_contains(dom_script_texts(*doc)[k], "__DOCUSAURUS__"@),
        decreases n - i,
    {
        let t = &texts[i];
        proof {
            assert(texts.deep_view()[i as int] == texts@[i as int]@);
        }
        if str_contains(t.as_str(), "docusaurus") {
            return true;
        }
        if str_contains(t.as_str(), "__DOCUSAURUS__") {
            return true;
        }
        i = i + 1;
    }
    assert(!spec_script_marker(*doc));
    false
}

} // verus!
