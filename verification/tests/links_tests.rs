use book2pdf::links::{accepts_href, collect_links};
use scraper::Html;

#[test]
fn acceptance_rule() {
    assert!(accepts_href("/intro"));
    assert!(accepts_href("/guide/setup"));
    assert!(!accepts_href("intro"));
    assert!(!accepts_href("/guide/setup#section"));
    assert!(!accepts_href("/assets/logo.png"));
    assert!(!accepts_href(""));
    assert!(!accepts_href("https://example.com/intro"));
}

#[test]
fn duplicates_and_fragments_are_dropped() {
    let html = Html::parse_document(
        "<html><body><nav class=\"navbar\">\
         <a href=\"/intro\">Intro</a>\
         <a href=\"/intro\">Intro again</a>\
         <a href=\"/guide/setup\">Setup</a>\
         <a href=\"/guide/setup#section\">Section</a>\
         </nav></body></html>",
    );
    let links = collect_links(&html);
    assert_eq!(links, vec!["/intro".to_string(), "/guide/setup".to_string()]);
}

#[test]
fn priority_groups_come_before_fallback() {
    let html = Html::parse_document(
        "<html><body>\
         <div><a href=\"/zzz\">Plain</a></div>\
         <nav class=\"navbar\"><a href=\"/aaa\">Nav</a></nav>\
         </body></html>",
    );
    let links = collect_links(&html);
    assert_eq!(links, vec!["/aaa".to_string(), "/zzz".to_string()]);
}

#[test]
fn sidebar_links_keep_document_order() {
    let html = Html::parse_document(
        "<html><body><aside>\
         <a href=\"/one\">1</a>\
         <a href=\"/two\">2</a>\
         <a href=\"/three\">3</a>\
         </aside></body></html>",
    );
    let links = collect_links(&html);
    assert_eq!(
        links,
        vec!["/one".to_string(), "/two".to_string(), "/three".to_string()]
    );
}

#[test]
fn external_and_asset_links_are_ignored() {
    let html = Html::parse_document(
        "<html><body><nav>\
         <a href=\"https://elsewhere.example\">Out</a>\
         <a href=\"/assets/logo.svg\">Logo</a>\
         <a href=\"/kept\">Kept</a>\
         <a>No address</a>\
         </nav></body></html>",
    );
    let links = collect_links(&html);
    assert_eq!(links, vec!["/kept".to_string()]);
}
