use book2pdf::classify::is_supported_documentation_site;
use scraper::Html;

#[test]
fn docusaurus_container_is_supported() {
    let html = Html::parse_document(
        "<html><body><div id=\"__docusaurus\"><p>docs</p></div></body></html>",
    );
    assert!(is_supported_documentation_site(&html));
}

#[test]
fn gitbook_navigation_landmark_is_supported() {
    let html = Html::parse_document(
        "<html><body><nav role=\"navigation\"><a href=\"/x\">x</a></nav></body></html>",
    );
    assert!(is_supported_documentation_site(&html));
}

#[test]
fn gitbook_host_link_is_supported() {
    let html = Html::parse_document(
        "<html><body><a href=\"https://docs.gitbook.io/page\">p</a></body></html>",
    );
    assert!(is_supported_documentation_site(&html));
}

#[test]
fn theme_class_is_supported() {
    let html = Html::parse_document(
        "<html><body class=\"theme-dark wide\"><p>hello</p></body></html>",
    );
    assert!(is_supported_documentation_site(&html));
}

#[test]
fn script_marker_is_supported() {
    let html = Html::parse_document(
        "<html><head><script>window.__DOCUSAURUS__ = {};</script></head><body></body></html>",
    );
    assert!(is_supported_documentation_site(&html));
}

#[test]
fn plain_page_is_unsupported() {
    let html = Html::parse_document(
        "<html><body><h1>A blog</h1><p>Nothing to see.</p>\
         <a href=\"/post\">post</a></body></html>",
    );
    assert!(!is_supported_documentation_site(&html));
}
