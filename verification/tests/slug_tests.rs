use book2pdf::slugs::{artifact_file_name, combined_file_name, href_to_slug, out_path, page_path};

#[test]
fn guide_setup_page_slug() {
    assert_eq!(href_to_slug("/Guide/Setup Page"), "guide-setup-page");
}

#[test]
fn root_maps_to_index() {
    assert_eq!(href_to_slug("/"), "index");
}

#[test]
fn empty_maps_to_index() {
    assert_eq!(href_to_slug(""), "index");
}

#[test]
fn slug_is_deterministic() {
    let a = href_to_slug("/docs/Getting Started");
    let b = href_to_slug("/docs/Getting Started");
    assert_eq!(a, b);
    assert_eq!(a, "docs-getting-started");
}

#[test]
fn slug_has_no_separator() {
    for href in ["/a/b/c", "/x", "/", "", "/Guide/Setup Page", "/assets/img.png"] {
        let s = href_to_slug(href);
        assert!(!s.contains('/'), "slug {:?} of {:?} holds a separator", s, href);
        assert!(!s.is_empty());
    }
}

#[test]
fn slug_lowercases_and_strips() {
    assert_eq!(href_to_slug("/API/V2"), "api-v2");
    assert_eq!(href_to_slug("/intro/"), "intro");
}

#[test]
fn artifact_names_are_zero_padded() {
    assert_eq!(artifact_file_name(1, "cover"), "01_cover.pdf");
    assert_eq!(artifact_file_name(2, "intro"), "02_intro.pdf");
    assert_eq!(artifact_file_name(10, "bar"), "10_bar.pdf");
    assert_eq!(artifact_file_name(100, "deep"), "100_deep.pdf");
}

#[test]
fn combined_name_slugs_the_host() {
    assert_eq!(combined_file_name("docs.gitbook.com"), "docs-gitbook-com-combined.pdf");
    assert_eq!(combined_file_name("gitbook"), "gitbook-combined.pdf");
}

#[test]
fn paths_join_with_pages_dir() {
    assert_eq!(page_path("out", "02_intro.pdf"), "out/pages/02_intro.pdf");
    assert_eq!(out_path("out", "x-combined.pdf"), "out/x-combined.pdf");
}
