use book2pdf::cover::{cover_html, resolve_cover_title, resolve_cover_url, SiteInfo};

fn info(
    title: Option<&str>,
    heading: Option<&str>,
    brand: Option<&str>,
    logo: Option<&str>,
    url: Option<&str>,
) -> SiteInfo {
    SiteInfo {
        title: title.map(|s| s.to_string()),
        heading: heading.map(|s| s.to_string()),
        brand: brand.map(|s| s.to_string()),
        logo: logo.map(|s| s.to_string()),
        url: url.map(|s| s.to_string()),
    }
}

#[test]
fn title_fallback_chain() {
    let i = info(Some("Site Docs"), Some("Heading"), Some("Brand"), None, None);
    assert_eq!(resolve_cover_title(&i), "Site Docs");
    let i = info(None, Some("Heading"), Some("Brand"), None, None);
    assert_eq!(resolve_cover_title(&i), "Heading");
    let i = info(None, None, Some("Brand"), None, None);
    assert_eq!(resolve_cover_title(&i), "Brand");
    let i = info(None, None, None, None, None);
    assert_eq!(resolve_cover_title(&i), "Documentation");
}

#[test]
fn empty_fields_fall_through() {
    let i = info(Some(""), Some(""), Some("Brand"), None, None);
    assert_eq!(resolve_cover_title(&i), "Brand");
    let i = info(Some(""), None, None, None, None);
    assert_eq!(resolve_cover_title(&i), "Documentation");
}

#[test]
fn source_address_falls_back_to_target() {
    let i = info(None, None, None, None, Some("https://docs.example.com/home"));
    assert_eq!(
        resolve_cover_url(&i, "https://docs.example.com"),
        "https://docs.example.com/home"
    );
    let i = info(None, None, None, None, None);
    assert_eq!(
        resolve_cover_url(&i, "https://docs.example.com"),
        "https://docs.example.com"
    );
}

#[test]
fn cover_markup_embeds_the_fields() {
    let logo = Some("https://docs.example.com/logo.png".to_string());
    let html = cover_html("My Docs", &logo, "https://docs.example.com");
    assert!(html.contains("<h1>My Docs</h1>"));
    assert!(html.contains("<img src=\"https://docs.example.com/logo.png\""));
    assert!(html.contains("<div class=\"url\">https://docs.example.com</div>"));
    assert!(html.contains("Documentation Export"));
    assert!(html.starts_with("<!DOCTYPE html>"));
    assert!(html.ends_with("</body></html>"));
}

#[test]
fn cover_markup_omits_a_missing_logo() {
    let html = cover_html("My Docs", &None, "https://docs.example.com");
    assert!(!html.contains("<img"));
    assert!(html.contains("<h1>My Docs</h1>"));
}
