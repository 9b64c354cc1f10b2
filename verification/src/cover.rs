//! Cover-page synthesis: the fields extracted from the rendered root
//! page resolve through a fixed fallback chain, and a self-contained
//! styled document embeds the resolved title, the logo when one was
//! found, and the source address.

use vstd::prelude::*;

verus! {

/// The loosely-typed fields a root-page extraction hands back. Each
/// field is absent when the page offered nothing for it; an empty
/// string counts as nothing.
pub struct SiteInfo {
    /// The document title.
    pub title: Option<String>,
    /// The text of the first heading.
    pub heading: Option<String>,
    /// The text of a brand element.
    pub brand: Option<String>,
    /// The address of a logo image, from the first matching logo
    /// selector.
    pub logo: Option<String>,
    /// The address the page reports for itself.
    pub url: Option<String>,
}

/// A field is usable when present and nonempty.
pub open spec fn spec_usable(f: Option<String>) -> bool {
    f matches Some(s) && s@.len() > 0
}

/// The resolved cover title: the document title, else the first
/// heading, else the brand text, else the literal fallback.
pub open spec fn spec_cover_title(info: SiteInfo) -> Seq<char> {
    if spec_usable(info.title) {
        info.title.unwrap()@
    } else if spec_usable(info.heading) {
        info.heading.unwrap()@
    } else if spec_usable(info.brand) {
        info.brand.unwrap()@
    } else {
        "Documentation"@
    }
}

/// The resolved source address: what the page reports, else the
/// address the run was started with.
pub open spec fn spec_cover_url(info: SiteInfo, target: Seq<char>) -> Seq<char> {
    if spec_usable(info.url) {
        info.url.unwrap()@
    } else {
        target
    }
}

/// Resolve the cover title through the fallback chain.
pub fn resolve_cover_title(info: &SiteInfo) -> (r: String)
    ensures
        r@ == spec_cover_title(*info),
{
    match &info.title {
        Some(t) => {
            if t.as_str().unicode_len() > 0 {
                return t.clone();
            }
        },
        None => {},
    }
    match &info.heading {
        Some(t) => {
            if t.as_str().unicode_len() > 0 {
                return t.clone();
            }
        },
        None => {},
    }
    match &info.brand {
        Some(t) => {
            if t.as_str().unicode_len() > 0 {
                return t.clone();
            }
        },
        None => {},
    }
    String::from_str("Documentation")
}

/// Resolve the printed source address.
pub fn resolve_cover_url(info: &SiteInfo, target: &str) -> (r: String)
    ensures
        r@ == spec_cover_url(*info, target@),
{
    match &info.url {
        Some(u) => {
            if u.as_str().unicode_len() > 0 {
                return u.clone();
            }
        },
        None => {},
    }
    String::from_str(target)
}

/// The image block of the cover: present exactly when a logo address
/// was found.
pub open spec fn spec_logo_block(logo: Option<Seq<char>>) -> Seq<char> {
    match logo {
        Some(l) => "<img src=\""@ + l
            + "\" alt=\"Logo\" style=\"max-width: 300px; max-height: 200px; margin-bottom: 30px;\">"@,
        None => Seq::<char>::empty(),
    }
}

/// The markup of the whole cover document around the resolved fields.
pub open spec fn spec_cover_html(title: Seq<char>, logo: Option<Seq<char>>, url: Seq<char>) -> Seq<
    char,
> {
    spec_cover_head() + spec_logo_block(logo) + "<h1>"@ + title + "</h1>"@
        + "<div class=\"subtitle\">Documentation Export</div><div class=\"url\">"@ + url
        + "</div></div><div class=\"generated\">Generated with book2pdf</div></body></html>"@
}

/// The fixed head of the cover document: page scaffolding and style up
/// to the point the logo block is placed.
pub open spec fn spec_cover_head() -> Seq<char> {
    "<!DOCTYPE html><html><head><meta charset=\"UTF-8\"><title>Cover Page</title><style>"@
        + "body { font-family: -apple-system, BlinkMacSystemFont, 'Segoe UI', Roboto, sans-serif; display: flex; flex-direction: column; align-items: center; justify-content: center; height: 100vh; margin: 0; background: linear-gradient(135deg, #667eea 0%, #764ba2 100%); color: white; text-align: center; }"@
        + " .container { background: rgba(255, 255, 255, 0.1); backdrop-filter: blur(10px); border-radius: 20px; padding: 60px; box-shadow: 0 8px 32px rgba(31, 38, 135, 0.37); border: 1px solid rgba(255, 255, 255, 0.18); }"@
        + " h1 { font-size: 3em; margin: 20px 0; font-weight: 300; text-shadow: 2px 2px 4px rgba(0,0,0,0.3); }"@
        + " .subtitle { font-size: 1.2em; opacity: 0.9; margin-bottom: 20px; }"@
        + " .url { font-size: 0.9em; opacity: 0.7; font-family: monospace; background: rgba(0,0,0,0.2); padding: 10px 20px; border-radius: 10px; margin-top: 30px; }"@
        + " .generated { position: absolute; bottom: 30px; right: 30px; font-size: 0.8em; opacity: 0.6; }"@
        + "</style></head><body><div class=\"container\">"@
}

/// Build the synthesized cover document for the resolved fields.
pub fn cover_html(title: &str, logo: &Option<String>, url: &str) -> (r: String)
    ensures
        r@ == spec_cover_html(title@, logo.deep_view(), url@),
{
    let mut s = String::new();
    s.append(
        "<!DOCTYPE html><html><head><meta charset=\"UTF-8\"><title>Cover Page</title><style>",
    );
    s.append(
        "body { font-family: -apple-system, BlinkMacSystemFont, 'Segoe UI', Roboto, sans-serif; display: flex; flex-direction: column; align-items: center; justify-content: center; height: 100vh; margin: 0; background: linear-gradient(135deg, #667eea 0%, #764ba2 100%); color: white; text-align: center; }",
    );
    s.append(
        " .container { background: rgba(255, 255, 255, 0.1); backdrop-filter: blur(10px); border-radius: 20px; padding: 60px; box-shadow: 0 8px 32px rgba(31, 38, 135, 0.37); border: 1px solid rgba(255, 255, 255, 0.18); }",
    );
    s.append(
        " h1 { font-size: 3em; margin: 20px 0; font-weight: 300; text-shadow: 2px 2px 4px rgba(0,0,0,0.3); }",
    );
    s.append(" .subtitle { font-size: 1.2em; opacity: 0.9; margin-bottom: 20px; }");
    s.append(
        " .url { font-size: 0.9em; opacity: 0.7; font-family: monospace; background: rgba(0,0,0,0.2); padding: 10px 20px; border-radius: 10px; margin-top: 30px; }",
    );
    s.append(
        " .generated { position: absolute; bottom: 30px; right: 30px; font-size: 0.8em; opacity: 0.6; }",
    );
    s.append("</style></head><body><div class=\"container\">");
    match logo {
        Some(l) => {
            s.append("<img src=\"");
            s.append(l.as_str());
            s.append(
                "\" alt=\"Logo\" style=\"max-width: 300px; max-height: 200px; margin-bottom: 30px;\">",
            );
        },
        None => {},
    }
    s.append("<h1>");
    s.append(title);
    s.append("</h1>");
    s.append("<div class=\"subtitle\">Documentation Export</div><div class=\"url\">");
    s.append(url);
    s.append("</div></div><div class=\"generated\">Generated with book2pdf</div></body></html>");
    proof {
        assert(s@ =~= spec_cover_html(title@, logo.deep_view(), url@));
    }
    s
}

} // verus!
