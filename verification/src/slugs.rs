//! Slug and filename derivation: a page address becomes a lowercase,
//! separator-normalized, ASCII-safe token, and tokens become the
//! artifact filenames of the output layout.

use vstd::prelude::*;

use crate::chartext::{chars_to_string, push_two_digit, spec_two_digit, str_chars};

verus! {

/// A character that a slug may contain: `a-z`, `0-9` or `-`.
pub open spec fn is_slug_char(c: char) -> bool {
    ||| ('a' as u32) <= (c as u32) <= ('z' as u32)
    ||| ('0' as u32) <= (c as u32) <= ('9' as u32)
    ||| c == '-'
}

/// An ASCII character that is neither a letter nor a digit, so that
/// slugification never emits anything for it but a separator.
pub open spec fn is_ascii_non_alnum(c: char) -> bool {
    &&& (c as u32) < 128
    &&& !(('a' as u32) <= (c as u32) <= ('z' as u32))
    &&& !(('A' as u32) <= (c as u32) <= ('Z' as u32))
    &&& !(('0' as u32) <= (c as u32) <= ('9' as u32))
}

/// What `slug::slugify` returns for a given string.
pub uninterp spec fn slug_of(s: Seq<char>) -> Seq<char>;

/// Relies on `slug::slugify`: the ASCII slug of any string, a function
/// of the input alone. The stated shape facts are the ones the crate
/// documents: only `a-z`, `0-9` and `-` occur; the result neither
/// starts nor ends with `-`; and an input whose characters are all
/// ASCII with no letter or digit among them yields the empty slug.
#[verifier::external_body]
pub fn slugify_str(s: &str) -> (r: String)
    ensures
        r@ == slug_of(s@),
        forall|i: int| 0 <= i < r@.len() ==> is_slug_char(#[trigger] r@[i]),
        r@.len() > 0 ==> r@[0] != '-' && r@[r@.len() - 1] != '-',
        (forall|i: int| 0 <= i < s@.len() ==> is_ascii_non_alnum(#[trigger] s@[i])) ==> r@.len()
            == 0,
{
    slug::slugify(s)
}

/// Path separators inside a token are normalized to dashes.
pub open spec fn dash_for_slash(c: char) -> char {
    if c == '/' {
        '-'
    } else {
        c
    }
}

/// A token with its trailing separator characters removed.
pub open spec fn trim_trailing_dashes(s: Seq<char>) -> Seq<char>
    decreases s.len(),
{
    if s.len() > 0 && s.last() == '-' {
        trim_trailing_dashes(s.drop_last())
    } else {
        s
    }
}

/// The slug a page address maps to: its slugified form, separator
/// normalized and trimmed, with the reserved token `index` for the
/// root address and for any address that normalizes to nothing.
pub open spec fn spec_href_to_slug(s: Seq<char>) -> Seq<char> {
    let t = slug_of(s).map_values(|c: char| dash_for_slash(c));
    if t == "/"@ || t.len() == 0 {
        "index"@
    } else {
        trim_trailing_dashes(t)
    }
}

/// Derive the filename token for a page address. The result is never
/// empty and never contains a path separator.
pub fn href_to_slug(href: &str) -> (r: String)
    ensures
        r@ == spec_href_to_slug(href@),
        r@.len() > 0,
        forall|i: int| 0 <= i < r@.len() ==> #[trigger] r@[i] != '/',
{
    let sl = slugify_str(href);
    let cs = str_chars(sl.as_str());
    let n: usize = cs.len();
    let mut t: Vec<char> = Vec::new();
    let mut i: usize = 0;
    while i < n
        invariant
            i <= n,
            n == cs@.len(),
            cs@ == slug_of(href@),
            forall|k: int| 0 <= k < n ==> is_slug_char(#[trigger] cs@[k]),
            t@ == cs@.subrange(0, i as int).map_values(|c: char| dash_for_slash(c)),
        decreases n - i,
    {
        let c = cs[i];
        if c == '/' {
            t.push('-');
        } else {
            t.push(c);
        }
        assert(t@ =~= cs@.subrange(0, i as int + 1).map_values(|c: char| dash_for_slash(c)));
        i = i + 1;
    }
    assert(cs@.subrange(0, n as int) =~= cs@);
    proof {
        assert(t@ =~= cs@) by {
            assert(forall|k: int|
                0 <= k < cs@.len() ==> #[trigger] t@[k] == dash_for_slash(cs@[k]));
        }
    }
    let is_root = t.len() == 1 && t[0] == '/';
    proof {
        reveal_strlit("/");
        reveal_strlit("index");
        if t@ == "/"@ {
            assert(t@.len() == 1 && t@[0] == '/');
        }
        if t@.len() == 1 && t@[0] == '/' {
            assert(t@ =~= "/"@);
        }
    }
    if is_root || t.len() == 0 {
        let r = chars_to_string(&str_chars("index"));
        assert(r@ == "index"@);
        r
    } else {
        assert(t@.last() != '-');
        assert(trim_trailing_dashes(t@) == t@);
        chars_to_string(&t)
    }
}

/// The filename of one page artifact: the zero-padded two-digit
/// ordinal, an underscore, the slug, and the document extension.
pub fn artifact_file_name(ordinal: u64, slug: &str) -> (r: String)
    requires
        slug@.len() > 0,
    ensures
        r@ == spec_two_digit(ordinal as int) + "_"@ + slug@ + ".pdf"@,
{
    let mut s = String::new();
    push_two_digit(&mut s, ordinal);
    s.append("_");
    s.append(slug);
    s.append(".pdf");
    s
}

/// The slug of a site host: dots become dashes before slugification.
pub open spec fn spec_domain_slug(host: Seq<char>) -> Seq<char> {
    slug_of(host.map_values(|c: char| if c == '.' { '-' } else { c }))
}

/// Derive the filename of the combined output for a site host.
pub fn combined_file_name(host: &str) -> (r: String)
    ensures
        r@ == spec_domain_slug(host@) + "-combined.pdf"@,
{
    let cs = str_chars(host);
    let n: usize = cs.len();
    let mut t: Vec<char> = Vec::new();
    let mut i: usize = 0;
    while i < n
        invariant
            i <= n,
            n == cs@.len(),
            cs@ == host@,
            t@ == cs@.subrange(0, i as int).map_values(|c: char| if c == '.' { '-' } else { c }),
        decreases n - i,
    {
        let c = cs[i];
        if c == '.' {
            t.push('-');
        } else {
            t.push(c);
        }
        assert(t@ =~= cs@.subrange(0, i as int + 1).map_values(
            |c: char| if c == '.' { '-' } else { c },
        ));
        i = i + 1;
    }
    assert(cs@.subrange(0, n as int) =~= cs@);
    let replaced = chars_to_string(&t);
    let mut s = slugify_str(replaced.as_str());
    s.append("-combined.pdf");
    s
}

/// Join the output directory and the per-page subdirectory with a
/// filename.
pub fn page_path(out_dir: &str, file_name: &str) -> (r: String)
    ensures
        r@ == out_dir@ + "/pages/"@ + file_name@,
{
    let mut s = String::new();
    s.append(out_dir);
    s.append("/pages/");
    s.append(file_name);
    s
}

/// Join the output directory with a filename.
pub fn out_path(out_dir: &str, file_name: &str) -> (r: String)
    ensures
        r@ == out_dir@ + "/"@ + file_name@,
{
    let mut s = String::new();
    s.append(out_dir);
    s.append("/");
    s.append(file_name);
    s
}

} // verus!
