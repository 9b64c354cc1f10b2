//! Ordered, deduplicated link collection: anchors are read from a
//! fixed priority list of navigation selector groups and then from a
//! fallback pass over every anchor, an address is accepted only when
//! it is site-relative, fragment-free and outside the assets path, and
//! the first occurrence of an address wins for the whole pass.

use vstd::prelude::*;

use crate::chartext::{
    seq_contains, seq_contains_char, str_contains, str_contains_char, str_eq,
    str_starts_with_char,
};
use crate::dom::{dom_hrefs, query_hrefs};

verus! {

/// A page address the collector accepts: site-relative, without a
/// fragment marker, and not under the assets path.
pub open spec fn spec_accepts(h: Seq<char>) -> bool {
    &&& h.len() > 0
    &&& h[0] == '/'
    &&& !seq_contains_char(h, '#')
    &&& !seq_contains(h, "/assets/"@)
}

/// Whether the collector accepts a page address.
pub fn accepts_href(h: &str) -> (r: bool)
    ensures
        r == spec_accepts(h@),
{
    str_starts_with_char(h, '/') && !str_contains_char(h, '#') && !str_contains(h, "/assets/")
}

/// Left-to-right collection over a stream of optional addresses: an
/// address enters the result when it is accepted and has not been
/// collected before.
pub open spec fn spec_collect(hs: Seq<Option<Seq<char>>>) -> Seq<Seq<char>>
    decreases hs.len(),
{
    if hs.len() == 0 {
        Seq::empty()
    } else {
        let prev = spec_collect(hs.drop_last());
        match hs.last() {
            Some(h) => if spec_accepts(h) && !prev.contains(h) {
                prev.push(h)
            } else {
                prev
            },
            None => prev,
        }
    }
}

/// The anchors the collector walks, in priority order: navbar,
/// sidebar, menu container, sidebar-specific container, generic nav,
/// then the fallback pass over every site-relative anchor.
pub open spec fn spec_link_stream(d: scraper::Html) -> Seq<Option<Seq<char>>> {
    dom_hrefs(d, "nav.navbar a[href^=\"/\"]"@) + dom_hrefs(d, "aside a[href^=\"/\"]"@)
        + dom_hrefs(d, ".menu a[href^=\"/\"]"@) + dom_hrefs(
        d,
        ".theme-doc-sidebar-menu a[href^=\"/\"]"@,
    ) + dom_hrefs(d, "nav a[href^=\"/\"]"@) + dom_hrefs(d, "a[href^=\"/\"]"@)
}

/// Whether a collected address is already present.
fn vec_contains(v: &Vec<String>, h: &str) -> (r: bool)
    ensures
        r == v.deep_view().contains(h@),
{
    let n: usize = v.len();
    let mut i: usize = 0;
    while i < n
        invariant
            i <= n,
            n == v@.len(),
            v.deep_view().len() == v@.len(),
            forall|k: int| 0 <= k < i ==> v.deep_view()[k] != h@,
        decreases n - i,
    {
        proof {
            assert(v.deep_view()[i as int] == v@[i as int]@);
        }
        if str_eq(v[i].as_str(), h) {
            assert(v.deep_view()[i as int] == h@);
            return true;
        }
        i = i + 1;
    }
    assert(forall|k: int| 0 <= k < v.deep_view().len() ==> v.deep_view()[k] != h@);
    false
}

/// Collect the ordered, deduplicated internal addresses of a rendered
/// page, in navigation-priority order.
#[verifier::loop_isolation(false)]
pub fn collect_links(doc: &scraper::Html) -> (links: Vec<String>)
    ensures
        links.deep_view() == spec_collect(spec_link_stream(*doc)),
{
    let mut all: Vec<Option<String>> = query_hrefs(doc, "nav.navbar a[href^=\"/\"]");
    let mut g2 = query_hrefs(doc, "aside a[href^=\"/\"]");
    let mut g3 = query_hrefs(doc, ".menu a[href^=\"/\"]");
    let mut g4 = query_hrefs(doc, ".theme-doc-sidebar-menu a[href^=\"/\"]");
    let mut g5 = query_hrefs(doc, "nav a[href^=\"/\"]");
    let mut g6 = query_hrefs(doc, "a[href^=\"/\"]");
    all.append(&mut g2);
    all.append(&mut g3);
    all.append(&mut g4);
    all.append(&mut g5);
    all.append(&mut g6);
    let ghost hs: Seq<Option<Seq<char>>> = spec_link_stream(*doc);
    proof {
        assert forall|k: int| 0 <= k < all@.len() implies all.deep_view()[k] == hs[k] by {
            assert(all.deep_view()[k] == all@[k].deep_view());
        }
        assert(all.deep_view() =~= hs);
    }
    let n: usize = all.len();
    let mut links: Vec<String> = Vec::new();
    let mut i: usize = 0;
    while i < n
        invariant
            i <= n,
            n == all@.len(),
            all.deep_view() == hs,
            links.deep_view() == spec_collect(hs.take(i as int)),
        decreases n - i,
    {
        proof {
            assert(hs.take(i as int + 1).drop_last() =~= hs.take(i as int));
            assert(hs.take(i as int + 1).last() == hs[i as int]);
            assert(all.deep_view()[i as int] == all@[i as int].deep_view());
        }
        match &all[i] {
            Some(h) => {
                if accepts_href(h.as_str()) && !vec_contains(&links, h.as_str()) {
                    let owned = h.clone();
                    links.push(owned);
                    proof {
                        assert(links.deep_view() =~= spec_collect(hs.take(i as int + 1)));
                    }
                }
            },
            None => {},
        }
        i = i + 1;
    }
    proof {
        assert(hs.take(n as int) =~= hs);
    }
    links
}

/// Collected addresses are unique: the same address never enters the
/// list twice, however often it occurs in the stream.
pub proof fn lemma_collect_unique(hs: Seq<Option<Seq<char>>>)
    ensures
        forall|i: int, j: int|
            0 <= i < j < spec_collect(hs).len() ==> spec_collect(hs)[i] != spec_collect(hs)[j],
    decreases hs.len(),
{
    if hs.len() > 0 {
        lemma_collect_unique(hs.drop_last());
        let prev = spec_collect(hs.drop_last());
        match hs.last() {
            Some(h) => {
                if spec_accepts(h) && !prev.contains(h) {
                    assert forall|i: int, j: int|
                        0 <= i < j < spec_collect(hs).len() implies spec_collect(hs)[i]
                        != spec_collect(hs)[j] by {
                        if j < prev.len() {
                        } else {
                            assert(spec_collect(hs)[j] == h);
                            assert(spec_collect(hs)[i] == prev[i]);
                            assert(prev.contains(prev[i]));
                        }
                    }
                }
            },
            None => {},
        }
    }
}

/// Collection is idempotent under duplicates: a tail whose addresses
/// all occur earlier in the stream adds nothing, so feeding the same
/// stream twice yields what one pass yields.
pub proof fn lemma_collect_idempotent(hs: Seq<Option<Seq<char>>>, tail: Seq<Option<Seq<char>>>)
    requires
        forall|j: int|
            0 <= j < tail.len() && (#[trigger] tail[j]) is Some ==> exists|k: int|
                0 <= k < hs.len() && hs[k] == tail[j],
    ensures
        spec_collect(hs + tail) == spec_collect(hs),
    decreases tail.len(),
{
    if tail.len() == 0 {
        assert(hs + tail =~= hs);
    } else {
        let shorter = tail.drop_last();
        assert(forall|j: int|
            0 <= j < shorter.len() && (#[trigger] shorter[j]) is Some ==> shorter[j] == tail[j]);
        lemma_collect_idempotent(hs, shorter);
        assert((hs + tail).drop_last() =~= hs + shorter);
        assert((hs + tail).last() == tail.last());
        match tail.last() {
            Some(h) => {
                let k = choose|k: int| 0 <= k < hs.len() && hs[k] == Some(h);
                lemma_collect_membership(hs, h);
                if spec_accepts(h) {
                    assert(spec_collect(hs).contains(h));
                }
            },
            None => {},
        }
    }
}

/// An address is collected exactly when it is accepted and occurs
/// somewhere in the stream: duplicates and rejected addresses change
/// nothing.
pub proof fn lemma_collect_membership(hs: Seq<Option<Seq<char>>>, h: Seq<char>)
    ensures
        spec_collect(hs).contains(h) <==> (spec_accepts(h) && exists|k: int|
            0 <= k < hs.len() && hs[k] == Some(h)),
    decreases hs.len(),
{
    if hs.len() == 0 {
        assert(!spec_collect(hs).contains(h));
    } else {
        lemma_collect_membership(hs.drop_last(), h);
        let prev = spec_collect(hs.drop_last());
        assert(forall|k: int| 0 <= k < hs.len() - 1 ==> hs.drop_last()[k] == hs[k]);
        if spec_collect(hs).contains(h) {
            let i = choose|i: int| 0 <= i < spec_collect(hs).len() && spec_collect(hs)[i] == h;
            if i < prev.len() {
                assert(prev.contains(h));
            } else {
                assert(hs.last() == Some(h));
                assert(hs[hs.len() - 1] == Some(h));
            }
        }
        if spec_accepts(h) && exists|k: int| 0 <= k < hs.len() && hs[k] == Some(h) {
            let k = choose|k: int| 0 <= k < hs.len() && hs[k] == Some(h);
            if k < hs.len() - 1 {
                assert(hs.drop_last()[k] == Some(h));
                assert(prev.contains(h));
                let i = choose|i: int| 0 <= i < prev.len() && prev[i] == h;
                assert(spec_collect(hs)[i] == h);
                assert(spec_collect(hs).contains(h));
            } else {
                if prev.contains(h) {
                    let i = choose|i: int| 0 <= i < prev.len() && prev[i] == h;
                    assert(spec_collect(hs)[i] == h);
                    assert(spec_collect(hs).contains(h));
                } else {
                    assert(spec_collect(hs).last() == h);
                    assert(spec_collect(hs).contains(h));
                }
            }
        }
    }
}

} // verus!
