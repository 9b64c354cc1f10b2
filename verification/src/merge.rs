//! The object-graph merge: every input artifact is parsed into its own
//! PDF object graph, ids of later graphs are renumbered past the
//! running maximum so that the contributed id sets stay pairwise
//! disjoint, every object joins the base graph's object map, and the
//! base page tree's Kids list becomes the concatenation of each
//! input's pages in input order, with Count equal to its length.

use vstd::prelude::*;

verus! {

broadcast use Seq::lemma_flatten_push;

#[verifier::external_type_specification]
#[verifier::external_body]
pub struct ExDocument(lopdf::Document);

#[verifier::external_type_specification]
#[verifier::external_body]
pub struct ExLopdfError(lopdf::Error);

/// The set of object ids (number and generation) of a document.
pub uninterp spec fn doc_ids(d: lopdf::Document) -> Set<(u32, u16)>;

/// The recorded maximum object number of a document.
pub uninterp spec fn doc_max_id(d: lopdf::Document) -> u32;

/// The ordered page object references of a document, as its page tree
/// lists them.
pub uninterp spec fn doc_pages(d: lopdf::Document) -> Seq<(u32, u16)>;

/// The Kids reference list held by the page-tree root.
pub uninterp spec fn doc_kids(d: lopdf::Document) -> Seq<(u32, u16)>;

/// The Count value held by the page-tree root.
pub uninterp spec fn doc_count(d: lopdf::Document) -> int;

/// Whether the document's catalog resolves to a page-tree root: a
/// `Pages` reference whose target object is a dictionary.
pub uninterp spec fn doc_has_page_root(d: lopdf::Document) -> bool;

/// The bytes a document serializes to.
pub uninterp spec fn serialized_doc(d: lopdf::Document) -> Seq<u8>;

/// Whether a byte buffer parses as a document.
pub uninterp spec fn spec_pdf_parses(bytes: Seq<u8>) -> bool;

/// The page references a document carries after renumbering from
/// `start`, in the document's own page order.
pub uninterp spec fn renumbered_pages(d: lopdf::Document, start: u32) -> Seq<(u32, u16)>;

/// One object id before another in number-then-generation order.
pub open spec fn pair_le(a: (u32, u16), b: (u32, u16)) -> bool {
    a.0 < b.0 || (a.0 == b.0 && a.1 <= b.1)
}

/// The page references stand in ascending id order, so renumbering
/// never reshuffles ids among the page objects first.
pub open spec fn spec_pages_ascending(s: Seq<(u32, u16)>) -> bool {
    forall|i: int| 0 <= i < s.len() - 1 ==> pair_le(#[trigger] s[i], s[i + 1])
}

/// A well-formed loaded graph: finitely many objects, every object
/// number bounded by the recorded maximum, every page reference an
/// object of the graph.
pub open spec fn graph_wf(d: lopdf::Document) -> bool {
    &&& doc_ids(d).finite()
    &&& forall|id: (u32, u16)| doc_ids(d).contains(id) ==> id.0 <= doc_max_id(d)
    &&& forall|i: int|
        0 <= i < doc_pages(d).len() ==> doc_ids(d).contains(#[trigger] doc_pages(d)[i])
}

/// Relies on `lopdf::Document::load_mem`: parse one artifact into its
/// object graph. Whether a buffer parses is a function of the bytes
/// alone. The loader leaves the recorded maximum at or above every
/// loaded object number, and the page iterator yields only objects
/// present in the graph.
#[verifier::external_body]
fn load_document(bytes: &[u8]) -> (r: Result<lopdf::Document, lopdf::Error>)
    ensures
        r is Ok <==> spec_pdf_parses(bytes@),
        r matches Ok(d) ==> graph_wf(d),
{
    lopdf::Document::load_mem(bytes)
}

/// Relies on `lopdf::Document::clone`: the copy holds the same object
/// graph.
#[verifier::external_body]
fn clone_document(d: &lopdf::Document) -> (r: lopdf::Document)
    ensures
        doc_ids(r) == doc_ids(*d),
        doc_max_id(r) == doc_max_id(*d),
        doc_pages(r) == doc_pages(*d),
        doc_has_page_root(r) == doc_has_page_root(*d),
        forall|start: u32| #[trigger] renumbered_pages(r, start) == renumbered_pages(*d, start),
{
    d.clone()
}

/// Relies on `lopdf::Document::get_pages`: the page object ids in page
/// order.
#[verifier::external_body]
fn document_pages(d: &lopdf::Document) -> (r: Vec<(u32, u16)>)
    ensures
        r@ == doc_pages(*d),
{
    d.get_pages().into_values().collect()
}

/// Relies on the public `objects` map of `lopdf::Document`: how many
/// objects the graph holds.
#[verifier::external_body]
fn object_count(d: &lopdf::Document) -> (r: usize)
    ensures
        r == doc_ids(*d).len(),
{
    d.objects.len()
}

/// Relies on the public `max_id` field of `lopdf::Document`.
#[verifier::external_body]
fn document_max_id(d: &lopdf::Document) -> (r: u32)
    ensures
        r == doc_max_id(*d),
{
    d.max_id
}

/// Relies on the public `max_id` field of `lopdf::Document`: record a
/// new maximum without touching the object map.
#[verifier::external_body]
fn set_document_max_id(d: &mut lopdf::Document, v: u32)
    ensures
        doc_max_id(*final(d)) == v,
        doc_ids(*final(d)) == doc_ids(*old(d)),
        doc_pages(*final(d)) == doc_pages(*old(d)),
        doc_has_page_root(*final(d)) == doc_has_page_root(*old(d)),
{
    d.max_id = v;
}

/// Relies on `lopdf::Document::renumber_objects_with`: object numbers
/// are reassigned sequentially from `start` in sorted id order,
/// references to existing objects are rewritten consistently (the
/// trailer included), and the recorded maximum becomes `start + n - 1`
/// for `n` objects. The pages must already stand in ascending id
/// order: only then is the reshuffling pre-pass (which keys a
/// temporary map by new number and old generation, and can collapse
/// ids when it runs) skipped, and the remaining pass is a lossless
/// bijective renaming of the objects. Nothing beyond the named result
/// is claimed of the pages: a dangling reference is left as written,
/// and when its id collides with the renumbered range it can come to
/// resolve, so the page list may gain entries.
#[verifier::external_body]
fn renumber_document(d: &mut lopdf::Document, start: u32)
    requires
        start >= 1,
        doc_ids(*old(d)).finite(),
        start + doc_ids(*old(d)).len() <= u32::MAX,
        spec_pages_ascending(doc_pages(*old(d))),
    ensures
        doc_ids(*final(d)).finite(),
        doc_ids(*final(d)).len() == doc_ids(*old(d)).len(),
        doc_max_id(*final(d)) == start + doc_ids(*old(d)).len() - 1,
        forall|id: (u32, u16)|
            doc_ids(*final(d)).contains(id) ==> start <= id.0 <= doc_max_id(*final(d)),
        doc_pages(*final(d)) == renumbered_pages(*old(d), start),
        forall|i: int|
            0 <= i < doc_pages(*final(d)).len() ==> doc_ids(*final(d)).contains(
                #[trigger] doc_pages(*final(d))[i],
            ),
{
    d.renumber_objects_with(start);
}

/// Relies on `BTreeMap::extend` over the public `objects` map of
/// `lopdf::Document`: every object of `other` joins `base`. With
/// disjoint id sets nothing is overwritten, so every lookup that
/// succeeded before still yields the same value: the recorded maximum
/// stays, and a resolvable page root stays resolvable. (A grown map
/// can only add lookups, so nothing stronger than monotonicity is
/// claimed of the root, and nothing at all of the page traversal,
/// whose iteration cap rises with the map.)
#[verifier::external_body]
fn absorb_objects(base: &mut lopdf::Document, other: &lopdf::Document)
    requires
        doc_ids(*old(base)).disjoint(doc_ids(*other)),
    ensures
        doc_ids(*final(base)) == doc_ids(*old(base)).union(doc_ids(*other)),
        doc_max_id(*final(base)) == doc_max_id(*old(base)),
        doc_has_page_root(*old(base)) ==> doc_has_page_root(*final(base)),
{
    base.objects.extend(other.objects.iter().map(|(k, v)| (*k, v.clone())));
}

/// Relies on `lopdf::Document::catalog`, `Document::get_object_mut`
/// and `Dictionary::set`: when the catalog resolves to a page-tree
/// root, its Kids array is replaced by the given references and its
/// Count by their number; otherwise nothing changes.
#[verifier::external_body]
fn replace_page_kids(d: &mut lopdf::Document, kids: &Vec<(u32, u16)>) -> (ok: bool)
    ensures
        ok == doc_has_page_root(*old(d)),
        ok ==> doc_kids(*final(d)) == kids@,
        ok ==> doc_count(*final(d)) == kids@.len(),
        ok ==> doc_ids(*final(d)) == doc_ids(*old(d)),
        ok ==> doc_max_id(*final(d)) == doc_max_id(*old(d)),
        !ok ==> *final(d) == *old(d),
{
    let refs: Vec<lopdf::Object> = kids.iter().map(|id| lopdf::Object::Reference(*id)).collect();
    let count = refs.len() as i64;
    let root_id = match d.catalog().ok().and_then(|c| c.get(b"Pages").ok()) {
        Some(lopdf::Object::Reference(id)) => *id,
        _ => return false,
    };
    match d.get_object_mut(root_id) {
        Ok(lopdf::Object::Dictionary(dict)) => {
            dict.set("Kids", lopdf::Object::Array(refs));
            dict.set("Count", lopdf::Object::Integer(count));
            true
        },
        _ => false,
    }
}

/// Relies on `lopdf::Document::save_to`: the document serialized to
/// bytes, a function of the document value alone. Writing into a byte
/// buffer cannot fail: every failure path of the writer is an
/// `io::Write` error, which a `Vec` never produces. The
/// cross-reference bookkeeping allocates up to two successor ids past
/// the recorded maximum, so that maximum must leave room for them.
#[verifier::external_body]
fn save_document(d: &mut lopdf::Document) -> (r: Vec<u8>)
    requires
        doc_max_id(*old(d)) < u32::MAX - 1,
    ensures
        r@ == serialized_doc(*old(d)),
{
    let mut out: Vec<u8> = Vec::new();
    d.save_to(&mut out).expect("writing into a byte buffer cannot fail");
    out
}

/// Why a merge did not produce output.
#[derive(Debug)]
pub enum MergeError {
    /// No artifact parsed successfully: nothing to merge.
    NothingToMerge,
    /// One artifact's bytes did not parse; the artifact is skipped.
    ParseFailed { name: String },
    /// The base graph's catalog resolves to no page-tree root.
    NoPageTree,
    /// Renumbering would exceed the object-number space.
    IdSpaceExhausted,
    /// A later input's page tree is not in ascending id order, so it
    /// cannot be renumbered without loss.
    UnsortedPages { name: String },
}

impl MergeError {
    /// The user-visible text of the error.
    pub fn message(&self) -> (r: String)
        ensures
            *self is NothingToMerge ==> r@ == "No PDFs added to merge"@,
            self matches MergeError::ParseFailed { name } ==> r@ == "Failed to parse PDF file "@
                + name@,
            *self is NoPageTree ==> r@ == "No page tree in base PDF"@,
            *self is IdSpaceExhausted ==> r@ == "PDF object id space exhausted"@,
            self matches MergeError::UnsortedPages { name } ==> r@ == "Pages out of id order in "@
                + name@,
    {
        match self {
            MergeError::NothingToMerge => String::from_str("No PDFs added to merge"),
            MergeError::ParseFailed { name } => {
                let mut s = String::from_str("Failed to parse PDF file ");
                s.append(name.as_str());
                s
            },
            MergeError::NoPageTree => String::from_str("No page tree in base PDF"),
            MergeError::IdSpaceExhausted => String::from_str("PDF object id space exhausted"),
            MergeError::UnsortedPages { name } => {
                let mut s = String::from_str("Pages out of id order in ");
                s.append(name.as_str());
                s
            },
        }
    }
}

/// One parsed input: its filename, its original bytes, and its object
/// graph.
pub struct SourcePdf {
    pub name: String,
    pub bytes: Vec<u8>,
    pub doc: lopdf::Document,
}

/// The merger accumulates parsed inputs in merge order.
pub struct PdfMerger {
    pub docs: Vec<SourcePdf>,
}

/// The union of a sequence of id sets.
pub open spec fn union_all(cs: Seq<Set<(u32, u16)>>) -> Set<(u32, u16)>
    decreases cs.len(),
{
    if cs.len() == 0 {
        Set::empty()
    } else {
        union_all(cs.drop_last()).union(cs.last())
    }
}

/// The number of objects the graphs after the base would add.
pub open spec fn added_object_count(docs: Seq<SourcePdf>) -> int
    decreases docs.len(),
{
    if docs.len() == 0 {
        0
    } else {
        added_object_count(docs.drop_last()) + doc_ids(docs.last().doc).len()
    }
}

/// The object-number space can hold every graph after renumbering,
/// with the two ids the serializer's cross-reference bookkeeping may
/// allocate past the maximum left free.
pub open spec fn ids_fit(docs: Seq<SourcePdf>) -> bool {
    doc_max_id(docs[0].doc) + added_object_count(docs.skip(1)) < u32::MAX - 1
}

/// Every input after the base lists its pages in ascending id order,
/// as renumbering requires.
pub open spec fn inputs_sorted(docs: Seq<SourcePdf>) -> bool {
    forall|i: int| 1 <= i < docs.len() ==> spec_pages_ascending(doc_pages(#[trigger] docs[i].doc))
}

/// The merged graph `m` against the inputs: each input contributes a
/// pairwise-disjoint id set and a page segment inside it, the base
/// contributes its ids and pages unchanged, every later segment is
/// that input's page list under its renumbering start, the graph's
/// ids are exactly the union of the contributions, and the page-tree
/// root lists the concatenated segments with a matching count.
pub open spec fn merged_shape_with(
    m: lopdf::Document,
    docs: Seq<SourcePdf>,
    segs: Seq<Seq<(u32, u16)>>,
    id_sets: Seq<Set<(u32, u16)>>,
    starts: Seq<u32>,
) -> bool {
    &&& segs.len() == docs.len()
    &&& id_sets.len() == docs.len()
    &&& starts.len() == docs.len()
    &&& segs[0] == doc_pages(docs[0].doc)
    &&& id_sets[0] == doc_ids(docs[0].doc)
    &&& forall|i: int|
        1 <= i < docs.len() ==> #[trigger] segs[i] == renumbered_pages(
            docs[i].doc,
            starts[i],
        )
    &&& forall|i: int, k: int|
        0 <= i < docs.len() && 0 <= k < segs[i].len() ==> id_sets[i].contains(
            #[trigger] segs[i][k],
        )
    &&& forall|i: int, j: int|
        0 <= i < j < docs.len() ==> (#[trigger] id_sets[i]).disjoint(#[trigger] id_sets[j])
    &&& doc_ids(m) == union_all(id_sets)
    &&& doc_kids(m) == segs.flatten()
    &&& doc_count(m) == segs.flatten().len()
}

/// The merged graph has the stated shape for some division into
/// contributions and renumbering starts.
pub open spec fn merged_shape(m: lopdf::Document, docs: Seq<SourcePdf>) -> bool {
    exists|segs: Seq<Seq<(u32, u16)>>, id_sets: Seq<Set<(u32, u16)>>, starts: Seq<u32>|
        merged_shape_with(m, docs, segs, id_sets, starts)
}

proof fn lemma_union_all_member(cs: Seq<Set<(u32, u16)>>, j: int)
    requires
        0 <= j < cs.len(),
    ensures
        forall|x: (u32, u16)| cs[j].contains(x) ==> union_all(cs).contains(x),
    decreases cs.len(),
{
    assert(union_all(cs) == union_all(cs.drop_last()).union(cs.last()));
    if j < cs.len() - 1 {
        lemma_union_all_member(cs.drop_last(), j);
        assert(cs.drop_last()[j] == cs[j]);
        assert forall|x: (u32, u16)| cs[j].contains(x) implies union_all(cs).contains(x) by {
            assert(cs.drop_last()[j].contains(x));
            assert(union_all(cs.drop_last()).contains(x));
        }
    } else {
        assert forall|x: (u32, u16)| cs[j].contains(x) implies union_all(cs).contains(x) by {
            assert(cs.last().contains(x));
        }
    }
}

proof fn lemma_added_count_nonneg(docs: Seq<SourcePdf>)
    ensures
        added_object_count(docs) >= 0,
    decreases docs.len(),
{
    if docs.len() > 0 {
        lemma_added_count_nonneg(docs.drop_last());
    }
}

proof fn lemma_added_count_prefix(docs: Seq<SourcePdf>, k: int)
    requires
        0 <= k <= docs.len(),
    ensures
        added_object_count(docs.take(k)) <= added_object_count(docs),
    decreases docs.len() - k,
{
    if k == docs.len() {
        assert(docs.take(k) =~= docs);
    } else {
        lemma_added_count_prefix(docs, k + 1);
        assert(docs.take(k + 1).drop_last() =~= docs.take(k));
        assert(docs.take(k + 1).last() == docs[k]);
    }
}

/// Whether the page references stand in ascending id order.
fn pages_ascending(v: &Vec<(u32, u16)>) -> (r: bool)
    ensures
        r == spec_pages_ascending(v@),
{
    let n: usize = v.len();
    if n == 0 {
        return true;
    }
    let mut i: usize = 0;
    while i < n - 1
        invariant
            0 < n,
            i <= n - 1,
            n == v@.len(),
            forall|k: int| 0 <= k < i ==> pair_le(#[trigger] v@[k], v@[k + 1]),
        decreases n - i,
    {
        let a = v[i];
        let b = v[i + 1];
        if !(a.0 < b.0 || (a.0 == b.0 && a.1 <= b.1)) {
            return false;
        }
        i = i + 1;
    }
    true
}

impl PdfMerger {
    /// Every held graph is well formed.
    pub open spec fn wf(self) -> bool {
        forall|i: int| 0 <= i < self.docs@.len() ==> #[trigger] graph_wf(self.docs@[i].doc)
    }

    /// A merger with no inputs yet.
    pub fn new() -> (r: Self)
        ensures
            r.docs@.len() == 0,
            r.wf(),
    {
        PdfMerger { docs: Vec::new() }
    }

    /// Parse one artifact's bytes and add its graph in merge order:
    /// this succeeds exactly when the bytes parse as a document. A
    /// parse failure changes nothing and reports the artifact's name.
    pub fn add_pdf(&mut self, name: String, bytes: Vec<u8>) -> (r: Result<(), MergeError>)
        requires
            old(self).wf(),
        ensures
            final(self).wf(),
            r is Ok <==> spec_pdf_parses(bytes@),
            r is Ok ==> final(self).docs@.len() == old(self).docs@.len() + 1
                && final(self).docs@.drop_last() == old(self).docs@
                && final(self).docs@.last().name@ == name@
                && final(self).docs@.last().bytes@ == bytes@
                && graph_wf(final(self).docs@.last().doc),
            r matches Err(e) ==> final(self).docs@ == old(self).docs@ && (e matches
                MergeError::ParseFailed { name: n } && n@ == name@),
    {
        match load_document(bytes.as_slice()) {
            Ok(doc) => {
                self.docs.push(SourcePdf { name, bytes, doc });
                proof {
                    assert(self.docs@.drop_last() =~= old(self).docs@);
                }
                Ok(())
            },
            Err(_) => Err(MergeError::ParseFailed { name }),
        }
    }

    /// Merge every held graph into one, the first as the base: later
    /// graphs are renumbered past the running maximum, absorbed, and
    /// their pages appended, so the final Kids list is the
    /// concatenation of every input's pages in input order and no two
    /// inputs contribute a common id.
    #[verifier::loop_isolation(false)]
    #[verifier::rlimit(60)]
    pub fn merge_documents(&self) -> (r: Result<lopdf::Document, MergeError>)
        requires
            self.wf(),
            self.docs@.len() >= 2,
        ensures
            r matches Ok(m) ==> merged_shape(m, self.docs@) && doc_max_id(m) < u32::MAX - 1,
            doc_has_page_root(self.docs@[0].doc) && ids_fit(self.docs@) && inputs_sorted(
                self.docs@,
            ) ==> r is Ok,
            r matches Err(e) ==> (e is NoPageTree && !doc_has_page_root(self.docs@[0].doc)) || (
            e is IdSpaceExhausted && !ids_fit(self.docs@)) || (e matches MergeError::UnsortedPages {
                ..
            } && !inputs_sorted(self.docs@)),
    {
        let ghost docs = self.docs@;
        let mut merged = clone_document(&self.docs[0].doc);
        let mut kids: Vec<(u32, u16)> = document_pages(&merged);
        let mut maxid: u32 = document_max_id(&merged);
        if maxid >= u32::MAX - 1 {
            // No renumbering start is left above the base's maximum.
            proof {
                lemma_added_count_nonneg(docs.skip(1));
            }
            return Err(MergeError::IdSpaceExhausted);
        }
        let ghost mut segs: Seq<Seq<(u32, u16)>> = seq![doc_pages(docs[0].doc)];
        let ghost mut id_sets: Seq<Set<(u32, u16)>> = seq![doc_ids(docs[0].doc)];
        let ghost mut starts: Seq<u32> = seq![0u32];
        proof {
            assert(graph_wf(docs[0].doc));
            assert(kids@ =~= segs.flatten()) by {
                assert(segs.drop_first() =~= Seq::<Seq<(u32, u16)>>::empty());
                assert(segs.flatten() =~= segs.first() + segs.drop_first().flatten());
            }
            assert(union_all(id_sets) == union_all(id_sets.drop_last()).union(id_sets.last()));
            assert(id_sets.drop_last() =~= Seq::<Set<(u32, u16)>>::empty());
            assert(union_all(Seq::<Set<(u32, u16)>>::empty()) == Set::<(u32, u16)>::empty());
            assert(doc_ids(merged) =~= union_all(id_sets));
            assert(docs.subrange(1, 1) =~= Seq::<SourcePdf>::empty());
        }
        let n: usize = self.docs.len();
        let mut i: usize = 1;
        while i < n
            invariant
                1 <= i <= n,
                segs.len() == i,
                id_sets.len() == i,
                starts.len() == i,
                segs[0] == doc_pages(docs[0].doc),
                id_sets[0] == doc_ids(docs[0].doc),
                forall|j: int|
                    1 <= j < i ==> #[trigger] segs[j] == renumbered_pages(docs[j].doc, starts[j]),
                forall|j: int, k: int|
                    0 <= j < i && 0 <= k < segs[j].len() ==> id_sets[j].contains(
                        #[trigger] segs[j][k],
                    ),
                forall|j: int, l: int|
                    0 <= j < l < i ==> (#[trigger] id_sets[j]).disjoint(#[trigger] id_sets[l]),
                doc_ids(merged) == union_all(id_sets),
                doc_ids(merged).finite(),
                forall|id: (u32, u16)| doc_ids(merged).contains(id) ==> id.0 <= maxid,
                maxid < u32::MAX - 1,
                kids@ == segs.flatten(),
                doc_has_page_root(docs[0].doc) ==> doc_has_page_root(merged),
                maxid == doc_max_id(docs[0].doc) + added_object_count(docs.subrange(1, i as int)),
            decreases n - i,
        {
            let ghost maxid0 = maxid;
            let mut copy = clone_document(&self.docs[i].doc);
            let n_obj: usize = object_count(&copy);
            proof {
                assert(graph_wf(docs[i as int].doc));
                assert(docs.subrange(1, i as int + 1).drop_last() =~= docs.subrange(1, i as int));
                assert(docs.subrange(1, i as int + 1).last() == docs[i as int]);
            }
            let pg_check = document_pages(&copy);
            if !pages_ascending(&pg_check) {
                // This input cannot be renumbered without loss.
                assert(!spec_pages_ascending(doc_pages(docs[i as int].doc)));
                let nm = self.docs[i].name.clone();
                return Err(MergeError::UnsortedPages { name: nm });
            }
            if n_obj as u64 >= (u32::MAX as u64) - 1 - (maxid as u64) {
                proof {
                    lemma_added_count_prefix(docs.skip(1), i as int);
                    assert(docs.skip(1).take(i as int) =~= docs.subrange(1, i as int + 1));
                    lemma_added_count_nonneg(docs.skip(1));
                }
                return Err(MergeError::IdSpaceExhausted);
            }
            renumber_document(&mut copy, maxid + 1);
            maxid = document_max_id(&copy);
            proof {
                assert forall|x: (u32, u16)| doc_ids(merged).contains(x) implies !doc_ids(
                    copy,
                ).contains(x) by {}
                assert(doc_ids(merged).disjoint(doc_ids(copy)));
                assert forall|j: int| 0 <= j < i implies (#[trigger] id_sets[j]).disjoint(
                    doc_ids(copy),
                ) by {
                    lemma_union_all_member(id_sets, j);
                    assert forall|x: (u32, u16)| id_sets[j].contains(x) implies !doc_ids(
                        copy,
                    ).contains(x) by {
                        assert(union_all(id_sets).contains(x));
                        assert(doc_ids(merged).contains(x));
                    }
                }
            }
            absorb_objects(&mut merged, &copy);
            let mut pg = document_pages(&copy);
            kids.append(&mut pg);
            proof {
                let prev_segs = segs;
                let prev_sets = id_sets;
                let prev_starts = starts;
                segs = prev_segs.push(doc_pages(copy));
                id_sets = prev_sets.push(doc_ids(copy));
                starts = prev_starts.push((maxid0 + 1) as u32);
                assert(segs.drop_last() =~= prev_segs);
                assert(id_sets.drop_last() =~= prev_sets);
                assert(union_all(id_sets) == union_all(prev_sets).union(doc_ids(copy)));
                assert(forall|j: int| 0 <= j < i ==> id_sets[j] == prev_sets[j]);
                assert(forall|j: int| 0 <= j < i ==> segs[j] == prev_segs[j]);
                assert(forall|j: int| 0 <= j < i ==> starts[j] == prev_starts[j]);
                assert(segs[i as int] == renumbered_pages(docs[i as int].doc, starts[i as int]));
            }
            i = i + 1;
        }
        proof {
            assert(docs.subrange(1, n as int) =~= docs.skip(1));
        }
        set_document_max_id(&mut merged, maxid);
        let ok = replace_page_kids(&mut merged, &kids);
        if !ok {
            return Err(MergeError::NoPageTree);
        }
        proof {
            assert(merged_shape_with(merged, docs, segs, id_sets, starts));
        }
        Ok(merged)
    }

    /// The merged output bytes. With no input this fails with the
    /// nothing-to-merge error and produces nothing; with exactly one
    /// input the output is that artifact's own bytes, unchanged; with
    /// more, the serialized merged graph. Success is owed whenever the
    /// base has a page root, the id space fits and every later input's
    /// pages are in id order.
    pub fn save(&self) -> (r: Result<Vec<u8>, MergeError>)
        requires
            self.wf(),
        ensures
            self.docs@.len() == 0 ==> (r matches Err(e) && e is NothingToMerge),
            self.docs@.len() == 1 ==> (r matches Ok(b) && b@ == self.docs@[0].bytes@),
            self.docs@.len() >= 2 ==> (r matches Ok(b) ==> exists|m: lopdf::Document|
                merged_shape(m, self.docs@) && b@ == serialized_doc(m)),
            self.docs@.len() >= 2 && doc_has_page_root(self.docs@[0].doc) && ids_fit(self.docs@)
                && inputs_sorted(self.docs@) ==> r is Ok,
            self.docs@.len() >= 2 ==> (r matches Err(e) ==> (e is NoPageTree
                && !doc_has_page_root(self.docs@[0].doc)) || (e is IdSpaceExhausted && !ids_fit(
                self.docs@,
            )) || (e matches MergeError::UnsortedPages { .. } && !inputs_sorted(self.docs@))),
    {
        if self.docs.len() == 0 {
            return Err(MergeError::NothingToMerge);
        }
        if self.docs.len() == 1 {
            let b = self.docs[0].bytes.clone();
            return Ok(b);
        }
        let merged = self.merge_documents();
        match merged {
            Ok(mut m) => {
                let ghost shaped = m;
                let bytes = save_document(&mut m);
                assert(merged_shape(shaped, self.docs@) && bytes@ == serialized_doc(shaped));
                Ok(bytes)
            },
            Err(e) => Err(e),
        }
    }
}

impl Default for PdfMerger {
    fn default() -> (r: Self)
        ensures
            r.docs@.len() == 0,
            r.wf(),
    {
        PdfMerger::new()
    }
}

} // verus!
