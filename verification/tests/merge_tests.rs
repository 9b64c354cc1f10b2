use book2pdf::merge::{MergeError, PdfMerger};
use lopdf::{Dictionary, Document, Object, Stream};

/// A minimal one-page document whose content stream holds `marker`.
fn one_page_pdf(marker: &[u8]) -> Vec<u8> {
    let mut doc = Document::with_version("1.5");
    let pages_id = doc.new_object_id();
    let content_id = doc.add_object(Object::Stream(Stream::new(
        Dictionary::new(),
        marker.to_vec(),
    )));
    let mut page = Dictionary::new();
    page.set("Type", Object::Name(b"Page".to_vec()));
    page.set("Parent", Object::Reference(pages_id));
    page.set("Contents", Object::Reference(content_id));
    let page_id = doc.add_object(Object::Dictionary(page));
    let mut pages = Dictionary::new();
    pages.set("Type", Object::Name(b"Pages".to_vec()));
    pages.set("Kids", Object::Array(vec![Object::Reference(page_id)]));
    pages.set("Count", Object::Integer(1));
    pages.set(
        "MediaBox",
        Object::Array(vec![
            Object::Integer(0),
            Object::Integer(0),
            Object::Integer(612),
            Object::Integer(792),
        ]),
    );
    doc.objects.insert(pages_id, Object::Dictionary(pages));
    let mut catalog = Dictionary::new();
    catalog.set("Type", Object::Name(b"Catalog".to_vec()));
    catalog.set("Pages", Object::Reference(pages_id));
    let catalog_id = doc.add_object(Object::Dictionary(catalog));
    doc.trailer.set("Root", Object::Reference(catalog_id));
    let mut out = Vec::new();
    doc.save_to(&mut out).expect("write test document");
    out
}

/// A loadable document whose catalog has no page tree.
fn rootless_pdf() -> Vec<u8> {
    let mut doc = Document::with_version("1.5");
    let mut catalog = Dictionary::new();
    catalog.set("Type", Object::Name(b"Catalog".to_vec()));
    let catalog_id = doc.add_object(Object::Dictionary(catalog));
    doc.trailer.set("Root", Object::Reference(catalog_id));
    let mut out = Vec::new();
    doc.save_to(&mut out).expect("write test document");
    out
}

#[test]
fn empty_merger_has_nothing_to_merge() {
    let merger = PdfMerger::new();
    let r = merger.save();
    match r {
        Err(e) => {
            assert!(matches!(e, MergeError::NothingToMerge));
            assert_eq!(e.message(), "No PDFs added to merge");
        }
        Ok(_) => panic!("merging nothing must fail"),
    }
}

#[test]
fn single_artifact_passes_through_unchanged() {
    let bytes = one_page_pdf(b"only");
    let mut merger = PdfMerger::new();
    merger
        .add_pdf("01_only.pdf".to_string(), bytes.clone())
        .expect("artifact parses");
    let out = merger.save().expect("single merge succeeds");
    assert_eq!(out, bytes);
}

#[test]
fn three_single_page_artifacts_merge_in_order() {
    let a = one_page_pdf(b"marker-alpha");
    let b = one_page_pdf(b"marker-beta");
    let c = one_page_pdf(b"marker-gamma");
    let mut merger = PdfMerger::new();
    merger.add_pdf("01_a.pdf".to_string(), a).expect("a parses");
    merger.add_pdf("02_b.pdf".to_string(), b).expect("b parses");
    merger.add_pdf("03_c.pdf".to_string(), c).expect("c parses");
    let out = merger.save().expect("merge succeeds");

    let merged = Document::load_mem(&out).expect("output parses");
    let pages = merged.get_pages();
    assert_eq!(pages.len(), 3);

    // The page-tree root lists three kids and a matching count.
    let catalog = merged.catalog().expect("catalog");
    let pages_id = match catalog.get(b"Pages").expect("pages ref") {
        Object::Reference(id) => *id,
        other => panic!("unexpected Pages entry: {:?}", other),
    };
    let root = match merged.get_object(pages_id).expect("page tree root") {
        Object::Dictionary(d) => d,
        other => panic!("unexpected page tree root: {:?}", other),
    };
    match root.get(b"Kids").expect("kids") {
        Object::Array(kids) => assert_eq!(kids.len(), 3),
        other => panic!("unexpected Kids entry: {:?}", other),
    }
    match root.get(b"Count").expect("count") {
        Object::Integer(n) => assert_eq!(*n, 3),
        other => panic!("unexpected Count entry: {:?}", other),
    }

    // Page order is A's page, then B's, then C's.
    let ids: Vec<_> = pages.values().cloned().collect();
    let contents: Vec<Vec<u8>> = ids.iter().map(|id| merged.get_page_content(*id)).collect();
    assert!(contents[0].starts_with(b"marker-alpha"));
    assert!(contents[1].starts_with(b"marker-beta"));
    assert!(contents[2].starts_with(b"marker-gamma"));

    // No id collision: the three page objects are pairwise distinct.
    assert!(ids[0] != ids[1] && ids[0] != ids[2] && ids[1] != ids[2]);
}

#[test]
fn merged_ids_stay_disjoint_for_larger_inputs() {
    let mut merger = PdfMerger::new();
    for i in 0..4 {
        let marker = format!("marker-{}", i);
        let bytes = one_page_pdf(marker.as_bytes());
        merger.add_pdf(format!("{:02}_p.pdf", i + 1), bytes).expect("parses");
    }
    let out = merger.save().expect("merge succeeds");
    let merged = Document::load_mem(&out).expect("output parses");
    let pages = merged.get_pages();
    assert_eq!(pages.len(), 4);
    // Every input's page survives under its own id, in input order.
    let ids: Vec<_> = pages.values().cloned().collect();
    for i in 0..4 {
        let marker = format!("marker-{}", i);
        assert!(merged.get_page_content(ids[i]).starts_with(marker.as_bytes()));
        for j in 0..i {
            assert_ne!(ids[i], ids[j]);
        }
    }
}

#[test]
fn unparseable_artifact_is_reported_and_skipped() {
    let mut merger = PdfMerger::new();
    let r = merger.add_pdf("junk.pdf".to_string(), b"not a pdf at all".to_vec());
    match r {
        Err(e) => assert_eq!(e.message(), "Failed to parse PDF file junk.pdf"),
        Ok(_) => panic!("junk must not parse"),
    }
    // The failed artifact left the merger unchanged.
    let bytes = one_page_pdf(b"fine");
    merger.add_pdf("01_fine.pdf".to_string(), bytes.clone()).expect("parses");
    assert_eq!(merger.save().expect("single merge"), bytes);
}

/// A two-page document whose Kids list the higher page id first.
fn unsorted_pages_pdf() -> Vec<u8> {
    let mut doc = Document::with_version("1.5");
    let pages_id = doc.new_object_id();
    let mut page_ids = Vec::new();
    for marker in ["first", "second"] {
        let content_id = doc.add_object(Object::Stream(Stream::new(
            Dictionary::new(),
            marker.as_bytes().to_vec(),
        )));
        let mut page = Dictionary::new();
        page.set("Type", Object::Name(b"Page".to_vec()));
        page.set("Parent", Object::Reference(pages_id));
        page.set("Contents", Object::Reference(content_id));
        page_ids.push(doc.add_object(Object::Dictionary(page)));
    }
    let mut pages = Dictionary::new();
    pages.set("Type", Object::Name(b"Pages".to_vec()));
    pages.set(
        "Kids",
        Object::Array(vec![
            Object::Reference(page_ids[1]),
            Object::Reference(page_ids[0]),
        ]),
    );
    pages.set("Count", Object::Integer(2));
    doc.objects.insert(pages_id, Object::Dictionary(pages));
    let mut catalog = Dictionary::new();
    catalog.set("Type", Object::Name(b"Catalog".to_vec()));
    catalog.set("Pages", Object::Reference(pages_id));
    let catalog_id = doc.add_object(Object::Dictionary(catalog));
    doc.trailer.set("Root", Object::Reference(catalog_id));
    let mut out = Vec::new();
    doc.save_to(&mut out).expect("write test document");
    out
}

#[test]
fn unsorted_input_pages_are_rejected() {
    let mut merger = PdfMerger::new();
    merger
        .add_pdf("01_base.pdf".to_string(), one_page_pdf(b"base"))
        .expect("parses");
    merger
        .add_pdf("02_mixed.pdf".to_string(), unsorted_pages_pdf())
        .expect("parses");
    match merger.save() {
        Err(e) => {
            assert!(matches!(e, MergeError::UnsortedPages { .. }));
            assert_eq!(e.message(), "Pages out of id order in 02_mixed.pdf");
        }
        Ok(_) => panic!("an unsorted later input must be rejected"),
    }
}

#[test]
fn base_without_page_tree_is_rejected() {
    let mut merger = PdfMerger::new();
    merger.add_pdf("01_a.pdf".to_string(), rootless_pdf()).expect("parses");
    merger.add_pdf("02_b.pdf".to_string(), rootless_pdf()).expect("parses");
    match merger.save() {
        Err(e) => {
            assert!(matches!(e, MergeError::NoPageTree));
            assert_eq!(e.message(), "No page tree in base PDF");
        }
        Ok(_) => panic!("a rootless base must be rejected"),
    }
}
