use book2pdf::plan::{has_pdf_extension, plan_merge, PlanError};

#[test]
fn extension_check() {
    assert!(has_pdf_extension("01_cover.pdf"));
    assert!(has_pdf_extension("a.pdf"));
    assert!(!has_pdf_extension(".pdf"));
    assert!(!has_pdf_extension("cover.PDF"));
    assert!(!has_pdf_extension("notes.txt"));
    assert!(!has_pdf_extension("pdf"));
}

#[test]
fn files_merge_in_lexicographic_order() {
    let names = vec![
        "02_foo.pdf".to_string(),
        "01_cover.pdf".to_string(),
        "10_bar.pdf".to_string(),
    ];
    let plan = plan_merge("output/pages", true, &names).expect("plan succeeds");
    assert_eq!(
        plan,
        vec![
            "01_cover.pdf".to_string(),
            "02_foo.pdf".to_string(),
            "10_bar.pdf".to_string(),
        ]
    );
}

#[test]
fn non_documents_are_filtered_out() {
    let names = vec![
        "readme.md".to_string(),
        "03_c.pdf".to_string(),
        "01_a.pdf".to_string(),
        "thumbs.db".to_string(),
    ];
    let plan = plan_merge("d", true, &names).expect("plan succeeds");
    assert_eq!(plan, vec!["01_a.pdf".to_string(), "03_c.pdf".to_string()]);
}

#[test]
fn missing_directory_is_an_error() {
    let r = plan_merge("output/pages", false, &Vec::new());
    match r {
        Err(e) => {
            assert!(matches!(e, PlanError::MissingDirectory { .. }));
            assert_eq!(e.message(), "Input directory 'output/pages' does not exist");
        }
        Ok(_) => panic!("a missing directory must fail"),
    }
}

#[test]
fn directory_without_documents_is_an_error() {
    let names = vec!["readme.md".to_string()];
    let r = plan_merge("output/pages", true, &names);
    match r {
        Err(e) => {
            assert!(matches!(e, PlanError::NoPdfFiles { .. }));
            assert_eq!(e.message(), "No PDF files found in 'output/pages'");
        }
        Ok(_) => panic!("an empty directory must fail"),
    }
}
