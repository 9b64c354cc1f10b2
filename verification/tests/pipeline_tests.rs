use book2pdf::pipeline::{Action, Downloader, Event, PdfOptions, Phase, Pipeline};
use book2pdf::timeout::parse_timeout;

fn downloader() -> Downloader {
    Downloader::new("out".to_string(), true, false, 30000)
}

#[test]
fn default_print_options() {
    let o = PdfOptions::default();
    assert_eq!(o.scale_hundredths, 75);
    assert_eq!(o.margin_top_hundredths, 0);
    assert_eq!(o.margin_right_hundredths, 0);
    assert_eq!(o.margin_bottom_hundredths, 0);
    assert_eq!(o.margin_left_hundredths, 0);
}

#[test]
fn configuration_is_stored() {
    let d = Downloader::new("dir".to_string(), false, true, 5000);
    assert_eq!(d.out_dir, "dir");
    assert!(!d.combine);
    assert!(d.preserve_pages);
    assert_eq!(d.timeout_millis, 5000);
}

#[test]
fn unsupported_site_aborts_before_link_collection() {
    let mut p = Pipeline::new(downloader(), "https://blog.example.com".to_string());
    assert!(matches!(p.start(), Action::LaunchSession));
    assert!(matches!(p.step(Event::SessionLaunched { error: None }), Action::LoadRoot));
    assert!(matches!(p.step(Event::RootLoaded { error: None }), Action::Classify));
    match p.step(Event::Classified { supported: false }) {
        Action::Abort { message } => {
            assert_eq!(
                message,
                "Not a supported documentation website (GitBook or Docusaurus)"
            );
        }
        other => panic!("expected an abort, got {:?}", action_name(&other)),
    }
    assert!(matches!(p.phase, Phase::Failed));
    assert!(p.links.is_empty());
    assert!(p.artifacts.is_empty());
}

#[test]
fn launch_failure_aborts_with_the_cause() {
    let mut p = Pipeline::new(downloader(), "https://docs.example.com".to_string());
    p.start();
    let cause = "Failed to launch browser: no executable".to_string();
    match p.step(Event::SessionLaunched { error: Some(cause.clone()) }) {
        Action::Abort { message } => assert_eq!(message, cause),
        other => panic!("expected an abort, got {:?}", action_name(&other)),
    }
    assert!(matches!(p.phase, Phase::Failed));
}

#[test]
fn combine_failure_aborts_with_the_cause() {
    let mut p = Pipeline::new(downloader(), "https://docs.example.com".to_string());
    p.start();
    p.step(Event::SessionLaunched { error: None });
    p.step(Event::RootLoaded { error: None });
    p.step(Event::Classified { supported: true });
    p.step(Event::MenusExpanded);
    p.step(Event::LinksCollected { links: vec!["/a".to_string()] });
    p.step(Event::CoverRendered { ok: true });
    p.step(Event::PageRendered { ok: true });
    let cause = "No PDFs added to merge".to_string();
    match p.step(Event::Combined { error: Some(cause.clone()) }) {
        Action::Abort { message } => assert_eq!(message, cause),
        other => panic!("expected an abort, got {:?}", action_name(&other)),
    }
    assert!(matches!(p.phase, Phase::Failed));
}

#[test]
fn full_run_renders_combines_and_cleans_up() {
    let mut p = Pipeline::new(downloader(), "https://docs.example.com".to_string());
    p.start();
    assert!(matches!(p.step(Event::SessionLaunched { error: None }), Action::LoadRoot));
    assert!(matches!(p.step(Event::RootLoaded { error: None }), Action::Classify));
    assert!(matches!(p.step(Event::Classified { supported: true }), Action::ExpandMenus));
    assert!(matches!(p.step(Event::MenusExpanded), Action::CollectLinks));

    let links = vec!["/intro".to_string(), "/guide/setup".to_string()];
    match p.step(Event::LinksCollected { links }) {
        Action::RenderCover { path } => assert_eq!(path, "out/pages/01_cover.pdf"),
        other => panic!("expected the cover render, got {:?}", action_name(&other)),
    }

    match p.step(Event::CoverRendered { ok: true }) {
        Action::RenderPage { url, path } => {
            assert_eq!(url, "https://docs.example.com/intro");
            assert_eq!(path, "out/pages/02_intro.pdf");
        }
        other => panic!("expected a page render, got {:?}", action_name(&other)),
    }

    match p.step(Event::PageRendered { ok: true }) {
        Action::RenderPage { url, path } => {
            assert_eq!(url, "https://docs.example.com/guide/setup");
            assert_eq!(path, "out/pages/03_guide-setup.pdf");
        }
        other => panic!("expected a page render, got {:?}", action_name(&other)),
    }

    match p.step(Event::PageRendered { ok: true }) {
        Action::Combine { output } => {
            assert_eq!(output, "out/docs-example-com-combined.pdf");
        }
        other => panic!("expected the combine step, got {:?}", action_name(&other)),
    }

    match p.step(Event::Combined { error: None }) {
        Action::Cleanup { paths, pages_dir } => {
            assert_eq!(
                paths,
                vec![
                    "out/pages/01_cover.pdf".to_string(),
                    "out/pages/02_intro.pdf".to_string(),
                    "out/pages/03_guide-setup.pdf".to_string(),
                ]
            );
            assert_eq!(pages_dir, "out/pages/");
        }
        other => panic!("expected the cleanup step, got {:?}", action_name(&other)),
    }

    assert!(matches!(p.step(Event::CleanedUp), Action::Finish));
    assert!(matches!(p.phase, Phase::Finished));
}

#[test]
fn failed_renders_are_skipped() {
    let mut p = Pipeline::new(downloader(), "https://docs.example.com".to_string());
    p.start();
    p.step(Event::SessionLaunched { error: None });
    p.step(Event::RootLoaded { error: None });
    p.step(Event::Classified { supported: true });
    p.step(Event::MenusExpanded);
    p.step(Event::LinksCollected { links: vec!["/only".to_string()] });
    // The cover fails: the run continues without a cover artifact.
    match p.step(Event::CoverRendered { ok: false }) {
        Action::RenderPage { path, .. } => assert_eq!(path, "out/pages/02_only.pdf"),
        other => panic!("expected a page render, got {:?}", action_name(&other)),
    }
    assert!(p.artifacts.is_empty());
    // The only page fails too: nothing to combine, the run finishes.
    assert!(matches!(p.step(Event::PageRendered { ok: false }), Action::Finish));
    assert!(matches!(p.phase, Phase::Finished));
}

#[test]
fn preserved_pages_skip_cleanup() {
    let cfg = Downloader::new("out".to_string(), true, true, 30000);
    let mut p = Pipeline::new(cfg, "https://docs.example.com".to_string());
    p.start();
    p.step(Event::SessionLaunched { error: None });
    p.step(Event::RootLoaded { error: None });
    p.step(Event::Classified { supported: true });
    p.step(Event::MenusExpanded);
    p.step(Event::LinksCollected { links: vec!["/a".to_string()] });
    p.step(Event::CoverRendered { ok: true });
    p.step(Event::PageRendered { ok: true });
    assert!(matches!(p.step(Event::Combined { error: None }), Action::Finish));
    assert!(matches!(p.phase, Phase::Finished));
}

#[test]
fn no_combine_finishes_after_rendering() {
    let cfg = Downloader::new("out".to_string(), false, false, 30000);
    let mut p = Pipeline::new(cfg, "https://docs.example.com".to_string());
    p.start();
    p.step(Event::SessionLaunched { error: None });
    p.step(Event::RootLoaded { error: None });
    p.step(Event::Classified { supported: true });
    p.step(Event::MenusExpanded);
    p.step(Event::LinksCollected { links: vec!["/a".to_string()] });
    p.step(Event::CoverRendered { ok: true });
    assert!(matches!(p.step(Event::PageRendered { ok: true }), Action::Finish));
}

#[test]
fn validation_happens_before_any_network_action() {
    // A run never starts with an invalid timeout: the validator
    // rejects it up front.
    let r = parse_timeout("-5");
    assert_eq!(r, Err("Must be zero or positive number.".to_string()));
}

fn action_name(a: &Action) -> &'static str {
    match a {
        Action::LaunchSession => "LaunchSession",
        Action::LoadRoot => "LoadRoot",
        Action::Classify => "Classify",
        Action::ExpandMenus => "ExpandMenus",
        Action::CollectLinks => "CollectLinks",
        Action::RenderCover { .. } => "RenderCover",
        Action::RenderPage { .. } => "RenderPage",
        Action::Combine { .. } => "Combine",
        Action::Cleanup { .. } => "Cleanup",
        Action::Finish => "Finish",
        Action::Abort { .. } => "Abort",
    }
}
