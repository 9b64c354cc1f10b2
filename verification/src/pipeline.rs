//! The run orchestrator as a state machine: a thin driver performs
//! each returned action against the remote session and feeds the
//! outcome back as an event. Session launch failure, a root-navigation
//! failure, an unsupported classification and a failed combine abort
//! the run; a failed cover or page render is skipped; everything else
//! advances.

use vstd::prelude::*;

use crate::chartext::spec_two_digit;
use crate::slugs::{
    artifact_file_name, combined_file_name, href_to_slug, out_path, page_path, spec_domain_slug,
    spec_href_to_slug,
};
use crate::urls::{host_of, resolve_url, url_host};

verus! {

/// The fixed print configuration handed to the renderer, in
/// hundredths: the default is scale 0.75 with all margins 0.
#[derive(PartialEq, Eq, Structural, Clone, Copy, Debug)]
pub struct PdfOptions {
    /// Render scale, hundredths of one.
    pub scale_hundredths: u32,
    /// Top margin, hundredths of an inch.
    pub margin_top_hundredths: u32,
    /// Right margin, hundredths of an inch.
    pub margin_right_hundredths: u32,
    /// Bottom margin, hundredths of an inch.
    pub margin_bottom_hundredths: u32,
    /// Left margin, hundredths of an inch.
    pub margin_left_hundredths: u32,
}

impl Default for PdfOptions {
    /// The fixed default print configuration.
    fn default() -> (r: Self)
        ensures
            r.scale_hundredths == 75,
            r.margin_top_hundredths == 0,
            r.margin_right_hundredths == 0,
            r.margin_bottom_hundredths == 0,
            r.margin_left_hundredths == 0,
    {
        PdfOptions {
            scale_hundredths: 75,
            margin_top_hundredths: 0,
            margin_right_hundredths: 0,
            margin_bottom_hundredths: 0,
            margin_left_hundredths: 0,
        }
    }
}

/// The configuration of one download run.
pub struct Downloader {
    /// Where artifacts are written.
    pub out_dir: String,
    /// Whether the merge step runs after rendering.
    pub combine: bool,
    /// Whether per-page artifacts survive a successful combine.
    pub preserve_pages: bool,
    /// The validated request timeout, in milliseconds.
    pub timeout_millis: u64,
    /// The print configuration for every render.
    pub pdf_options: PdfOptions,
}

impl Downloader {
    /// A run configuration with the fixed default print options.
    pub fn new(out_dir: String, combine: bool, preserve_pages: bool, timeout_millis: u64) -> (r:
        Self)
        ensures
            r.out_dir@ == out_dir@,
            r.combine == combine,
            r.preserve_pages == preserve_pages,
            r.timeout_millis == timeout_millis,
            r.pdf_options.scale_hundredths == 75,
            r.pdf_options.margin_top_hundredths == 0,
            r.pdf_options.margin_right_hundredths == 0,
            r.pdf_options.margin_bottom_hundredths == 0,
            r.pdf_options.margin_left_hundredths == 0,
    {
        Downloader {
            out_dir,
            combine,
            preserve_pages,
            timeout_millis,
            pdf_options: PdfOptions::default(),
        }
    }
}

/// Where the run stands.
#[derive(PartialEq, Eq, Structural, Clone, Copy, Debug)]
pub enum Phase {
    /// Waiting for the session to come up.
    Launching,
    /// Waiting for the root address to load.
    LoadingRoot,
    /// Waiting for the classification verdict.
    Classifying,
    /// Waiting for the menu expansion attempt.
    Expanding,
    /// Waiting for the collected links.
    Collecting,
    /// Waiting for the cover render.
    RenderingCover,
    /// Waiting for the current page render.
    RenderingPages,
    /// Waiting for the combine outcome.
    Combining,
    /// Waiting for the cleanup pass.
    CleaningUp,
    /// The run ended successfully.
    Finished,
    /// The run aborted.
    Failed,
}

/// What the driver reports back after performing an action.
pub enum Event {
    /// The session came up, or the wrapped cause of the failure.
    SessionLaunched { error: Option<String> },
    /// The root address loaded, or the wrapped cause of the failure.
    RootLoaded { error: Option<String> },
    /// The classifier's verdict on the rendered root.
    Classified { supported: bool },
    /// The expansion pass was attempted; it carries no success signal.
    MenusExpanded,
    /// The ordered, deduplicated internal addresses.
    LinksCollected { links: Vec<String> },
    /// The cover artifact was written, or not.
    CoverRendered { ok: bool },
    /// The current page artifact was written, or not.
    PageRendered { ok: bool },
    /// The combine step wrote the output, or the wrapped cause of the
    /// failure.
    Combined { error: Option<String> },
    /// The cleanup pass ran; its failures are advisory.
    CleanedUp,
}

/// What the driver is asked to do next.
pub enum Action {
    /// Open the session and navigate to the target address.
    LaunchSession,
    /// Load the root address in a page.
    LoadRoot,
    /// Render the root's DOM and classify it.
    Classify,
    /// Activate every collapsed navigation element, best effort.
    ExpandMenus,
    /// Extract the ordered internal addresses from the DOM.
    CollectLinks,
    /// Render the synthesized cover to the given path.
    RenderCover { path: String },
    /// Render one page to the given path.
    RenderPage { url: String, path: String },
    /// Merge the rendered artifacts into the given output.
    Combine { output: String },
    /// Delete the per-page artifacts and the pages directory when it
    /// ends up empty.
    Cleanup { paths: Vec<String>, pages_dir: String },
    /// The run is over.
    Finish,
    /// The run aborted with the given message.
    Abort { message: String },
}

/// The site host a combine output is named after: the parsed host,
/// or the fixed fallback token when the address has none.
pub open spec fn spec_host_or_default(h: Option<Option<Seq<char>>>) -> Seq<char> {
    match h {
        Some(hh) => match hh {
            Some(name) => name,
            None => "gitbook"@,
        },
        None => Seq::empty(),
    }
}

/// The filename ordinal of the page at one-based issue position `p`:
/// the page after the cover carries ordinal 2. A position beyond the
/// ordinal range saturates.
pub open spec fn spec_ordinal(p: int) -> int {
    if p + 1 <= u64::MAX {
        p + 1
    } else {
        u64::MAX as int
    }
}

/// One run in progress.
pub struct Pipeline {
    /// The run configuration.
    pub cfg: Downloader,
    /// The address the run was started with.
    pub target_url: String,
    /// Where the run stands.
    pub phase: Phase,
    /// The collected page addresses, in navigation order.
    pub links: Vec<String>,
    /// How many collected addresses have been issued for rendering.
    pub next_link: usize,
    /// The paths of the artifacts rendered so far, in order.
    pub artifacts: Vec<String>,
}

impl Pipeline {
    /// Nothing is collected or rendered before the link-collection
    /// phase completes, and issued links never outrun the collection.
    pub open spec fn inv(self) -> bool {
        &&& self.next_link <= self.links@.len()
        &&& (self.phase is Launching || self.phase is LoadingRoot || self.phase is Classifying
            || self.phase is Expanding || self.phase is Collecting) ==> self.links@.len() == 0
            && self.artifacts@.len() == 0
        &&& self.phase is RenderingCover ==> self.artifacts@.len() == 0 && self.next_link == 0
        &&& self.phase is RenderingPages ==> self.next_link >= 1
    }

    /// Which event a phase waits for.
    pub open spec fn expects(self, ev: Event) -> bool {
        match self.phase {
            Phase::Launching => ev is SessionLaunched,
            Phase::LoadingRoot => ev is RootLoaded,
            Phase::Classifying => ev is Classified,
            Phase::Expanding => ev is MenusExpanded,
            Phase::Collecting => ev is LinksCollected,
            Phase::RenderingCover => ev is CoverRendered,
            Phase::RenderingPages => ev is PageRendered,
            Phase::Combining => ev is Combined,
            Phase::CleaningUp => ev is CleanedUp,
            Phase::Finished => false,
            Phase::Failed => false,
        }
    }

    /// A fresh run waiting for its session.
    pub fn new(cfg: Downloader, target_url: String) -> (r: Self)
        ensures
            r.cfg.out_dir@ == cfg.out_dir@,
            r.cfg.combine == cfg.combine,
            r.cfg.preserve_pages == cfg.preserve_pages,
            r.target_url@ == target_url@,
            r.phase is Launching,
            r.inv(),
    {
        Pipeline { cfg, target_url, phase: Phase::Launching, links: Vec::new(), next_link: 0, artifacts: Vec::new() }
    }

    /// The first action of a run.
    pub fn start(&self) -> (a: Action)
        requires
            self.phase is Launching,
        ensures
            a is LaunchSession,
    {
        Action::LaunchSession
    }

    /// Issue the render of the next collected address whose URL
    /// resolves, or move on to combining or finishing when none is
    /// left. The ordinal of the page at index `i` is `i + 2`: the
    /// cover holds ordinal 1.
    #[verifier::loop_isolation(false)]
    fn advance_rendering(&mut self) -> (a: Action)
        requires
            old(self).next_link <= old(self).links@.len(),
            old(self).phase is RenderingCover || old(self).phase is RenderingPages,
            old(self).phase is RenderingPages ==> old(self).next_link >= 1,
        ensures
            final(self).inv(),
            final(self).links@ == old(self).links@,
            final(self).artifacts@ == old(self).artifacts@,
            final(self).cfg == old(self).cfg,
            final(self).target_url == old(self).target_url,
            a matches Action::RenderPage { url, path } ==> {
                &&& final(self).phase is RenderingPages
                &&& old(self).next_link < final(self).next_link <= final(self).links@.len()
                &&& url@ == crate::urls::joined_url(
                    final(self).target_url@,
                    final(self).links@[final(self).next_link - 1]@,
                ).unwrap()
                &&& path@ == final(self).cfg.out_dir@ + "/pages/"@ + spec_two_digit(
                    spec_ordinal(final(self).next_link as int),
                ) + "_"@ + spec_href_to_slug(final(self).links@[final(self).next_link - 1]@)
                    + ".pdf"@
                &&& forall|j: int|
                    old(self).next_link <= j < final(self).next_link - 1
                        ==> crate::urls::joined_url(
                        final(self).target_url@,
                        #[trigger] final(self).links@[j]@,
                    ) is None
            },
            a is Combine || a is Finish ==> final(self).next_link == final(self).links@.len() && (
            forall|j: int|
                old(self).next_link <= j < final(self).links@.len() ==> crate::urls::joined_url(
                    final(self).target_url@,
                    #[trigger] final(self).links@[j]@,
                ) is None),
            a is Combine ==> final(self).phase is Combining && final(self).cfg.combine && final(self).artifacts@.len() > 0,
            a matches Action::Combine { output } ==> host_of(final(self).target_url@) is Some
                && output@ == final(self).cfg.out_dir@ + "/"@ + spec_domain_slug(
                spec_host_or_default(host_of(final(self).target_url@)),
            ) + "-combined.pdf"@,
            a is Abort ==> final(self).phase is Failed && host_of(final(self).target_url@)
                is None && final(self).next_link == final(self).links@.len() && final(self).cfg.combine && final(self).artifacts@.len() > 0,
            a is Finish ==> final(self).phase is Finished && (!final(self).cfg.combine || final(self).artifacts@.len() == 0),
            (a is RenderPage || a is Combine || a is Finish || a is Abort),
    {
        loop
            invariant
                self.next_link <= self.links@.len(),
                self.phase is RenderingCover || self.phase is RenderingPages,
                self.phase is RenderingPages ==> self.next_link >= 1,
                old(self).next_link <= self.next_link,
                self.links@ == old(self).links@,
                self.artifacts@ == old(self).artifacts@,
                self.cfg == old(self).cfg,
                self.target_url == old(self).target_url,
                forall|j: int|
                    old(self).next_link <= j < self.next_link ==> crate::urls::joined_url(
                        self.target_url@,
                        #[trigger] self.links@[j]@,
                    ) is None,
            decreases self.links@.len() - self.next_link,
        {
            if self.next_link >= self.links.len() {
                // Every address has been issued.
                if self.cfg.combine && self.artifacts.len() > 0 {
                    let host = match url_host(self.target_url.as_str()) {
                        Some(h) => match h {
                            Some(hh) => hh,
                            None => String::from_str("gitbook"),
                        },
                        None => {
                            self.phase = Phase::Failed;
                            return Action::Abort {
                                message: String::from_str("Failed to parse URL"),
                            };
                        },
                    };
                    let file = combined_file_name(host.as_str());
                    let output = out_path(self.cfg.out_dir.as_str(), file.as_str());
                    self.phase = Phase::Combining;
                    return Action::Combine { output };
                }
                self.phase = Phase::Finished;
                return Action::Finish;
            }
            let i = self.next_link;
            let href = self.links[i].clone();
            self.next_link = i + 1;
            match resolve_url(self.target_url.as_str(), href.as_str()) {
                Some(url) => {
                    let slug = href_to_slug(href.as_str());
                    let ordinal: u64 = if i as u64 <= u64::MAX - 2 {
                        i as u64 + 2
                    } else {
                        u64::MAX
                    };
                    let file = artifact_file_name(ordinal, slug.as_str());
                    let path = page_path(self.cfg.out_dir.as_str(), file.as_str());
                    self.phase = Phase::RenderingPages;
                    return Action::RenderPage { url, path };
                },
                None => {
                    // The address does not resolve: skip this page.
                    assert(crate::urls::joined_url(self.target_url@, self.links@[i as int]@)
                        is None);
                    self.phase = Phase::RenderingPages;
                },
            }
        }
    }

    /// Apply one reported outcome and decide the next action.
    #[verifier::loop_isolation(false)]
    pub fn step(&mut self, ev: Event) -> (a: Action)
        requires
            old(self).inv(),
            old(self).expects(ev),
        ensures
            final(self).inv(),
            final(self).cfg == old(self).cfg,
            final(self).target_url == old(self).target_url,
            // A launch or root-navigation failure aborts the run with
            // the wrapped cause it was handed.
            ev matches Event::SessionLaunched { error: Some(d) } ==> final(self).phase is Failed
                && (a matches Action::Abort { message } && message@ == d@),
            ev matches Event::SessionLaunched { error: None } ==> final(self).phase is LoadingRoot
                && a is LoadRoot,
            ev matches Event::RootLoaded { error: Some(d) } ==> final(self).phase is Failed && (
            a matches Action::Abort { message } && message@ == d@),
            ev matches Event::RootLoaded { error: None } ==> final(self).phase is Classifying
                && a is Classify,
            ev is MenusExpanded ==> final(self).phase is Collecting && a is CollectLinks,
            // An unsupported site aborts the run before any link is
            // collected or any artifact rendered.
            ev matches Event::Classified { supported: false } ==> final(self).phase is Failed && (
            a matches Action::Abort { message } && message@
                == "Not a supported documentation website (GitBook or Docusaurus)"@) && final(self).links@.len() == 0 && final(self).artifacts@.len() == 0,
            // A supported site moves on to menu expansion, still
            // before any link collection.
            ev matches Event::Classified { supported: true } ==> final(self).phase is Expanding
                && a is ExpandMenus && final(self).links@.len() == 0,
            // The collected links are stored as handed in, and the
            // cover render is issued at the reserved ordinal.
            ev matches Event::LinksCollected { links } ==> final(self).links@ == links@ && final(self).phase is RenderingCover && (a matches Action::RenderCover { path } && path@ == final(self).cfg.out_dir@ + "/pages/"@ + "01_cover.pdf"@),
            // A successful render appends exactly its artifact's path;
            // a failed one is skipped and the run continues.
            ev matches Event::CoverRendered { ok } ==> (ok ==> final(self).artifacts@.len() == 1
                && final(self).artifacts@[0]@ == final(self).cfg.out_dir@ + "/pages/"@
                + "01_cover.pdf"@) && (!ok ==> final(self).artifacts@.len() == 0),
            ev matches Event::PageRendered { ok } ==> (ok ==> final(self).artifacts@.len() == old(self).artifacts@.len() + 1 && final(self).artifacts@.drop_last() == old(self).artifacts@
                && final(self).artifacts@.last()@ == old(self).cfg.out_dir@ + "/pages/"@
                + spec_two_digit(spec_ordinal(old(self).next_link as int)) + "_"@
                + spec_href_to_slug(old(self).links@[old(self).next_link - 1]@) + ".pdf"@) && (!ok
                ==> final(self).artifacts@ == old(self).artifacts@),
            // After a render outcome the run keeps moving: the next
            // resolvable address is issued at its ordinal, skipping
            // only unresolvable ones; with none left it combines
            // exactly when combining is on and artifacts exist, and
            // finishes otherwise.
            // Render outcomes never touch the collected list and only
            // move forward through it.
            (ev is CoverRendered || ev is PageRendered) ==> (a is RenderPage || a is Combine
                || a is Finish || a is Abort) && final(self).links@ == old(self).links@ && old(self).next_link <= final(self).next_link,
            a matches Action::RenderPage { url, path } ==> {
                &&& final(self).phase is RenderingPages
                &&& old(self).next_link < final(self).next_link <= final(self).links@.len()
                &&& url@ == crate::urls::joined_url(
                    final(self).target_url@,
                    final(self).links@[final(self).next_link - 1]@,
                ).unwrap()
                &&& path@ == final(self).cfg.out_dir@ + "/pages/"@ + spec_two_digit(
                    spec_ordinal(final(self).next_link as int),
                ) + "_"@ + spec_href_to_slug(final(self).links@[final(self).next_link - 1]@)
                    + ".pdf"@
                &&& forall|j: int|
                    old(self).next_link <= j < final(self).next_link - 1
                        ==> crate::urls::joined_url(
                        final(self).target_url@,
                        #[trigger] final(self).links@[j]@,
                    ) is None
            },
            a is Combine ==> final(self).phase is Combining && final(self).cfg.combine && final(self).artifacts@.len() > 0 && final(self).next_link == final(self).links@.len(),
            a matches Action::Combine { output } ==> host_of(final(self).target_url@) is Some
                && output@ == final(self).cfg.out_dir@ + "/"@ + spec_domain_slug(
                spec_host_or_default(host_of(final(self).target_url@)),
            ) + "-combined.pdf"@,
            (ev is CoverRendered || ev is PageRendered) && a is Finish ==> final(self).phase is Finished && (!final(self).cfg.combine || final(self).artifacts@.len() == 0) && final(self).next_link == final(self).links@.len(),
            // An abort on a render outcome happens only at combine
            // time, when the target address yields no host to name the
            // output after: the whole list was issued, combining is
            // on, and artifacts exist.
            (ev is CoverRendered || ev is PageRendered) && a is Abort ==> final(self).phase is Failed && host_of(final(self).target_url@) is None && final(self).next_link == final(self).links@.len() && final(self).cfg.combine && final(self).artifacts@.len() > 0,
            // A failed combine aborts with the wrapped cause; a
            // successful one cleans up unless pages are preserved.
            ev matches Event::Combined { error: Some(d) } ==> final(self).phase is Failed && (
            a matches Action::Abort { message } && message@ == d@),
            ev matches Event::Combined { error: None } ==> (old(self).cfg.preserve_pages ==> final(self).phase is Finished && a is Finish) && (!old(self).cfg.preserve_pages ==> final(self).phase is CleaningUp && (a matches Action::Cleanup { paths, pages_dir } && paths.deep_view()
                == old(self).artifacts.deep_view() && pages_dir@ == old(self).cfg.out_dir@
                + "/pages/"@)),
            ev is CleanedUp ==> final(self).phase is Finished && a is Finish,
    {
        match ev {
            Event::SessionLaunched { error } => {
                match error {
                    None => {
                        self.phase = Phase::LoadingRoot;
                        Action::LoadRoot
                    },
                    Some(d) => {
                        self.phase = Phase::Failed;
                        Action::Abort { message: d }
                    },
                }
            },
            Event::RootLoaded { error } => {
                match error {
                    None => {
                        self.phase = Phase::Classifying;
                        Action::Classify
                    },
                    Some(d) => {
                        self.phase = Phase::Failed;
                        Action::Abort { message: d }
                    },
                }
            },
            Event::Classified { supported } => {
                if supported {
                    self.phase = Phase::Expanding;
                    Action::ExpandMenus
                } else {
                    self.phase = Phase::Failed;
                    Action::Abort {
                        message: String::from_str(
                            "Not a supported documentation website (GitBook or Docusaurus)",
                        ),
                    }
                }
            },
            Event::MenusExpanded => {
                self.phase = Phase::Collecting;
                Action::CollectLinks
            },
            Event::LinksCollected { links } => {
                self.links = links;
                self.next_link = 0;
                self.phase = Phase::RenderingCover;
                let file = String::from_str("01_cover.pdf");
                let path = page_path(self.cfg.out_dir.as_str(), file.as_str());
                proof {
                    reveal_strlit("01_cover.pdf");
                }
                Action::RenderCover { path }
            },
            Event::CoverRendered { ok } => {
                if ok {
                    let file = String::from_str("01_cover.pdf");
                    let path = page_path(self.cfg.out_dir.as_str(), file.as_str());
                    self.artifacts.push(path);
                }
                self.advance_rendering()
            },
            Event::PageRendered { ok } => {
                if ok {
                    // Recompute the path of the page just issued.
                    let i = self.next_link - 1;
                    let href = self.links[i].clone();
                    let slug = href_to_slug(href.as_str());
                    let ordinal: u64 = if i as u64 <= u64::MAX - 2 {
                        i as u64 + 2
                    } else {
                        u64::MAX
                    };
                    let file = artifact_file_name(ordinal, slug.as_str());
                    let path = page_path(self.cfg.out_dir.as_str(), file.as_str());
                    self.artifacts.push(path);
                    proof {
                        assert(self.artifacts@.drop_last() =~= old(self).artifacts@);
                    }
                }
                self.advance_rendering()
            },
            Event::Combined { error } => {
                if error.is_none() {
                    if self.cfg.preserve_pages {
                        self.phase = Phase::Finished;
                        Action::Finish
                    } else {
                        self.phase = Phase::CleaningUp;
                        let empty = String::new();
                        let pages_dir = page_path(self.cfg.out_dir.as_str(), empty.as_str());
                        proof {
                            assert(pages_dir@ =~= self.cfg.out_dir@ + "/pages/"@);
                        }
                        let paths = self.artifacts.clone();
                        proof {
                            assert forall|i: int|
                                0 <= i < paths@.len() implies paths.deep_view()[i] == old(self).artifacts.deep_view()[i] by {
                                assert(cloned::<String>(self.artifacts@[i], paths@[i]));
                            }
                            assert(paths.deep_view() =~= old(self).artifacts.deep_view());
                        }
                        Action::Cleanup { paths, pages_dir }
                    }
                } else {
                    self.phase = Phase::Failed;
                    let d = match error {
                        Some(d) => d,
                        None => String::new(),
                    };
                    Action::Abort { message: d }
                }
            },
            Event::CleanedUp => {
                self.phase = Phase::Finished;
                Action::Finish
            },
        }
    }
}

} // verus!
