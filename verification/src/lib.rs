//! Turn a published documentation website into a single offline PDF.
//!
//! The crate holds the decision-making core of the tool: site
//! classification, ordered link collection, slug and filename
//! derivation, command-line value validation, the page-artifact merge
//! over PDF object graphs, and the orchestration state machine that a
//! thin driver runs against a remote browser session.

pub mod chartext;
pub mod classify;
pub mod cover;
pub mod dom;
pub mod links;
pub mod merge;
pub mod pipeline;
pub mod plan;
pub mod slugs;
pub mod timeout;
pub mod urls;

pub use merge::PdfMerger;
pub use pipeline::Downloader;
pub use pipeline::PdfOptions;
