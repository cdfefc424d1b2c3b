//! A static-site build pipeline: it turns a directory of authored documents
//! (Markdown, plus a secondary typeset format) into rendered HTML pages and
//! derived metadata, and keeps a served copy of the site in sync as sources
//! change.
//!
//! The heart of the library is a set of tag-balanced HTML post-processing
//! scanners (title extraction, tag removal, length-bounded summarization,
//! asset-reference discovery), together with the classification, assembly and
//! rebuild logic around them.

pub mod bloginfo;
pub mod build_plan;
pub mod chars;
pub mod classify;
pub mod content;
pub mod frontmatter;
pub mod giscus;
pub mod highlight;
pub mod inject;
pub mod post;
pub mod refs;
pub mod remove;
pub mod site;
pub mod summary;
pub mod tags;
pub mod timestamps;
pub mod watch;

