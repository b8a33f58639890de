//! Builds an ordered content tree from a build manifest, what a walk of the
//! file system found, and the converted documents.
//!
//! A build has four verified stages, each a function of plain values:
//!
//! 1. [`manifest::Options::parse`] reads the manifest, given as tokens, into a
//!    build configuration; [`arg::parse_pandoc_options`] decodes its option
//!    list into typed converter options.
//! 2. [`tree::FsTree::construct`] orders what the walk found under a root, so
//!    that the tree does not depend on enumeration order.
//! 3. [`pipeline::plan_jobs`] lists every discovered document once, and
//!    [`results::Collector`] takes the reports of the conversion jobs in any
//!    order of arrival into a table keyed by path.
//! 4. [`generator::generate_content_tree`] assembles the content tree from the
//!    manifest's elements, the ordered trees and the table.
//!
//! [`pipeline::pandoc_compile_html`] runs stages 2 to 4 in one call. Walking
//! the file system and running the converter are left to the caller.
//!
//! What holds of every build is stated and proved in [`laws`] and [`order`];
//! [`example`] derives the content tree of one small build from the
//! definitions.

pub mod arg;
pub mod error;
pub mod example;
pub mod generator;
pub mod keyword;
pub mod laws;
pub mod manifest;
pub mod options;
pub mod order;
pub mod pipeline;
pub mod results;
pub mod text;
pub mod token;
pub mod tree;
