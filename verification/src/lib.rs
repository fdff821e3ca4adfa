//! A verified core for a static-site compiler: frontmatter extraction,
//! a single-pass rewrite of a document's token stream (heading anchors,
//! admonition callouts, rendered mathematics), directory aggregation into a
//! typed tree, and deterministic index ordering.

pub mod date;
pub mod frontmatter;
pub mod index;
pub mod text;
pub mod tree;
pub mod transform;
