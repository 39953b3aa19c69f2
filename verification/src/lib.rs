//! Scrapbox-to-Markdown conversion, verified.
//!
//! A Scrapbox page is an ordered list of text lines.  The converter walks the
//! lines once, tracking which multi-line block (code fence, table) is open,
//! and rewrites inline markup (headings, bold, links, images, list indents)
//! into standard Markdown.

pub mod block;
pub mod converter;
pub mod inline;
pub mod laws;
pub mod pattern;
pub mod request;
pub mod sbtype;
pub mod strutil;
