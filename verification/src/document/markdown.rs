//! The structured output of the Markdown converter.

use vstd::prelude::*;

verus! {

/// Everything the Markdown converter reports for one document.
#[derive(Debug)]
pub struct MarkdownOutput {
    pub title: String,
    pub description: String,
    pub description_content: String,
    pub order: Option<usize>,
    pub content: String,
    pub toc: String,
    pub id: Option<String>,
    pub sitemap_title: Option<String>,
}

} // verus!
