//! The structured output of the Org converter.

use vstd::prelude::*;

verus! {

/// Everything the Org converter reports for one document.
#[derive(Debug)]
pub struct OrgOutput {
    pub title: String,
    pub description: String,
    pub description_content: String,
    pub order: Option<usize>,
    pub content: String,
    pub toc: String,
}

} // verus!
