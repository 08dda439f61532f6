//! The structured output of the AsciiDoc converter, as handed to the
//! library after the external process has run and its standard output has
//! been decoded.

use vstd::prelude::*;

verus! {

/// Everything the AsciiDoc converter reports for one document.
#[derive(Debug)]
pub struct AsciiDocOutput {
    pub document: AsciiDocOutputDocument,
    pub specs: Vec<AsciiDocOutputSpec>,
}

/// The converted document itself.
#[derive(Debug)]
pub struct AsciiDocOutputDocument {
    pub title: String,
    pub license: Option<String>,
    pub license_code: Option<String>,
    pub author: Option<String>,
    pub email: Option<String>,
    pub order: Option<usize>,
    pub toc: Option<String>,
    pub created: Option<String>,
    pub description: String,
    pub content: String,
}

/// One spec block the converter recognized inside the document.
#[derive(Debug)]
pub struct AsciiDocOutputSpec {
    pub id: String,
    pub description: String,
    pub discuss: String,
    pub source_path: String,
    pub anchor: String,
}

} // verus!
