//! The rendered stage. Conversion itself runs outside (the external
//! converters); this module holds the reuse decision and the snapshot.
//! A document is carried over from a prior snapshot exactly when its
//! site metadata and its document metadata equal the prior ones by
//! value; carried-over documents are value-identical to the prior ones,
//! so reuse cannot change a single byte of the snapshot.

use vstd::prelude::*;

verus! {

use crate::document::DocumentMetadata;
use crate::document::RenderedDocument;
use crate::file::FileMetadata;
use crate::site::SiteMetadata;
use crate::strutil::str_eq;

/// One rendered site.
#[derive(Debug)]
pub struct RenderedSite {
    pub site: SiteMetadata,
    pub documents: Vec<RenderedDocument>,
    pub files: Vec<FileMetadata>,
}

/// One rendered workspace.
#[derive(Debug)]
pub struct RenderedWorkspace {
    pub root_path: String,
    pub sites: Vec<RenderedSite>,
}

/// Index of the first rendered document with the given relative source
/// path, if any.
pub open spec fn first_doc_index(docs: Seq<RenderedDocument>, rel: Seq<char>) -> Option<int>
    decreases docs.len(),
{
    if docs.len() == 0 {
        None
    } else if docs[0].metadata.rel_source_path@ == rel {
        Some(0int)
    } else {
        match first_doc_index(docs.drop_first(), rel) {
            None => None,
            Some(i) => Some(i + 1),
        }
    }
}

pub proof fn lemma_first_doc_index(docs: Seq<RenderedDocument>, rel: Seq<char>)
    ensures
        match first_doc_index(docs, rel) {
            None => forall|j: int| 0 <= j < docs.len() ==> (#[trigger] docs[j]).metadata.rel_source_path@
                != rel,
            Some(i) => 0 <= i < docs.len() && docs[i].metadata.rel_source_path@ == rel && (
            forall|j: int| 0 <= j < i ==> (#[trigger] docs[j]).metadata.rel_source_path@ != rel),
        },
    decreases docs.len(),
{
    if docs.len() > 0 && docs[0].metadata.rel_source_path@ != rel {
        lemma_first_doc_index(docs.drop_first(), rel);
        assert forall|j: int| 1 <= j < docs.len() implies docs[j] == docs.drop_first()[j - 1] by {}
    }
}

impl RenderedSite {
    /// Assembles a rendered site.
    pub fn new(site: SiteMetadata, documents: Vec<RenderedDocument>, files: Vec<FileMetadata>) -> (r:
        RenderedSite)
        ensures
            r.site@ == site@,
            r.documents@ == documents@,
            r.files@ == files@,
    {
        RenderedSite { site, documents, files }
    }

    /// The first document of this snapshot with the given relative
    /// source path.
    pub fn find_document(&self, rel_source_path: &str) -> (r: Option<&RenderedDocument>)
        ensures
            match r {
                None => first_doc_index(self.documents@, rel_source_path@) is None,
                Some(d) => exists|i: int|
                    first_doc_index(self.documents@, rel_source_path@) == Some(i) && *d
                        == self.documents@[i],
            },
    {
        let n = self.documents.len();
        let mut i: usize = 0;
        while i < n
            invariant
                i <= n,
                n == self.documents@.len(),
                forall|j: int| 0 <= j < i ==> (#[trigger] self.documents@[j]).metadata.rel_source_path@
                    != rel_source_path@,
            decreases n - i,
        {
            let d = &self.documents[i];
            if str_eq(d.metadata.rel_source_path.as_str(), rel_source_path) {
                proof {
                    lemma_first_doc_index(self.documents@, rel_source_path@);
                }
                return Some(d);
            }
            i += 1;
        }
        proof {
            lemma_first_doc_index(self.documents@, rel_source_path@);
        }
        None
    }
}

impl RenderedWorkspace {
    /// Assembles a rendered workspace.
    pub fn new(root_path: &str, sites: Vec<RenderedSite>) -> (r: RenderedWorkspace)
        ensures
            r.root_path@ == root_path@,
            r.sites@ == sites@,
    {
        RenderedWorkspace { root_path: root_path.to_owned(), sites }
    }
}

/// The incremental-reuse decision: a prior rendered document stands in
/// for re-rendering exactly when the site metadata and the document
/// metadata are value-equal to the prior snapshot's. A reused document
/// is returned as a value-identical copy, so a snapshot built from
/// reused documents is byte-equal to one re-rendered from scratch under
/// the same conversion; a caller renders only where this returns
/// nothing.
pub fn reuse_document(
    site: &SiteMetadata,
    document: &DocumentMetadata,
    old: Option<&RenderedDocument>,
) -> (r: Option<RenderedDocument>)
    ensures
        match r {
            Some(d) => match old {
                Some(o) => d@ == o@ && d@.site_metadata == site@ && d@.metadata == document@,
                None => false,
            },
            None => match old {
                None => true,
                Some(o) => !(o@.site_metadata == site@ && o@.metadata == document@),
            },
        },
{
    match old {
        Some(o) => {
            if o.site_metadata.same(site) && o.metadata.same(document) {
                Some(o.duplicate())
            } else {
                None
            }
        },
        None => None,
    }
}

} // verus!
