//! Discovery. The shell walks the workspace; this module holds the
//! decisions: which entries are visited, which files are documents, and
//! what the resulting snapshot is.

use vstd::prelude::*;

verus! {

use crate::document::DocumentMetadata;
use crate::document::DocumentType;
use crate::document::spec_type_of_extension;
use crate::file::FileMetadata;
use crate::site::SiteMetadata;
use crate::strutil::ext_of;
use crate::strutil::file_ext;
use crate::strutil::split_char;
use crate::strutil::split_on;
use crate::strutil::str_eq;
use crate::strutil::starts_with_char;
use crate::strutil::views;
use vstd::string::StrSliceExecFns;

/// Whether discovery descends into or records a directory entry: `_posts`
/// directories are accepted, every other name starting with `.` or `_`
/// is rejected.
pub open spec fn spec_entry_accepted(name: Seq<char>, is_dir: bool) -> bool {
    if name == "_posts"@ && is_dir {
        true
    } else {
        !(name.len() > 0 && (name[0] == '.' || name[0] == '_'))
    }
}

/// The discovery filter on one directory entry.
pub fn site_entry_filter(file_name: &str, is_dir: bool) -> (r: bool)
    ensures
        r == spec_entry_accepted(file_name@, is_dir),
{
    if str_eq(file_name, "_posts") && is_dir {
        return true;
    }
    if starts_with_char(file_name, '.') || starts_with_char(file_name, '_') {
        proof {
            if file_name@ == "_posts"@ && is_dir {
                assert(false);
            }
        }
        return false;
    }
    true
}

/// Whether a workspace subfolder is considered a site: its name starts
/// with neither `.` nor `_`.
pub fn workspace_site_filter(file_name: &str) -> (r: bool)
    ensures
        r == !(file_name@.len() > 0 && (file_name@[0] == '.' || file_name@[0] == '_')),
{
    !(starts_with_char(file_name, '.') || starts_with_char(file_name, '_'))
}

/// The markup family of the file at `path`, judged by the extension of
/// its final path component.
pub open spec fn spec_classify(path: Seq<char>) -> Option<DocumentType> {
    match ext_of(split_on(path, '/').last()) {
        None => None,
        Some(e) => match spec_type_of_extension(e) {
            Ok(t) => Some(t),
            Err(_) => None,
        },
    }
}

/// Classifies a file path as a document of some markup family, or an
/// asset.
pub fn classify_extension(path: &str) -> (r: Option<DocumentType>)
    ensures
        r == spec_classify(path@),
{
    let comps = split_char(path, '/');
    proof {
        crate::strutil::lemma_split_on_len(path@, '/');
        crate::strutil::lemma_views_index(comps@, comps@.len() - 1);
        assert(views(comps@).last() == comps@[comps@.len() - 1]@);
    }
    let last = &comps[comps.len() - 1];
    match file_ext(last.as_str()) {
        None => None,
        Some(e) => match DocumentType::try_from(e.as_str()) {
            Ok(t) => Some(t),
            Err(_) => None,
        },
    }
}

/// One discovered site: its metadata, documents and asset files.
#[derive(Debug)]
pub struct MetadatadSite {
    pub site: SiteMetadata,
    pub documents: Vec<DocumentMetadata>,
    pub files: Vec<FileMetadata>,
}

impl MetadatadSite {
    /// Assembles a discovered site from what the walk produced.
    pub fn new(site: SiteMetadata, documents: Vec<DocumentMetadata>, files: Vec<FileMetadata>) -> (r:
        MetadatadSite)
        ensures
            r.site@ == site@,
            r.documents@ == documents@,
            r.files@ == files@,
    {
        MetadatadSite { site, documents, files }
    }
}

/// One discovered workspace: its root and its sites.
#[derive(Debug)]
pub struct MetadatadWorkspace {
    pub root_path: String,
    pub sites: Vec<MetadatadSite>,
}

impl MetadatadWorkspace {
    /// Assembles a discovered workspace.
    pub fn new(root_path: &str, sites: Vec<MetadatadSite>) -> (r: MetadatadWorkspace)
        ensures
            r.root_path@ == root_path@,
            r.sites@ == sites@,
    {
        MetadatadWorkspace { root_path: root_path.to_owned(), sites }
    }
}

} // verus!
