//! Non-document assets discovered inside a site: carried through the
//! pipeline verbatim and emitted at their site-relative path.

use vstd::prelude::*;

verus! {

use crate::site::SiteMetadata;
use crate::site::SiteMetadataView;
use crate::strutil::clone_string;

/// The mathematical value of an asset file.
#[verifier::ext_equal]
pub ghost struct FileView {
    pub site: SiteMetadataView,
    pub path: Seq<char>,
    pub source_path: Seq<char>,
    pub content: Seq<u8>,
    pub modified: u128,
}

/// One asset file of a site: its site, site-relative path, absolute
/// source path, bytes, and modification time.
#[derive(Debug)]
pub struct FileMetadata {
    pub site: SiteMetadata,
    pub path: String,
    pub source_path: String,
    pub content: Vec<u8>,
    pub modified: u128,
}

impl View for FileMetadata {
    type V = FileView;

    open spec fn view(&self) -> FileView {
        FileView {
            site: self.site@,
            path: self.path@,
            source_path: self.source_path@,
            content: self.content@,
            modified: self.modified,
        }
    }
}

impl FileMetadata {
    /// A copy holding the same values.
    pub fn duplicate(&self) -> (r: FileMetadata)
        ensures
            r@ == self@,
    {
        let mut content: Vec<u8> = Vec::new();
        let mut i: usize = 0;
        while i < self.content.len()
            invariant
                i <= self.content@.len(),
                content@ =~= self.content@.take(i as int),
            decreases self.content.len() - i,
        {
            content.push(self.content[i]);
            proof {
                assert(content@ =~= self.content@.take(i + 1));
            }
            i += 1;
        }
        proof {
            assert(self.content@.take(self.content@.len() as int) =~= self.content@);
        }
        let r = FileMetadata {
            site: self.site.duplicate(),
            path: clone_string(&self.path),
            source_path: clone_string(&self.source_path),
            content,
            modified: self.modified,
        };
        proof {
            assert(r@ =~~= self@);
        }
        r
    }
}

} // verus!
