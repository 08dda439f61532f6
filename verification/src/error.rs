use vstd::prelude::*;

verus! {

/// The failures the pipeline logic can report. Failures of the surrounding
/// shell (I/O, child processes, template rendering) are mapped onto
/// `RunCommandFailed` or wrapped outside the library.
#[derive(Clone, Copy, PartialEq, Eq, Structural, Debug)]
pub enum Error {
    /// A path component was not valid Unicode.
    PathContainNonUnicode,
    /// A path component was empty, `.` or `..` where a plain name is required.
    InvalidPathComponent,
    /// An external converter exited unsuccessfully.
    RunCommandFailed,
    /// A path did not start with the expected prefix.
    StripPrefix,
    /// A site directory used the reserved name `specs`.
    ReservedSiteName,
    /// A site's `url` or `base_url` did not end with `/`.
    MalformedSiteConfig,
    /// The requested site is not part of the workspace.
    SiteNotExist,
    /// A document was missing from the sitemap when its local
    /// navigation was derived.
    DocumentNotFound,
    /// A placeholder used a variable name other than the supported ones,
    /// or lacked a required argument.
    UnsupportedVariable,
    /// An `XREFLINK` argument did not name any document of the site.
    UnresolvedXreflink,
}

} // verus!
