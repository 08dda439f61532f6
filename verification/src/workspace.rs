//! The staged workspace snapshots: metadatad (discovered), rendered,
//! full, and post. Each stage is a function of the previous one; the
//! rendered stage may reuse documents of a prior snapshot when nothing
//! about them changed.

pub mod full;
pub mod metadatad;
pub mod post;
pub mod rendered;

pub use self::full::FullDocument;
pub use self::full::FullSite;
pub use self::full::FullSpec;
pub use self::full::FullSpecSite;
pub use self::full::FullWorkspace;
pub use self::metadatad::MetadatadSite;
pub use self::metadatad::MetadatadWorkspace;
pub use self::post::SimplePostSite;
pub use self::post::SimplePostWorkspace;
pub use self::rendered::RenderedSite;
pub use self::rendered::RenderedWorkspace;
