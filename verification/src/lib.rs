//! A static site generator core: derives document identities from source
//! paths, builds hierarchical sitemaps, binds template contexts, resolves
//! cross-reference placeholders, and flattens every site into a ready-to-write
//! file tree. All stage transformations are verified; the surrounding shell
//! (filesystem walking, external converters, template rendering, serving)
//! feeds this library plain values.

pub mod document;
pub mod asset;
pub mod error;
pub mod file;
pub mod layout;
pub mod server;
pub mod site;
pub mod sitemap;
pub mod strutil;
pub mod variable;
pub mod workspace;
pub mod xref;

pub use crate::error::Error;
