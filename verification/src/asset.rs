//! The workspace-wide asset store: every file under the `_assets`
//! `css`, `font` and `js` subtrees, keyed by its path relative to
//! `_assets`. The template engine that also lives under `_assets` is
//! loaded by the shell outside the library.

use vstd::prelude::*;

verus! {

/// The in-memory assets of a workspace.
#[derive(Debug)]
pub struct AssetStore {
    pub assets: Vec<(String, Vec<u8>)>,
}

/// The views of a sequence of path/bytes pairs.
pub open spec fn entry_views(s: Seq<(String, Vec<u8>)>) -> Seq<(Seq<char>, Seq<u8>)> {
    s.map_values(|e: (String, Vec<u8>)| (e.0@, e.1@))
}

pub broadcast proof fn lemma_entry_views_index(s: Seq<(String, Vec<u8>)>, i: int)
    requires
        0 <= i < s.len(),
    ensures
        #[trigger] entry_views(s)[i] == (s[i].0@, s[i].1@),
{
}

impl AssetStore {
    /// Wraps the asset entries the shell collected.
    pub fn new(assets: Vec<(String, Vec<u8>)>) -> (r: AssetStore)
        ensures
            r.assets@ == assets@,
    {
        AssetStore { assets }
    }
}

} // verus!
