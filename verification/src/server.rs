//! The decisions of the preview server and its file watcher: which
//! request path maps to which emitted file, and which filesystem events
//! warrant a rebuild. The HTTP and watcher plumbing lives outside the
//! library.

use vstd::prelude::*;

verus! {

use crate::error::Error;
use crate::strutil::ext_of;
use crate::strutil::split_on;
use crate::strutil::split_char;
use crate::strutil::strip_prefix;
use crate::strutil::strip_prefix_spec;
use crate::strutil::str_eq;
use crate::strutil::starts_with_char;
use crate::strutil::substr_string;
use crate::strutil::concat2;
use crate::workspace::post::SimplePostSite;
use crate::workspace::post::map_of;
use vstd::string::StrSliceExecFns;

/// Whether a changed path warrants a rebuild: it must lie under the
/// root, and none of its relative components may start with `.`.
pub open spec fn spec_should_rebuild(rel: Seq<char>) -> bool {
    forall|j: int| 0 <= j < split_on(rel, '/').len() ==> !((#[trigger] split_on(rel, '/')[j]).len()
        > 0 && split_on(rel, '/')[j][0] == '.')
}

/// Decides whether a watcher event at `path` should trigger a rebuild.
/// The path must lie under the canonicalized workspace root; hidden
/// components suppress the rebuild.
pub fn should_rebuild_for_path(path: &str, root_path: &str) -> (r: Result<bool, Error>)
    ensures
        match r {
            Ok(b) => match strip_prefix_spec(path@, root_path@) {
                Some(rel) => b == spec_should_rebuild(rel),
                None => false,
            },
            Err(e) => e == Error::StripPrefix && strip_prefix_spec(path@, root_path@) is None,
        },
{
    broadcast use crate::strutil::lemma_views_index;

    let rel = match strip_prefix(path, root_path) {
        Some(rel) => rel,
        None => {
            return Err(Error::StripPrefix);
        },
    };
    let comps = split_char(rel.as_str(), '/');
    let mut i: usize = 0;
    while i < comps.len()
        invariant
            i <= comps@.len(),
            strip_prefix_spec(path@, root_path@) == Some(rel@),
            crate::strutil::views(comps@) == split_on(rel@, '/'),
            forall|j: int| 0 <= j < i ==> !((#[trigger] split_on(rel@, '/')[j]).len() > 0
                && split_on(rel@, '/')[j][0] == '.'),
        decreases comps.len() - i,
    {
        if starts_with_char(comps[i].as_str(), '.') {
            proof {
                assert(split_on(rel@, '/')[i as int].len() > 0 && split_on(rel@, '/')[i as int][0]
                    == '.');
            }
            return Ok(false);
        }
        i += 1;
    }
    Ok(true)
}

/// What the server would respond for a stripped request path: the bytes
/// at the path itself, else the bytes at `path/index.html`, each with a
/// flag telling whether the found path ends in `.html`.
pub open spec fn spec_lookup(m: Map<Seq<char>, Seq<u8>>, rel: Seq<char>) -> Option<
    (Seq<u8>, bool),
> {
    let with_index = if rel.len() == 0 {
        "index.html"@
    } else {
        rel + seq!['/'] + "index.html"@
    };
    if m.contains_key(rel) {
        Some((m[rel], ext_of(split_on(rel, '/').last()) == Some("html"@)))
    } else if m.contains_key(with_index) {
        Some((m[with_index], true))
    } else {
        None
    }
}

impl SimplePostSite {
    /// The bytes at `path` of this emitted site, if any: first the path
    /// itself, then `path/index.html`; the flag tells whether the found
    /// path ends in `.html`.
    pub fn lookup(&self, rel_path: &str) -> (r: Option<(&Vec<u8>, bool)>)
        requires
            crate::workspace::post::paths_unique(crate::asset::entry_views(self.files@)),
        ensures
            match r {
                Some((content, is_html)) => spec_lookup(map_of(self.files@), rel_path@) == Some(
                    (content@, is_html),
                ),
                None => spec_lookup(map_of(self.files@), rel_path@) is None,
            },
    {
        let ghost m = map_of(self.files@);
        match self.find_file(rel_path) {
            Some(content) => {
                let comps = split_char(rel_path, '/');
                proof {
                    crate::strutil::lemma_split_on_len(rel_path@, '/');
                    crate::strutil::lemma_views_index(comps@, comps@.len() - 1);
                }
                let last = &comps[comps.len() - 1];
                let is_html = match crate::strutil::file_ext(last.as_str()) {
                    Some(e) => {
                        proof {
                            reveal_strlit("html");
                        }
                        str_eq(e.as_str(), "html")
                    },
                    None => false,
                };
                Some((content, is_html))
            },
            None => {
                let with_index: String = if rel_path.unicode_len() == 0 {
                    let s: String = "index.html".to_owned();
                    proof {
                        reveal_strlit("index.html");
                    }
                    s
                } else {
                    let s = concat2(rel_path, "/index.html");
                    proof {
                        reveal_strlit("/index.html");
                        reveal_strlit("index.html");
                        assert(("/index.html")@ =~= seq!['/'] + ("index.html")@);
                        assert(s@ =~= rel_path@ + seq!['/'] + ("index.html")@);
                    }
                    s
                };
                match self.find_file(with_index.as_str()) {
                    Some(content) => Some((content, true)),
                    None => None,
                }
            },
        }
    }

    /// The bytes stored at exactly `path`, if any.
    fn find_file(&self, path: &str) -> (r: Option<&Vec<u8>>)
        requires
            crate::workspace::post::paths_unique(crate::asset::entry_views(self.files@)),
        ensures
            match r {
                Some(content) => map_of(self.files@).contains_key(path@) && map_of(self.files@)[
                    path@] == content@,
                None => !map_of(self.files@).contains_key(path@),
            },
    {
        broadcast use crate::asset::lemma_entry_views_index;

        let n = self.files.len();
        let mut i: usize = 0;
        while i < n
            invariant
                i <= n,
                n == self.files@.len(),
                crate::workspace::post::paths_unique(crate::asset::entry_views(self.files@)),
                forall|j: int| 0 <= j < i ==> (#[trigger] crate::asset::entry_views(
                    self.files@,
                )[j]).0 != path@,
            decreases n - i,
        {
            let e = &self.files[i];
            if str_eq(e.0.as_str(), path) {
                proof {
                    lemma_map_of_found(crate::asset::entry_views(self.files@), i as int);
                }
                return Some(&e.1);
            }
            i += 1;
        }
        proof {
            crate::workspace::post::lemma_fold_puts_not_contains(
                crate::asset::entry_views(self.files@),
                path@,
            );
        }
        None
    }
}

/// In a unique-path entry list, the mapping holds exactly each entry.
proof fn lemma_map_of_found(s: Seq<(Seq<char>, Seq<u8>)>, i: int)
    requires
        crate::workspace::post::paths_unique(s),
        0 <= i < s.len(),
    ensures
        crate::workspace::post::fold_puts(s).contains_key(s[i].0),
        crate::workspace::post::fold_puts(s)[s[i].0] == s[i].1,
    decreases s.len(),
{
    if i == s.len() - 1 {
        assert(s.last() == s[i]);
    } else {
        let t = s.drop_last();
        assert forall|a: int, b: int| 0 <= a < b < t.len() implies (#[trigger] t[a]).0 != (
        #[trigger] t[b]).0 by {
            assert(t[a] == s[a]);
            assert(t[b] == s[b]);
        }
        assert(t[i] == s[i]);
        lemma_map_of_found(t, i);
        assert(s[s.len() - 1].0 != s[i].0);
    }
}

} // verus!
