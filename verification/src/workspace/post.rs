//! The post stage: every site flattened into a plain mapping from file
//! path to bytes, ready to be written to disk. Assets come first, then
//! the site's own files, then the documents; a later write to the same
//! path wins, and the emitted path set holds each path once.

use vstd::prelude::*;

verus! {

use crate::asset::entry_views;
use crate::document::spec_path;
use crate::error::Error;
use crate::file::FileMetadata;
use crate::site::SiteName;
use crate::strutil::clone_string;
use crate::strutil::str_eq;
use crate::workspace::full::FullDocument;
use crate::workspace::full::FullWorkspace;
use vstd::string::StrSliceExecFns;
use vstd::string::StringSliceAdditionalSpecFns;
use vstd::utf8::encode_utf8;

/// The mapping a sequence of writes denotes: each pair inserted in
/// order, later writes overriding earlier ones.
pub open spec fn fold_puts(s: Seq<(Seq<char>, Seq<u8>)>) -> Map<Seq<char>, Seq<u8>>
    decreases s.len(),
{
    if s.len() == 0 {
        Map::empty()
    } else {
        fold_puts(s.drop_last()).insert(s.last().0, s.last().1)
    }
}

/// Whether the paths of an entry sequence are pairwise distinct.
pub open spec fn paths_unique(s: Seq<(Seq<char>, Seq<u8>)>) -> bool {
    forall|i: int, j: int| 0 <= i < j < s.len() ==> (#[trigger] s[i]).0 != (#[trigger] s[j]).0
}

/// The mapping an emitted site denotes.
pub open spec fn map_of(s: Seq<(String, Vec<u8>)>) -> Map<Seq<char>, Seq<u8>> {
    fold_puts(entry_views(s))
}

pub proof fn lemma_fold_puts_not_contains(s: Seq<(Seq<char>, Seq<u8>)>, k: Seq<char>)
    requires
        forall|j: int| 0 <= j < s.len() ==> (#[trigger] s[j]).0 != k,
    ensures
        !fold_puts(s).contains_key(k),
    decreases s.len(),
{
    if s.len() > 0 {
        assert forall|j: int| 0 <= j < s.drop_last().len() implies (#[trigger] s.drop_last()[j]).0
            != k by {
            assert(s.drop_last()[j] == s[j]);
        }
        lemma_fold_puts_not_contains(s.drop_last(), k);
    }
}

pub proof fn lemma_fold_puts_remove(s: Seq<(Seq<char>, Seq<u8>)>, i: int)
    requires
        paths_unique(s),
        0 <= i < s.len(),
    ensures
        fold_puts(s.remove(i)) =~= fold_puts(s).remove(s[i].0),
    decreases s.len(),
{
    let p = s[i].0;
    if i == s.len() - 1 {
        assert(s.remove(i) =~= s.drop_last());
        assert forall|j: int| 0 <= j < s.drop_last().len() implies (#[trigger] s.drop_last()[j]).0
            != p by {
            assert(s.drop_last()[j] == s[j]);
        }
        lemma_fold_puts_not_contains(s.drop_last(), p);
        assert(fold_puts(s) == fold_puts(s.drop_last()).insert(p, s.last().1));
        assert(fold_puts(s).remove(p) =~= fold_puts(s.drop_last()));
    } else {
        let t = s.drop_last();
        assert forall|a: int, b: int| 0 <= a < b < t.len() implies (#[trigger] t[a]).0 != (
        #[trigger] t[b]).0 by {
            assert(t[a] == s[a]);
            assert(t[b] == s[b]);
        }
        assert(t[i] == s[i]);
        lemma_fold_puts_remove(t, i);
        assert(s.remove(i).drop_last() =~= t.remove(i));
        assert(s.remove(i).last() == s.last());
        assert(fold_puts(s.remove(i)) == fold_puts(t.remove(i)).insert(s.last().0, s.last().1));
        assert(s.last().0 != p) by {
            assert(s[s.len() - 1].0 != s[i].0);
        }
        assert(fold_puts(t.remove(i)).insert(s.last().0, s.last().1) =~= fold_puts(t).remove(
            p,
        ).insert(s.last().0, s.last().1));
        assert(fold_puts(t).remove(p).insert(s.last().0, s.last().1) =~= fold_puts(t).insert(
            s.last().0,
            s.last().1,
        ).remove(p));
    }
}

/// Writes `path -> content` into the entry list: replacing the entry
/// that holds the path already, else appending. Path uniqueness is kept
/// and the denoted mapping gains exactly this binding.
pub fn insert_file(files: &mut Vec<(String, Vec<u8>)>, path: String, content: Vec<u8>)
    requires
        paths_unique(entry_views(old(files)@)),
    ensures
        paths_unique(entry_views(final(files)@)),
        map_of(final(files)@) == map_of(old(files)@).insert(path@, content@),
        fold_puts(entry_views(final(files)@)).dom() =~= fold_puts(
            entry_views(old(files)@),
        ).dom().insert(path@),
{
    broadcast use crate::asset::lemma_entry_views_index;

    let n = files.len();
    let mut i: usize = 0;
    while i < n
        invariant
            i <= n,
            n == files@.len(),
            paths_unique(entry_views(files@)),
            files@ == old(files)@,
            forall|j: int| 0 <= j < i ==> (#[trigger] entry_views(files@)[j]).0 != path@,
        decreases n - i,
    {
        if str_eq(files[i].0.as_str(), path.as_str()) {
            let ghost pre = entry_views(files@);
            let _old_entry = files.remove(i);
            proof {
                assert(entry_views(files@) =~= pre.remove(i as int));
                lemma_fold_puts_remove(pre, i as int);
            }
            let ghost mid = entry_views(files@);
            files.push((path, content));
            proof {
                assert(entry_views(files@) =~= mid.push((path@, content@)));
                assert(entry_views(files@).drop_last() =~= mid);
                assert(entry_views(files@).last() == (path@, content@));
                assert(fold_puts(entry_views(files@)) == fold_puts(mid).insert(path@, content@));
                assert(fold_puts(mid).insert(path@, content@) =~= fold_puts(pre).insert(
                    path@,
                    content@,
                ));
                assert forall|a: int, b: int|
                    0 <= a < b < entry_views(files@).len() implies (#[trigger] entry_views(
                    files@,
                )[a]).0 != (#[trigger] entry_views(files@)[b]).0 by {
                    if b < mid.len() {
                        assert(mid[a] == pre.remove(i as int)[a]);
                        assert(mid[b] == pre.remove(i as int)[b]);
                    } else {
                        assert(entry_views(files@)[b].0 == path@);
                        assert(mid[a] == pre.remove(i as int)[a]);
                    }
                }
                assert(fold_puts(entry_views(files@)).dom() =~= fold_puts(pre).dom().insert(
                    path@,
                ));
            }
            return ;
        }
        i += 1;
    }
    let ghost pre = entry_views(files@);
    proof {
        lemma_fold_puts_not_contains(pre, path@);
    }
    files.push((path, content));
    proof {
        assert(entry_views(files@) =~= pre.push((path@, content@)));
        assert(entry_views(files@).drop_last() =~= pre);
        assert(entry_views(files@).last() == (path@, content@));
        assert(fold_puts(entry_views(files@)) == fold_puts(pre).insert(path@, content@));
        assert forall|a: int, b: int| 0 <= a < b < entry_views(files@).len() implies (
        #[trigger] entry_views(files@)[a]).0 != (#[trigger] entry_views(files@)[b]).0 by {
            if b < pre.len() {
                assert(pre[a] == entry_views(files@)[a]);
                assert(pre[b] == entry_views(files@)[b]);
            } else {
                assert(entry_views(files@)[b].0 == path@);
                assert(pre[a] == entry_views(files@)[a]);
            }
        }
        assert(fold_puts(entry_views(files@)).dom() =~= fold_puts(pre).dom().insert(path@));
    }
}

/// One flattened site: its base URL and its file tree.
#[derive(Debug)]
pub struct SimplePostSite {
    pub base_url: String,
    pub files: Vec<(String, Vec<u8>)>,
}

/// One flattened workspace: a flattened site per source site, plus the
/// synthetic `specs` site.
#[derive(Debug)]
pub struct SimplePostWorkspace(pub Vec<(SiteName, SimplePostSite)>);

/// The writes one site's flattening performs, in order: workspace
/// assets, the site's own files, then its documents.
pub open spec fn site_writes(
    assets: Seq<(String, Vec<u8>)>,
    files: Seq<FileMetadata>,
    docs: Seq<FullDocument>,
) -> Seq<(Seq<char>, Seq<u8>)> {
    entry_views(assets) + files.map_values(|f: FileMetadata| (f.path@, f.content@))
        + docs.map_values(
        |d: FullDocument| (spec_path(d.rendered.name@), encode_utf8(d.content@)),
    )
}

/// The writes the synthetic spec site performs: its index page, then a
/// redirect page per spec.
pub open spec fn spec_site_writes(w: &FullWorkspace) -> Seq<(Seq<char>, Seq<u8>)> {
    seq![("index.html"@, encode_utf8(w.spec_site.index_content@))]
        + w.spec_site.specs@.map_values(
        |sp: crate::workspace::full::FullSpec|
            (sp.data.id@ + "/index.html"@, encode_utf8(sp.redirect_content@)),
    )
}

impl SimplePostWorkspace {
    /// Flattens every full site into `path -> bytes`, then appends the
    /// synthetic `specs` site. Within each site the emitted paths are
    /// unique, and the denoted mapping is exactly the writes folded in
    /// order.
    pub fn new(full: &FullWorkspace) -> (r: Result<SimplePostWorkspace, Error>)
        ensures
            match r {
                Ok(w) => {
                    &&& w.0@.len() == full.sites@.len() + 1
                    &&& (forall|i: int| 0 <= i < full.sites@.len() ==> {
                        let (name, site) = #[trigger] w.0@[i];
                        &&& name@ == full.sites@[i].site.name@
                        &&& site.base_url@ == full.sites@[i].site.config.base_url@
                        &&& paths_unique(entry_views(site.files@))
                        &&& map_of(site.files@) == fold_puts(
                            site_writes(
                                full.assets.assets@,
                                full.sites@[i].files@,
                                full.sites@[i].documents@,
                            ),
                        )
                    })
                    &&& ({
                        let (name, site) = w.0@[full.sites@.len() as int];
                        &&& name@ == "specs"@
                        &&& site.base_url@ == "/"@
                        &&& paths_unique(entry_views(site.files@))
                        &&& map_of(site.files@) == fold_puts(spec_site_writes(full))
                    })
                },
                Err(_) => false,
            },
    {
        broadcast use crate::asset::lemma_entry_views_index;

        let mut sites: Vec<(SiteName, SimplePostSite)> = Vec::new();
        let n = full.sites.len();
        let mut si: usize = 0;
        while si < n
            invariant
                si <= n,
                n == full.sites@.len(),
                sites@.len() == si,
                forall|i: int| 0 <= i < si ==> {
                    let (name, site) = #[trigger] sites@[i];
                    &&& name@ == full.sites@[i].site.name@
                    &&& site.base_url@ == full.sites@[i].site.config.base_url@
                    &&& paths_unique(entry_views(site.files@))
                    &&& map_of(site.files@) == fold_puts(
                        site_writes(
                            full.assets.assets@,
                            full.sites@[i].files@,
                            full.sites@[i].documents@,
                        ),
                    )
                },
            decreases n - si,
        {
            let fsite = &full.sites[si];
            let mut files: Vec<(String, Vec<u8>)> = Vec::new();
            let ghost writes = site_writes(full.assets.assets@, fsite.files@, fsite.documents@);
            proof {
                assert(entry_views(files@) =~= Seq::<(Seq<char>, Seq<u8>)>::empty());
                assert(writes.take(0) =~= Seq::<(Seq<char>, Seq<u8>)>::empty());
            }
            let an = full.assets.assets.len();
            let mut ai: usize = 0;
            while ai < an
                invariant
                    ai <= an,
                    an == full.assets.assets@.len(),
                    fsite == &full.sites@[si as int],
                    si < full.sites@.len(),
                    writes == site_writes(full.assets.assets@, fsite.files@, fsite.documents@),
                    paths_unique(entry_views(files@)),
                    map_of(files@) == fold_puts(writes.take(ai as int)),
                decreases an - ai,
            {
                let a = &full.assets.assets[ai];
                let mut content: Vec<u8> = Vec::new();
                let mut bi: usize = 0;
                while bi < a.1.len()
                    invariant
                        bi <= a.1@.len(),
                        content@ =~= a.1@.take(bi as int),
                        a == &full.assets.assets@[ai as int],
                        ai < full.assets.assets@.len(),
                    decreases a.1.len() - bi,
                {
                    content.push(a.1[bi]);
                    proof {
                        assert(content@ =~= a.1@.take(bi + 1));
                    }
                    bi += 1;
                }
                proof {
                    assert(a.1@.take(a.1@.len() as int) =~= a.1@);
                    assert(writes[ai as int] == (a.0@, a.1@));
                    assert(writes.take(ai + 1).drop_last() =~= writes.take(ai as int));
                }
                insert_file(&mut files, clone_string(&a.0), content);
                ai += 1;
            }
            let fn_ = fsite.files.len();
            let mut fi: usize = 0;
            while fi < fn_
                invariant
                    fi <= fn_,
                    fn_ == fsite.files@.len(),
                    fsite == &full.sites@[si as int],
                    si < full.sites@.len(),
                    an == full.assets.assets@.len(),
                    writes == site_writes(full.assets.assets@, fsite.files@, fsite.documents@),
                    paths_unique(entry_views(files@)),
                    map_of(files@) == fold_puts(writes.take(an + fi)),
                decreases fn_ - fi,
            {
                let f = &fsite.files[fi];
                let mut content: Vec<u8> = Vec::new();
                let mut bi: usize = 0;
                while bi < f.content.len()
                    invariant
                        bi <= f.content@.len(),
                        content@ =~= f.content@.take(bi as int),
                        f == &fsite.files@[fi as int],
                        fi < fsite.files@.len(),
                        fsite == &full.sites@[si as int],
                        si < full.sites@.len(),
                    decreases f.content.len() - bi,
                {
                    content.push(f.content[bi]);
                    proof {
                        assert(content@ =~= f.content@.take(bi + 1));
                    }
                    bi += 1;
                }
                proof {
                    assert(f.content@.take(f.content@.len() as int) =~= f.content@);
                    assert(writes[an + fi] == (f.path@, f.content@));
                    assert(writes.take(an + fi + 1).drop_last() =~= writes.take(an + fi));
                }
                insert_file(&mut files, clone_string(&f.path), content);
                fi += 1;
            }
            let dn = fsite.documents.len();
            let mut di: usize = 0;
            while di < dn
                invariant
                    di <= dn,
                    dn == fsite.documents@.len(),
                    fsite == &full.sites@[si as int],
                    si < full.sites@.len(),
                    an == full.assets.assets@.len(),
                    fn_ == fsite.files@.len(),
                    writes == site_writes(full.assets.assets@, fsite.files@, fsite.documents@),
                    paths_unique(entry_views(files@)),
                    map_of(files@) == fold_puts(writes.take(an + fn_ + di)),
                decreases dn - di,
            {
                let d = &fsite.documents[di];
                let path = d.rendered.name.path();
                let bytes = d.content.as_str().as_bytes_vec();
                proof {
                    assert(bytes@ == encode_utf8(d.content@));
                    assert(writes[an + fn_ + di] == (
                        spec_path(d.rendered.name@),
                        encode_utf8(d.content@),
                    ));
                    assert(writes.take(an + fn_ + di + 1).drop_last() =~= writes.take(
                        an + fn_ + di,
                    ));
                }
                insert_file(&mut files, path, bytes);
                di += 1;
            }
            proof {
                assert(writes.take(writes.len() as int) =~= writes);
            }
            sites.push(
                (
                    fsite.site.name.duplicate(),
                    SimplePostSite { base_url: clone_string(&fsite.site.config.base_url), files },
                ),
            );
            si += 1;
        }
        // the synthetic spec site
        let mut files: Vec<(String, Vec<u8>)> = Vec::new();
        let ghost swrites = spec_site_writes(full);
        proof {
            assert(entry_views(files@) =~= Seq::<(Seq<char>, Seq<u8>)>::empty());
            assert(swrites.take(0) =~= Seq::<(Seq<char>, Seq<u8>)>::empty());
        }
        let index_bytes = full.spec_site.index_content.as_str().as_bytes_vec();
        proof {
            reveal_strlit("index.html");
            assert(swrites[0] == ("index.html"@, encode_utf8(full.spec_site.index_content@)));
            assert(swrites.take(1).drop_last() =~= swrites.take(0));
        }
        let index_path: String = "index.html".to_owned();
        insert_file(&mut files, index_path, index_bytes);
        let pn = full.spec_site.specs.len();
        let mut pi: usize = 0;
        while pi < pn
            invariant
                pi <= pn,
                pn == full.spec_site.specs@.len(),
                swrites == spec_site_writes(full),
                paths_unique(entry_views(files@)),
                map_of(files@) == fold_puts(swrites.take(1 + pi)),
            decreases pn - pi,
        {
            let sp = &full.spec_site.specs[pi];
            let path = sp.path();
            let bytes = sp.redirect_content.as_str().as_bytes_vec();
            proof {
                assert(swrites[1 + pi] == (
                    sp.data.id@ + "/index.html"@,
                    encode_utf8(sp.redirect_content@),
                ));
                assert(swrites.take(1 + pi + 1).drop_last() =~= swrites.take(1 + pi));
            }
            insert_file(&mut files, path, bytes);
            pi += 1;
        }
        proof {
            assert(swrites.take(swrites.len() as int) =~= swrites);
        }
        let specs_name: String = "specs".to_owned();
        let base: String = "/".to_owned();
        sites.push((SiteName(specs_name), SimplePostSite { base_url: base, files }));
        Ok(SimplePostWorkspace(sites))
    }
}

} // verus!
