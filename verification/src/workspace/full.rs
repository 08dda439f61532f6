//! The full stage: per site, the sitemap, the cross-reference index,
//! the per-document local sitemap and template context, and — once the
//! shell has run the template engine over those contexts — the resolved
//! documents. Across sites, the specs are collected, deduplicated by
//! id (last wins) and sorted for the synthetic spec site.

use vstd::prelude::*;

verus! {

use crate::asset::AssetStore;
use crate::document::DocumentMetadata;
use crate::document::MetadataView;
use crate::document::NameView;
use crate::document::RenderedData;
use crate::document::RenderedDataView;
use crate::document::RenderedDocument;
use crate::document::Spec;
use crate::document::SpecBlockView;
use crate::document::spec_folder_path;
use crate::error::Error;
use crate::file::FileMetadata;
use crate::layout::DocumentContext;
use crate::layout::context_ok;
use crate::layout::document_context;
use crate::site::SiteMetadata;
use crate::site::SiteMetadataView;
use crate::sitemap::BreadcrumbItem;
use crate::sitemap::ItemView;
use crate::sitemap::LocalSitemap;
use crate::sitemap::LocalView;
use crate::sitemap::NodeView;
use crate::sitemap::Sitemap;
use crate::sitemap::item_views;
use crate::sitemap::shallow_items;
use crate::sitemap::spec_build;
use crate::sitemap::spec_local;
use crate::sitemap::spec_sort;
use crate::sitemap::str_le;
use crate::strutil::clone_string;
use crate::strutil::concat3;
use crate::strutil::str_eq;
use crate::strutil::strip_prefix;
use crate::strutil::strip_prefix_spec;
use crate::variable::resolve_content;
use crate::variable::spec_resolve;
use crate::xref::XrefIndex;
use crate::workspace::rendered::RenderedSite;

/// The mathematical value of a full document.
#[verifier::ext_equal]
pub ghost struct FullDocumentView {
    pub site_metadata: SiteMetadataView,
    pub metadata: MetadataView,
    pub rendered: RenderedDataView,
    pub content: Seq<char>,
    pub local_sitemap: LocalView,
}

/// One fully assembled document: its origin, the normalized conversion
/// output, the laid-out and variable-resolved page, and its place in
/// the sitemap.
#[derive(Debug)]
pub struct FullDocument {
    pub site_metadata: SiteMetadata,
    pub metadata: DocumentMetadata,
    pub rendered: RenderedData,
    pub content: String,
    pub local_sitemap: LocalSitemap,
}

impl View for FullDocument {
    type V = FullDocumentView;

    open spec fn view(&self) -> FullDocumentView {
        FullDocumentView {
            site_metadata: self.site_metadata@,
            metadata: self.metadata@,
            rendered: self.rendered@,
            content: self.content@,
            local_sitemap: self.local_sitemap@,
        }
    }
}

/// One fully assembled site.
#[derive(Debug)]
pub struct FullSite {
    pub site: SiteMetadata,
    pub documents: Vec<FullDocument>,
    pub files: Vec<FileMetadata>,
    pub xrefs: XrefIndex,
    pub sitemap: Sitemap,
}

/// The breadcrumb item a rendered document contributes to the sitemap:
/// the sitemap title when the converter provided one, else the title.
pub open spec fn breadcrumb_of(d: RenderedDocument) -> ItemView {
    ItemView {
        title: match d.data.sitemap_title {
            Some(t) => t@,
            None => d.data.title@,
        },
        document_name: d.data.name@,
        description: d.data.description@,
    }
}

/// The breadcrumb items of a rendered site, in document order.
pub open spec fn breadcrumb_views(docs: Seq<RenderedDocument>) -> Seq<ItemView> {
    Seq::new(docs.len(), |i: int| breadcrumb_of(docs[i]))
}

/// Collects one breadcrumb item per rendered document.
pub fn breadcrumb_items(rendered: &RenderedSite) -> (r: Vec<BreadcrumbItem>)
    ensures
        item_views(r@) == breadcrumb_views(rendered.documents@),
{
    broadcast use crate::sitemap::lemma_item_views_index;

    let mut r: Vec<BreadcrumbItem> = Vec::new();
    let mut i: usize = 0;
    while i < rendered.documents.len()
        invariant
            i <= rendered.documents@.len(),
            r@.len() == i,
            forall|j: int| 0 <= j < i ==> (#[trigger] r@[j])@ == breadcrumb_of(
                rendered.documents@[j],
            ),
        decreases rendered.documents.len() - i,
    {
        let d = &rendered.documents[i];
        let title = match &d.data.sitemap_title {
            Some(t) => clone_string(t),
            None => clone_string(&d.data.title),
        };
        let b = BreadcrumbItem {
            title,
            document_name: d.data.name.duplicate(),
            description: clone_string(&d.data.description),
        };
        proof {
            assert(b@ =~~= breadcrumb_of(rendered.documents@[i as int]));
        }
        r.push(b);
        i += 1;
    }
    proof {
        assert(item_views(r@) =~= breadcrumb_views(rendered.documents@));
    }
    r
}

/// The cross-reference map of a rendered site: each document's relative
/// source path bound to its name, in order; nothing when some document
/// does not lie under the site's source folder.
pub open spec fn xrefs_of(docs: Seq<RenderedDocument>, source_path: Seq<char>) -> Option<
    Map<Seq<char>, NameView>,
>
    decreases docs.len(),
{
    if docs.len() == 0 {
        Some(Map::empty())
    } else {
        match xrefs_of(docs.drop_last(), source_path) {
            None => None,
            Some(m) => match strip_prefix_spec(
                docs.last().metadata.source_path@,
                source_path,
            ) {
                None => None,
                Some(rel) => Some(m.insert(rel, docs.last().data.name@)),
            },
        }
    }
}

/// Builds the cross-reference index of a rendered site.
pub fn build_xrefs(rendered: &RenderedSite) -> (r: Result<XrefIndex, Error>)
    ensures
        match r {
            Ok(x) => xrefs_of(rendered.documents@, rendered.site.source_path@) == Some(x@),
            Err(e) => e == Error::StripPrefix && xrefs_of(
                rendered.documents@,
                rendered.site.source_path@,
            ) is None,
        },
{
    let mut x = XrefIndex::new();
    let n = rendered.documents.len();
    let mut i: usize = 0;
    proof {
        assert(rendered.documents@.take(0) =~= Seq::<RenderedDocument>::empty());
    }
    while i < n
        invariant
            i <= n,
            n == rendered.documents@.len(),
            xrefs_of(rendered.documents@.take(i as int), rendered.site.source_path@) == Some(x@),
        decreases n - i,
    {
        let d = &rendered.documents[i];
        proof {
            assert(rendered.documents@.take(i + 1).drop_last() =~= rendered.documents@.take(
                i as int,
            ));
            assert(rendered.documents@.take(i + 1).last() == rendered.documents@[i as int]);
        }
        match strip_prefix(d.metadata.source_path.as_str(), rendered.site.source_path.as_str()) {
            None => {
                proof {
                    lemma_xrefs_of_extend_none(rendered.documents@, rendered.site.source_path@, i as int);
                }
                return Err(Error::StripPrefix);
            },
            Some(rel) => {
                x.insert(rel, d.data.name.duplicate());
            },
        }
        i += 1;
    }
    proof {
        assert(rendered.documents@.take(n as int) =~= rendered.documents@);
    }
    Ok(x)
}

/// Once some prefix fails to strip, the whole site's map is nothing.
proof fn lemma_xrefs_of_extend_none(docs: Seq<RenderedDocument>, source_path: Seq<char>, i: int)
    requires
        0 <= i < docs.len(),
        strip_prefix_spec(docs[i].metadata.source_path@, source_path) is None,
    ensures
        xrefs_of(docs, source_path) is None,
    decreases docs.len(),
{
    if docs.len() > 0 {
        if i == docs.len() - 1 {
            assert(docs.last() == docs[i]);
        } else {
            lemma_xrefs_of_extend_none(docs.drop_last(), source_path, i);
        }
    }
}

/// What `prepare` derives per site before the template engine runs.
#[derive(Debug)]
pub struct FullSitePrep {
    pub sitemap: Sitemap,
    pub xrefs: XrefIndex,
    pub locals: Vec<LocalSitemap>,
    pub contexts: Vec<DocumentContext>,
}

/// A document's local sitemap as the sitemap walk defines it.
pub open spec fn local_found(forest: Seq<NodeView>, name: NameView, l: LocalView) -> bool {
    if crate::document::spec_is_root(name) {
        l.breadcrumb.len() == 0 && l.children == shallow_items(forest)
    } else {
        spec_local(forest, name, Seq::empty()) == Some(l)
    }
}

impl FullSite {
    /// Everything of the full stage that precedes the template engine:
    /// the site's sitemap, its cross-reference index, and each
    /// document's local sitemap and template context.
    pub fn prepare(rendered: &RenderedSite) -> (r: Result<FullSitePrep, Error>)
        ensures
            match r {
                Ok(p) => {
                    &&& p.sitemap@ == spec_build(
                        spec_sort(breadcrumb_views(rendered.documents@)),
                    )
                    &&& xrefs_of(rendered.documents@, rendered.site.source_path@) == Some(
                        p.xrefs@,
                    )
                    &&& p.locals@.len() == rendered.documents@.len()
                    &&& p.contexts@.len() == rendered.documents@.len()
                    &&& (forall|i: int| 0 <= i < rendered.documents@.len() ==> local_found(
                        p.sitemap@,
                        rendered.documents@[i].data.name@,
                        (#[trigger] p.locals@[i])@,
                    ))
                    &&& (forall|i: int| 0 <= i < rendered.documents@.len() ==> context_ok(
                        #[trigger] p.contexts@[i],
                        rendered.documents@[i]@,
                        p.sitemap@,
                        p.locals@[i]@,
                    ))
                },
                Err(e) => {
                    ||| (e == Error::StripPrefix && xrefs_of(
                        rendered.documents@,
                        rendered.site.source_path@,
                    ) is None)
                    ||| (e == Error::DocumentNotFound && exists|i: int|
                        0 <= i < rendered.documents@.len()
                            && !crate::document::spec_is_root(
                            (#[trigger] rendered.documents@[i]).data.name@,
                        ) && spec_local(
                            spec_build(spec_sort(breadcrumb_views(rendered.documents@))),
                            rendered.documents@[i].data.name@,
                            Seq::empty(),
                        ) is None)
                },
            },
    {
        let name_titles = breadcrumb_items(rendered);
        let sitemap = Sitemap::from(name_titles);
        let xrefs = match build_xrefs(rendered) {
            Ok(x) => x,
            Err(e) => {
                return Err(e);
            },
        };
        let mut locals: Vec<LocalSitemap> = Vec::new();
        let mut contexts: Vec<DocumentContext> = Vec::new();
        let n = rendered.documents.len();
        let mut i: usize = 0;
        while i < n
            invariant
                i <= n,
                n == rendered.documents@.len(),
                sitemap@ == spec_build(spec_sort(breadcrumb_views(rendered.documents@))),
                locals@.len() == i,
                contexts@.len() == i,
                forall|j: int| 0 <= j < i ==> local_found(
                    sitemap@,
                    rendered.documents@[j].data.name@,
                    (#[trigger] locals@[j])@,
                ),
                forall|j: int| 0 <= j < i ==> context_ok(
                    #[trigger] contexts@[j],
                    rendered.documents@[j]@,
                    sitemap@,
                    locals@[j]@,
                ),
            decreases n - i,
        {
            let d = &rendered.documents[i];
            let local = match sitemap.local(&d.data.name) {
                Some(l) => l,
                None => {
                    return Err(Error::DocumentNotFound);
                },
            };
            let ctx = document_context(d, &sitemap, &local);
            locals.push(local);
            contexts.push(ctx);
            i += 1;
        }
        Ok(FullSitePrep { sitemap, xrefs, locals, contexts })
    }

    /// Assembles the full site once the template engine has produced
    /// each document's laid-out page: every page's placeholders are
    /// resolved against the site's cross-reference index.
    pub fn assemble(rendered: &RenderedSite, prep: FullSitePrep, contents: Vec<String>) -> (r:
        Result<FullSite, Error>)
        requires
            contents@.len() == rendered.documents@.len(),
            prep.locals@.len() == rendered.documents@.len(),
        ensures
            match r {
                Ok(f) => {
                    &&& f.site@ == rendered.site@
                    &&& f.files@.len() == rendered.files@.len()
                    &&& (forall|i: int| 0 <= i < rendered.files@.len() ==> (
                    #[trigger] f.files@[i])@ == rendered.files@[i]@)
                    &&& f.sitemap@ == prep.sitemap@
                    &&& f.xrefs@ == prep.xrefs@
                    &&& f.documents@.len() == rendered.documents@.len()
                    &&& (forall|i: int| 0 <= i < rendered.documents@.len() ==> {
                        let d = #[trigger] f.documents@[i];
                        &&& d.site_metadata@ == rendered.documents@[i].site_metadata@
                        &&& d.metadata@ == rendered.documents@[i].metadata@
                        &&& d.rendered@ == rendered.documents@[i].data@
                        &&& d.local_sitemap@ == prep.locals@[i]@
                        &&& spec_resolve(
                            contents@[i]@,
                            0,
                            rendered.site.config.base_url@,
                            prep.xrefs@,
                        ) == Ok::<Seq<char>, Error>(d.content@)
                    })
                },
                Err(e) => exists|i: int|
                    0 <= i < contents@.len() && spec_resolve(
                        (#[trigger] contents@[i])@,
                        0,
                        rendered.site.config.base_url@,
                        prep.xrefs@,
                    ) == Err::<Seq<char>, Error>(e),
            },
    {
        let FullSitePrep { sitemap, xrefs, mut locals, contexts: _contexts } = prep;
        let mut documents: Vec<FullDocument> = Vec::new();
        let n = rendered.documents.len();
        let mut i: usize = 0;
        proof {
            assert(locals@.skip(0) =~= locals@);
        }
        let ghost locals0 = locals@;
        while i < n
            invariant
                i <= n,
                n == rendered.documents@.len(),
                n == contents@.len(),
                locals0.len() == n,
                locals0 == prep.locals@,
                xrefs == prep.xrefs,
                sitemap == prep.sitemap,
                locals@ =~= locals0.skip(i as int),
                documents@.len() == i,
                forall|j: int| 0 <= j < i ==> {
                    let d = #[trigger] documents@[j];
                    &&& d.site_metadata@ == rendered.documents@[j].site_metadata@
                    &&& d.metadata@ == rendered.documents@[j].metadata@
                    &&& d.rendered@ == rendered.documents@[j].data@
                    &&& d.local_sitemap@ == locals0[j]@
                    &&& spec_resolve(
                        contents@[j]@,
                        0,
                        rendered.site.config.base_url@,
                        xrefs@,
                    ) == Ok::<Seq<char>, Error>(d.content@)
                },
            decreases n - i,
        {
            let d = &rendered.documents[i];
            let content = match resolve_content(
                contents[i].as_str(),
                rendered.site.config.base_url.as_str(),
                &xrefs,
            ) {
                Ok(c) => c,
                Err(e) => {
                    proof {
                        assert(contents@[i as int]@ == contents@[i as int]@);
                        assert(spec_resolve(
                            contents@[i as int]@,
                            0,
                            rendered.site.config.base_url@,
                            xrefs@,
                        ) == Err::<Seq<char>, Error>(e));
                    }
                    return Err(e);
                },
            };
            let local = locals.remove(0);
            proof {
                assert(local == locals0[i as int]);
                assert(locals@ =~= locals0.skip(i + 1));
            }
            documents.push(
                FullDocument {
                    site_metadata: d.site_metadata.duplicate(),
                    metadata: d.metadata.duplicate(),
                    rendered: d.data.duplicate(),
                    content,
                    local_sitemap: local,
                },
            );
            i += 1;
        }
        Ok(FullSite { site: rendered.site.duplicate(), documents, files: duplicate_files(&rendered.files), xrefs, sitemap })
    }
}

/// An element-wise copy of a vector of asset files.
fn duplicate_files(v: &Vec<FileMetadata>) -> (r: Vec<FileMetadata>)
    ensures
        r@.len() == v@.len(),
        forall|j: int| 0 <= j < v@.len() ==> (#[trigger] r@[j])@ == v@[j]@,
{
    let mut r: Vec<FileMetadata> = Vec::new();
    let mut i: usize = 0;
    while i < v.len()
        invariant
            i <= v@.len(),
            r@.len() == i,
            forall|j: int| 0 <= j < i ==> (#[trigger] r@[j])@ == v@[j]@,
        decreases v.len() - i,
    {
        r.push(v[i].duplicate());
        i += 1;
    }
    r
}


/// The views of a sequence of spec/URL pairs.
pub open spec fn pair_views(s: Seq<(Spec, String)>) -> Seq<(SpecBlockView, Seq<char>)> {
    s.map_values(|p: (Spec, String)| (p.0@, p.1@))
}

pub broadcast proof fn lemma_pair_views_index(s: Seq<(Spec, String)>, i: int)
    requires
        0 <= i < s.len(),
    ensures
        #[trigger] pair_views(s)[i] == (s[i].0@, s[i].1@),
{
}

/// The redirect URL of a spec found in a document: the site's canonical
/// URL, the document's folder path, and a trailing `/`.
pub open spec fn redirect_url_of(site_url: Seq<char>, name: NameView) -> Seq<char> {
    site_url + spec_folder_path(name) + seq!['/']
}

/// The spec/URL pairs one document contributes.
pub open spec fn doc_spec_pairs(d: FullDocument, site_url: Seq<char>) -> Seq<
    (SpecBlockView, Seq<char>),
> {
    Seq::new(
        d.rendered.specs@.len(),
        |i: int| (d.rendered.specs@[i]@, redirect_url_of(site_url, d.rendered.name@)),
    )
}

/// The spec/URL pairs of a document list, concatenated in order.
pub open spec fn docs_spec_pairs(docs: Seq<FullDocument>, site_url: Seq<char>) -> Seq<
    (SpecBlockView, Seq<char>),
>
    decreases docs.len(),
{
    if docs.len() == 0 {
        Seq::empty()
    } else {
        docs_spec_pairs(docs.drop_last(), site_url) + doc_spec_pairs(docs.last(), site_url)
    }
}

/// The spec/URL pairs of all sites, concatenated in order.
pub open spec fn sites_spec_pairs(sites: Seq<FullSite>) -> Seq<(SpecBlockView, Seq<char>)>
    decreases sites.len(),
{
    if sites.len() == 0 {
        Seq::empty()
    } else {
        sites_spec_pairs(sites.drop_last()) + docs_spec_pairs(
            sites.last().documents@,
            sites.last().site.config.url@,
        )
    }
}

/// Collects every spec of every document of every site, each paired
/// with its redirect URL.
pub fn collect_spec_pairs(sites: &Vec<FullSite>) -> (r: Vec<(Spec, String)>)
    ensures
        pair_views(r@) == sites_spec_pairs(sites@),
{
    broadcast use lemma_pair_views_index, crate::document::lemma_spec_views_index;

    let mut r: Vec<(Spec, String)> = Vec::new();
    let mut si: usize = 0;
    proof {
        assert(pair_views(r@) =~= Seq::<(SpecBlockView, Seq<char>)>::empty());
        assert(sites@.take(0) =~= Seq::<FullSite>::empty());
    }
    while si < sites.len()
        invariant
            si <= sites@.len(),
            pair_views(r@) == sites_spec_pairs(sites@.take(si as int)),
        decreases sites.len() - si,
    {
        let site = &sites[si];
        let mut di: usize = 0;
        proof {
            assert(site.documents@.take(0) =~= Seq::<FullDocument>::empty());
        }
        while di < site.documents.len()
            invariant
                di <= site.documents@.len(),
                site == &sites@[si as int],
                si < sites@.len(),
                pair_views(r@) == sites_spec_pairs(sites@.take(si as int)) + docs_spec_pairs(
                    site.documents@.take(di as int),
                    site.site.config.url@,
                ),
            decreases site.documents.len() - di,
        {
            let d = &site.documents[di];
            let folder = d.rendered.name.folder_path();
            let url = concat3(site.site.config.url.as_str(), folder.as_str(), "/");
            proof {
                reveal_strlit("/");
                assert(("/")@ =~= seq!['/']);
                assert(url@ =~= redirect_url_of(site.site.config.url@, d.rendered.name@));
            }
            let mut ki: usize = 0;
            while ki < d.rendered.specs.len()
                invariant
                    ki <= d.rendered.specs@.len(),
                    d == &sites@[si as int].documents@[di as int],
                    si < sites@.len(),
                    di < sites@[si as int].documents@.len(),
                    site == &sites@[si as int],
                    url@ == redirect_url_of(site.site.config.url@, d.rendered.name@),
                    pair_views(r@) == sites_spec_pairs(sites@.take(si as int)) + docs_spec_pairs(
                        site.documents@.take(di as int),
                        site.site.config.url@,
                    ) + doc_spec_pairs(
                        sites@[si as int].documents@[di as int],
                        site.site.config.url@,
                    ).take(ki as int),
                decreases d.rendered.specs.len() - ki,
            {
                let sp = &d.rendered.specs[ki];
                let ghost pre = pair_views(r@);
                r.push((sp.duplicate(), clone_string(&url)));
                proof {
                    assert(pair_views(r@) =~= pre.push((sp@, url@)));
                    assert(doc_spec_pairs(
                        sites@[si as int].documents@[di as int],
                        site.site.config.url@,
                    ).take(ki + 1) =~= doc_spec_pairs(
                        sites@[si as int].documents@[di as int],
                        site.site.config.url@,
                    ).take(ki as int).push((sp@, url@)));
                    assert(pair_views(r@) =~= sites_spec_pairs(sites@.take(si as int))
                        + docs_spec_pairs(
                        site.documents@.take(di as int),
                        site.site.config.url@,
                    ) + doc_spec_pairs(
                        sites@[si as int].documents@[di as int],
                        site.site.config.url@,
                    ).take(ki + 1));
                }
                ki += 1;
            }
            proof {
                let dv = sites@[si as int].documents@[di as int];
                assert(doc_spec_pairs(dv, site.site.config.url@).take(
                    d.rendered.specs@.len() as int,
                ) =~= doc_spec_pairs(dv, site.site.config.url@));
                assert(site.documents@.take(di + 1).drop_last() =~= site.documents@.take(
                    di as int,
                ));
                assert(site.documents@.take(di + 1).last() == dv);
                assert(pair_views(r@) =~= sites_spec_pairs(sites@.take(si as int))
                    + docs_spec_pairs(site.documents@.take(di + 1), site.site.config.url@));
            }
            di += 1;
        }
        proof {
            assert(site.documents@.take(site.documents@.len() as int) =~= site.documents@);
            assert(sites@.take(si + 1).drop_last() =~= sites@.take(si as int));
            assert(sites@.take(si + 1).last() == sites@[si as int]);
            assert(pair_views(r@) =~= sites_spec_pairs(sites@.take(si + 1)));
        }
        si += 1;
    }
    proof {
        assert(sites@.take(sites@.len() as int) =~= sites@);
    }
    r
}

/// The pairs with every entry of the given id removed.
pub open spec fn remove_id(s: Seq<(SpecBlockView, Seq<char>)>, id: Seq<char>) -> Seq<
    (SpecBlockView, Seq<char>),
>
    decreases s.len(),
{
    if s.len() == 0 {
        Seq::empty()
    } else if s.last().0.id == id {
        remove_id(s.drop_last(), id)
    } else {
        remove_id(s.drop_last(), id).push(s.last())
    }
}

/// The pairs deduplicated by id: of entries sharing an id, the last
/// wins, placed at its last occurrence.
pub open spec fn dedup_last(s: Seq<(SpecBlockView, Seq<char>)>) -> Seq<(SpecBlockView, Seq<char>)>
    decreases s.len(),
{
    if s.len() == 0 {
        Seq::empty()
    } else {
        remove_id(dedup_last(s.drop_last()), s.last().0.id).push(s.last())
    }
}

/// One step of a stable insertion sort of pairs by spec id.
pub open spec fn spec_insort_pairs(
    s: Seq<(SpecBlockView, Seq<char>)>,
    x: (SpecBlockView, Seq<char>),
) -> Seq<(SpecBlockView, Seq<char>)>
    decreases s.len(),
{
    if s.len() == 0 {
        seq![x]
    } else if str_le(s.last().0.id, x.0.id) {
        s.push(x)
    } else {
        spec_insort_pairs(s.drop_last(), x).push(s.last())
    }
}

/// The pairs sorted by spec id, stably.
pub open spec fn spec_sort_pairs(s: Seq<(SpecBlockView, Seq<char>)>) -> Seq<
    (SpecBlockView, Seq<char>),
>
    decreases s.len(),
{
    if s.len() == 0 {
        Seq::empty()
    } else {
        spec_insort_pairs(spec_sort_pairs(s.drop_last()), s.last())
    }
}

/// Removes every pair with the given id.
fn remove_id_exec(s: Vec<(Spec, String)>, id: &str) -> (r: Vec<(Spec, String)>)
    ensures
        pair_views(r@) == remove_id(pair_views(s@), id@),
    decreases s@.len(),
{
    broadcast use lemma_pair_views_index;

    let mut s = s;
    if s.len() == 0 {
        proof {
            assert(pair_views(s@) =~= Seq::<(SpecBlockView, Seq<char>)>::empty());
            assert(remove_id(pair_views(s@), id@) =~= Seq::<(SpecBlockView, Seq<char>)>::empty());
        }
        return s;
    }
    let nl = s.len() - 1;
    let ghost sv = pair_views(s@);
    let last = s.remove(nl);
    proof {
        assert(pair_views(s@) =~= sv.drop_last());
        assert(last@ == (sv.last().0, sv.last().1));
        assert(sv.last() == (last.0@, last.1@));
    }
    if str_eq(last.0.id.as_str(), id) {
        let r = remove_id_exec(s, id);
        r
    } else {
        let mut r = remove_id_exec(s, id);
        let ghost pre = pair_views(r@);
        r.push(last);
        proof {
            assert(pair_views(r@) =~= pre.push(sv.last()));
        }
        r
    }
}

/// One step of the stable insertion sort by id.
fn insort_pair(s: Vec<(Spec, String)>, x: (Spec, String)) -> (r: Vec<(Spec, String)>)
    ensures
        pair_views(r@) == spec_insort_pairs(pair_views(s@), (x.0@, x.1@)),
    decreases s@.len(),
{
    broadcast use lemma_pair_views_index;

    let mut s = s;
    if s.len() == 0 {
        s.push(x);
        proof {
            assert(pair_views(s@) =~= seq![(x.0@, x.1@)]);
        }
        return s;
    }
    let nl = s.len() - 1;
    if crate::sitemap::str_le_exec(s[nl].0.id.as_str(), x.0.id.as_str()) {
        let ghost sv = pair_views(s@);
        proof {
            assert(sv.last() == (s@[nl as int].0@, s@[nl as int].1@));
        }
        let ghost xv = (x.0@, x.1@);
        s.push(x);
        proof {
            assert(pair_views(s@) =~= sv.push(xv));
        }
        s
    } else {
        let ghost sv = pair_views(s@);
        let last = s.remove(nl);
        proof {
            assert(pair_views(s@) =~= sv.drop_last());
            assert(sv.last() == (last.0@, last.1@));
        }
        let mut r = insort_pair(s, x);
        let ghost pre = pair_views(r@);
        r.push(last);
        proof {
            assert(pair_views(r@) =~= pre.push(sv.last()));
        }
        r
    }
}

/// Deduplicates the collected pairs by id (last wins) and sorts them by
/// id: the order of the spec index page.
pub fn sorted_spec_pairs(pairs: Vec<(Spec, String)>) -> (r: Vec<(Spec, String)>)
    ensures
        pair_views(r@) == spec_sort_pairs(dedup_last(pair_views(pairs@))),
{
    broadcast use lemma_pair_views_index;

    let mut pairs = pairs;
    let mut acc: Vec<(Spec, String)> = Vec::new();
    proof {
        assert(pair_views(acc@) =~= Seq::<(SpecBlockView, Seq<char>)>::empty());
        assert(pair_views(pairs@).take(0) =~= Seq::<(SpecBlockView, Seq<char>)>::empty());
        assert(dedup_last(pair_views(pairs@).take(0)) =~= Seq::<(SpecBlockView, Seq<char>)>::empty());
    }
    let ghost all = pair_views(pairs@);
    let n = pairs.len();
    let mut i: usize = 0;
    while i < n
        invariant
            i <= n,
            n == pairs@.len(),
            all == pair_views(pairs@),
            pair_views(acc@) == dedup_last(all.take(i as int)),
        decreases n - i,
    {
        let p = &pairs[i];
        let dup = (p.0.duplicate(), clone_string(&p.1));
        let ghost pv = (pairs@[i as int].0@, pairs@[i as int].1@);
        let cleaned = remove_id_exec(acc, p.0.id.as_str());
        let ghost cv = pair_views(cleaned@);
        let mut cleaned = cleaned;
        cleaned.push(dup);
        acc = cleaned;
        proof {
            assert(pair_views(acc@) =~= cv.push(pv));
            assert(all.take(i + 1).drop_last() =~= all.take(i as int));
            assert(all.take(i + 1).last() == pv);
        }
        i += 1;
    }
    proof {
        assert(all.take(n as int) =~= all);
    }
    let mut sorted: Vec<(Spec, String)> = Vec::new();
    proof {
        assert(pair_views(sorted@) =~= Seq::<(SpecBlockView, Seq<char>)>::empty());
        assert(pair_views(acc@).take(0) =~= Seq::<(SpecBlockView, Seq<char>)>::empty());
    }
    let ghost dv = pair_views(acc@);
    let m = acc.len();
    let mut k: usize = 0;
    while k < m
        invariant
            k <= m,
            m == acc@.len(),
            dv == pair_views(acc@),
            pair_views(sorted@) == spec_sort_pairs(dv.take(k as int)),
        decreases m - k,
    {
        let p = &acc[k];
        let dup = (p.0.duplicate(), clone_string(&p.1));
        let next = insort_pair(sorted, dup);
        sorted = next;
        proof {
            assert(dv.take(k + 1).drop_last() =~= dv.take(k as int));
            assert(dv.take(k + 1).last() == (acc@[k as int].0@, acc@[k as int].1@));
        }
        k += 1;
    }
    proof {
        assert(dv.take(m as int) =~= dv);
    }
    sorted
}

/// One spec of the synthetic spec site: the spec, its rendered redirect
/// page, and the redirect URL.
#[derive(Debug)]
pub struct FullSpec {
    pub data: Spec,
    pub redirect_content: String,
    pub redirect_url: String,
}

impl FullSpec {
    /// Wraps one spec with its rendered redirect page.
    pub fn new(data: Spec, redirect_content: String, redirect_url: String) -> (r: FullSpec)
        ensures
            r.data@ == data@,
            r.redirect_content@ == redirect_content@,
            r.redirect_url@ == redirect_url@,
    {
        FullSpec { data, redirect_content, redirect_url }
    }

    /// The folder the spec's redirect page is emitted under: its id.
    pub fn folder_path(&self) -> (r: String)
        ensures
            r@ == self.data.id@,
    {
        clone_string(&self.data.id)
    }

    /// The file the spec's redirect page is emitted at.
    pub fn path(&self) -> (r: String)
        ensures
            r@ == self.data.id@ + "/index.html"@,
    {
        crate::strutil::concat2(self.data.id.as_str(), "/index.html")
    }
}

/// The synthetic spec site: the aggregated index page and one redirect
/// page per spec.
#[derive(Debug)]
pub struct FullSpecSite {
    pub specs: Vec<FullSpec>,
    pub index_content: String,
}

impl FullSpecSite {
    /// Assembles the spec site.
    pub fn new(specs: Vec<FullSpec>, index_content: String) -> (r: FullSpecSite)
        ensures
            r.specs@ == specs@,
            r.index_content@ == index_content@,
    {
        FullSpecSite { specs, index_content }
    }
}

/// One fully assembled workspace.
#[derive(Debug)]
pub struct FullWorkspace {
    pub root_path: String,
    pub assets: AssetStore,
    pub sites: Vec<FullSite>,
    pub spec_site: FullSpecSite,
}

impl FullWorkspace {
    /// Assembles the full workspace.
    pub fn new(
        root_path: &str,
        assets: AssetStore,
        sites: Vec<FullSite>,
        spec_site: FullSpecSite,
    ) -> (r: FullWorkspace)
        ensures
            r.root_path@ == root_path@,
            r.assets.assets@ == assets.assets@,
            r.sites@ == sites@,
            r.spec_site.specs@ == spec_site.specs@,
            r.spec_site.index_content@ == spec_site.index_content@,
    {
        FullWorkspace { root_path: root_path.to_owned(), assets, sites, spec_site }
    }
}

} // verus!
