//! Template contexts. The library computes every value a template sees;
//! the template engine itself runs outside and receives these contexts
//! converted to its own data model.

use vstd::prelude::*;

verus! {

use crate::document::RenderedDocument;
use crate::document::Spec;
use crate::document::spec_folder_path;
use crate::sitemap::LocalSitemap;
use crate::sitemap::NodeView;
use crate::sitemap::Sitemap;
use crate::sitemap::SitemapItem;
use crate::sitemap::ItemView;
use crate::strutil::clone_opt_string;
use crate::strutil::clone_string;
use crate::strutil::concat2;
use crate::strutil::concat3;

/// One navigation link as bound into a context.
#[derive(Debug)]
pub struct DocumentContextSiteLink {
    pub url: String,
    pub name: String,
}

/// The mathematical value of a bound sitemap node.
#[verifier::ext_equal]
pub ghost struct CtxNodeView {
    pub title: Seq<char>,
    pub url: Seq<char>,
    pub children: Seq<CtxNodeView>,
}

/// One sitemap node as bound into a context: title, URL, and the
/// children kept within the configured depth.
#[derive(Debug)]
pub struct DocumentContextSitemapItem {
    pub title: String,
    pub url: String,
    pub children: Vec<DocumentContextSitemapItem>,
}

/// The mathematical value of a bound sitemap node.
pub open spec fn ctx_node_view(t: DocumentContextSitemapItem) -> CtxNodeView
    decreases t,
    via ctx_node_view_decreases
{
    CtxNodeView {
        title: t.title@,
        url: t.url@,
        children: Seq::new(
            t.children@.len(),
            |i: int|
                if 0 <= i < t.children@.len() {
                    ctx_node_view(t.children[i])
                } else {
                    vstd::pervasive::arbitrary()
                },
        ),
    }
}

#[via_fn]
proof fn ctx_node_view_decreases(t: DocumentContextSitemapItem) {
    assert forall|i: int| 0 <= i < t.children@.len() implies (decreases_to!(t
        => t.children[i])) by {
        assert(decreases_to!(t => t.children));
        assert(decreases_to!(t.children => t.children[i]));
    }
}

impl View for DocumentContextSitemapItem {
    type V = CtxNodeView;

    open spec fn view(&self) -> CtxNodeView {
        ctx_node_view(*self)
    }
}

/// The views of a sequence of bound sitemap nodes.
pub open spec fn ctx_node_views(s: Seq<DocumentContextSitemapItem>) -> Seq<CtxNodeView> {
    Seq::new(s.len(), |i: int| s[i]@)
}

pub broadcast proof fn lemma_ctx_node_views_index(s: Seq<DocumentContextSitemapItem>, i: int)
    requires
        0 <= i < s.len(),
    ensures
        #[trigger] ctx_node_views(s)[i] == s[i]@,
{
}

/// One depth step: the configured bound less one, stopping at zero.
pub open spec fn spec_depth_step(d: Option<usize>) -> Option<usize> {
    match d {
        None => None,
        Some(d) => if d > 0 {
            Some((d - 1) as usize)
        } else {
            Some(0usize)
        },
    }
}

/// How a sitemap node is bound: the URL is the base URL, the folder
/// path and a `/`; children are kept only while the depth bound is not
/// exhausted, each bound one level deeper.
pub open spec fn spec_bind_node(t: NodeView, depth: Option<usize>, base: Seq<char>) -> CtxNodeView
    decreases t,
    via spec_bind_node_decreases
{
    CtxNodeView {
        title: t.item.title,
        url: base + spec_folder_path(t.item.document_name) + seq!['/'],
        children: if (match depth {
            None => true,
            Some(d) => d > 0,
        }) {
            Seq::new(
                t.children.len(),
                |i: int|
                    if 0 <= i < t.children.len() {
                        spec_bind_node(t.children[i], spec_depth_step(depth), base)
                    } else {
                        vstd::pervasive::arbitrary()
                    },
            )
        } else {
            Seq::empty()
        },
    }
}

#[via_fn]
proof fn spec_bind_node_decreases(t: NodeView, depth: Option<usize>, base: Seq<char>) {
    assert forall|i: int| 0 <= i < t.children.len() implies (decreases_to!(t
        => t.children[i])) by {
        assert(decreases_to!(t => t.children));
        assert(decreases_to!(t.children => t.children[i]));
    }
}

/// The recursive binding behind `from_sitemap_item`.
fn bind_node_ref(t: &SitemapItem, max_depth: Option<usize>, base: &str) -> (r:
    DocumentContextSitemapItem)
    ensures
        r@ == spec_bind_node(t@, max_depth, base@),
    decreases t,
{
    broadcast use lemma_ctx_node_views_index, crate::sitemap::lemma_node_views_index, crate::sitemap::lemma_node_view_children;

    let show_children = match max_depth {
        None => true,
        Some(d) => d > 0,
    };
    let next_depth = match max_depth {
        None => None,
        Some(d) => if d > 0 {
            Some(d - 1)
        } else {
            Some(0usize)
        },
    };
    let folder = t.item.document_name.folder_path();
    let url = concat3(base, folder.as_str(), "/");
    proof {
        reveal_strlit("/");
        assert(("/")@ =~= seq!['/']);
        assert(url@ =~= base@ + spec_folder_path(t@.item.document_name) + seq!['/']);
    }
    let mut bound: Vec<DocumentContextSitemapItem> = Vec::new();
    if show_children {
        let n = t.children.len();
        let mut i: usize = 0;
        while i < n
            invariant
                i <= n,
                n == t.children@.len(),
                bound@.len() == i,
                next_depth == spec_depth_step(max_depth),
                forall|j: int| 0 <= j < i ==> (#[trigger] bound@[j])@ == spec_bind_node(
                    t@.children[j],
                    spec_depth_step(max_depth),
                    base@,
                ),
            decreases n - i,
        {
            let b = bind_node_ref(&t.children[i], next_depth, base);
            bound.push(b);
            proof {
                assert(t@.children[i as int] == t.children@[i as int]@);
            }
            i += 1;
        }
    }
    let r = DocumentContextSitemapItem {
        title: clone_string(&t.item.title),
        url,
        children: bound,
    };
    proof {
        let sp = spec_bind_node(t@, max_depth, base@);
        assert(r@.title == sp.title);
        assert(r@.url == sp.url);
        assert(r@.children =~~= sp.children);
        assert(r@ =~~= sp);
    }
    r
}

impl DocumentContextSitemapItem {
    /// Binds one sitemap node for the template, truncating children past
    /// the configured depth.
    pub fn from_sitemap_item(
        item: SitemapItem,
        max_depth: Option<usize>,
        site_base_url: &str,
    ) -> (r: DocumentContextSitemapItem)
        ensures
            r@ == spec_bind_node(item@, max_depth, site_base_url@),
    {
        bind_node_ref(&item, max_depth, site_base_url)
    }
}

/// One breadcrumb or child entry as bound into a context.
#[derive(Debug)]
pub struct DocumentContextBreadcrumbItem {
    pub title: String,
    pub url: String,
    pub description: String,
}

/// The bound local sitemap: breadcrumb and children, each omitted when
/// empty.
#[derive(Debug)]
pub struct DocumentContextLocalSitemap {
    pub breadcrumb: Option<Vec<DocumentContextBreadcrumbItem>>,
    pub children: Option<Vec<DocumentContextBreadcrumbItem>>,
}

/// Everything the page template sees for one document.
#[derive(Debug)]
pub struct DocumentContext {
    pub site_title: String,
    pub site_title_only: bool,
    pub site_base_url: String,
    pub page_title: String,
    pub page_description: Option<String>,
    pub page_description_content: Option<String>,
    pub page_url: String,
    pub has_site_links: bool,
    pub site_links: Vec<DocumentContextSiteLink>,
    pub toc: Option<String>,
    pub page_content: String,
    pub page_author_url: String,
    pub page_author: String,
    pub page_copyright_years: String,
    pub page_license: Option<String>,
    pub page_license_code: Option<String>,
    pub sitemap: Option<Vec<DocumentContextSitemapItem>>,
    pub local_sitemap: DocumentContextLocalSitemap,
}

/// How one breadcrumb entry is bound: the URL is the base URL, the
/// document's folder path and a `/`.
pub open spec fn bound_crumb_ok(c: DocumentContextBreadcrumbItem, x: ItemView, base: Seq<char>) -> bool {
    &&& c.title@ == x.title
    &&& c.url@ == base + spec_folder_path(x.document_name) + seq!['/']
    &&& c.description@ == x.description
}

/// Binds a list of breadcrumb items; `None` when the list is empty.
fn bind_crumbs(items: &Vec<crate::sitemap::BreadcrumbItem>, base: &str) -> (r: Option<
    Vec<DocumentContextBreadcrumbItem>,
>)
    ensures
        match r {
            None => items@.len() == 0,
            Some(v) => v@.len() == items@.len() && (forall|j: int|
                0 <= j < items@.len() ==> bound_crumb_ok(
                    #[trigger] v@[j],
                    items@[j]@,
                    base@,
                )),
        },
{
    if items.len() == 0 {
        return None;
    }
    let mut v: Vec<DocumentContextBreadcrumbItem> = Vec::new();
    let mut i: usize = 0;
    while i < items.len()
        invariant
            i <= items@.len(),
            v@.len() == i,
            forall|j: int| 0 <= j < i ==> bound_crumb_ok(#[trigger] v@[j], items@[j]@, base@),
        decreases items.len() - i,
    {
        let it = &items[i];
        let folder = it.document_name.folder_path();
        let url = concat3(base, folder.as_str(), "/");
        proof {
            reveal_strlit("/");
            assert(("/")@ =~= seq!['/']);
            assert(url@ =~= base@ + spec_folder_path(it.document_name@) + seq!['/']);
        }
        v.push(
            DocumentContextBreadcrumbItem {
                title: clone_string(&it.title),
                url,
                description: clone_string(&it.description),
            },
        );
        i += 1;
    }
    Some(v)
}

/// What the bound global sitemap must hold when the site enables it:
/// each sitemap root bound with the configured depth already reduced by
/// one, followed by the configured extra links as leaf entries.
pub open spec fn bound_sitemap_ok(
    v: Seq<DocumentContextSitemapItem>,
    forest: Seq<NodeView>,
    extra: Seq<crate::site::ExtraLinkView>,
    depth: Option<usize>,
    base: Seq<char>,
) -> bool {
    &&& v.len() == forest.len() + extra.len()
    &&& (forall|j: int| 0 <= j < forest.len() ==> (#[trigger] v[j])@ == spec_bind_node(
        forest[j],
        spec_depth_step(depth),
        base,
    ))
    &&& (forall|j: int|
        forest.len() <= j < v.len() ==> (#[trigger] v[j])@.title == extra[j - forest.len()].title
            && v[j]@.url == extra[j - forest.len()].url && v[j]@.children.len() == 0)
}

/// Everything the bound context of a document must satisfy: every field
/// derived exactly as the layout pass defines it, for a document view
/// `doc`, the site's sitemap `forest` and the document's `local`
/// sitemap.
pub open spec fn context_ok(
    r: DocumentContext,
    doc: crate::document::RenderedDocumentView,
    forest: Seq<NodeView>,
    local: crate::sitemap::LocalView,
) -> bool {
    &&& r.site_title@ == doc.site_metadata.config.title
    &&& r.site_title_only == false
    &&& r.site_base_url@ == doc.site_metadata.config.base_url
    &&& r.page_title@ == doc.data.title
    &&& crate::document::opt_view(r.page_description) == Some(doc.data.description)
    &&& crate::document::opt_view(r.page_description_content) == doc.data.description_content
    &&& r.page_url@ == doc.site_metadata.config.url + spec_folder_path(doc.data.name)
    &&& r.has_site_links == false
    &&& r.site_links@.len() == doc.site_metadata.config.links.len()
    &&& (forall|j: int| 0 <= j < r.site_links@.len() ==> (#[trigger] r.site_links@[j]).url@
        == doc.site_metadata.config.links[j].url && r.site_links@[j].name@
        == doc.site_metadata.config.links[j].name)
    &&& crate::document::opt_view(r.toc) == doc.data.toc
    &&& r.page_content@ == doc.data.content
    &&& crate::document::opt_view(r.page_license) == doc.data.license
    &&& crate::document::opt_view(r.page_license_code) == doc.data.license_code
    &&& (doc.site_metadata.config.sitemap.enable ==> match r.sitemap {
        Some(v) => bound_sitemap_ok(
            v@,
            forest,
            doc.site_metadata.config.sitemap.extra_links,
            doc.site_metadata.config.sitemap.depth,
            doc.site_metadata.config.base_url,
        ),
        None => false,
    })
    &&& (!doc.site_metadata.config.sitemap.enable ==> r.sitemap is None)
    &&& (match r.local_sitemap.breadcrumb {
        None => local.breadcrumb.len() == 0,
        Some(v) => v@.len() == local.breadcrumb.len() && (forall|j: int|
            0 <= j < v@.len() ==> bound_crumb_ok(
                #[trigger] v@[j],
                local.breadcrumb[j],
                doc.site_metadata.config.base_url,
            )),
    })
    &&& (match r.local_sitemap.children {
        None => local.children.len() == 0,
        Some(v) => v@.len() == local.children.len() && (forall|j: int|
            0 <= j < v@.len() ==> bound_crumb_ok(
                #[trigger] v@[j],
                local.children[j],
                doc.site_metadata.config.base_url,
            )),
    })
}

/// Binds the page template context for one document, exactly as the
/// layout pass hands it to the template engine.
pub fn document_context(
    rendered: &RenderedDocument,
    sitemap: &Sitemap,
    local_sitemap: &LocalSitemap,
) -> (r: DocumentContext)
    ensures
        context_ok(r, rendered@, sitemap@, local_sitemap@),
{
    broadcast use crate::sitemap::lemma_node_views_index, crate::sitemap::lemma_item_views_index;

    let site_config = &rendered.site_metadata.config;
    let folder = rendered.data.name.folder_path();
    let page_url = concat2(site_config.url.as_str(), folder.as_str());
    let mut site_links: Vec<DocumentContextSiteLink> = Vec::new();
    let mut i: usize = 0;
    while i < site_config.links.len()
        invariant
            i <= site_config.links@.len(),
            site_links@.len() == i,
            forall|j: int| 0 <= j < i ==> (#[trigger] site_links@[j]).url@
                == site_config.links@[j].url@ && site_links@[j].name@
                == site_config.links@[j].name@,
        decreases site_config.links.len() - i,
    {
        let link = &site_config.links[i];
        site_links.push(
            DocumentContextSiteLink {
                url: clone_string(&link.url),
                name: clone_string(&link.name),
            },
        );
        i += 1;
    }
    let bound_sitemap: Option<Vec<DocumentContextSitemapItem>> = if site_config.sitemap.enable {
        let next_depth = match site_config.sitemap.depth {
            None => None,
            Some(d) => if d > 0 {
                Some(d - 1)
            } else {
                Some(0usize)
            },
        };
        let mut v: Vec<DocumentContextSitemapItem> = Vec::new();
        let mut i: usize = 0;
        while i < sitemap.0.len()
            invariant
                i <= sitemap.0@.len(),
                v@.len() == i,
                next_depth == spec_depth_step(site_config.sitemap.depth),
                forall|j: int| 0 <= j < i ==> (#[trigger] v@[j])@ == spec_bind_node(
                    sitemap@[j],
                    spec_depth_step(site_config.sitemap.depth),
                    site_config.base_url@,
                ),
            decreases sitemap.0.len() - i,
        {
            let b = bind_node_ref(&sitemap.0[i], next_depth, site_config.base_url.as_str());
            v.push(b);
            i += 1;
        }
        let ghost forest_len = sitemap@.len();
        let mut k: usize = 0;
        while k < site_config.sitemap.extra_links.len()
            invariant
                k <= site_config.sitemap.extra_links@.len(),
                v@.len() == forest_len + k,
                forest_len == sitemap@.len(),
                forall|j: int| 0 <= j < forest_len ==> (#[trigger] v@[j])@ == spec_bind_node(
                    sitemap@[j],
                    spec_depth_step(site_config.sitemap.depth),
                    site_config.base_url@,
                ),
                forall|j: int| forest_len <= j < v@.len() ==> (#[trigger] v@[j])@.title
                    == site_config.sitemap@.extra_links[j - forest_len].title && v@[j]@.url
                    == site_config.sitemap@.extra_links[j - forest_len].url
                    && v@[j]@.children.len() == 0,
            decreases site_config.sitemap.extra_links.len() - k,
        {
            let e = &site_config.sitemap.extra_links[k];
            let b = DocumentContextSitemapItem {
                title: clone_string(&e.title),
                url: clone_string(&e.url),
                children: Vec::new(),
            };
            proof {
                assert(b@.children =~= Seq::<CtxNodeView>::empty());
                assert(crate::site::extra_link_views(site_config.sitemap.extra_links@)[k as int]
                    == site_config.sitemap.extra_links@[k as int]@) by {
                    crate::site::lemma_extra_link_views_index(
                        site_config.sitemap.extra_links@,
                        k as int,
                    );
                }
            }
            v.push(b);
            k += 1;
        }
        Some(v)
    } else {
        None
    };
    let breadcrumb = bind_crumbs(&local_sitemap.breadcrumb.0, site_config.base_url.as_str());
    let children = bind_crumbs(&local_sitemap.children, site_config.base_url.as_str());
    DocumentContext {
        site_title: clone_string(&site_config.title),
        site_title_only: false,
        site_base_url: clone_string(&site_config.base_url),
        page_title: clone_string(&rendered.data.title),
        page_description: Some(clone_string(&rendered.data.description)),
        page_description_content: clone_opt_string(&rendered.data.description_content),
        page_url,
        has_site_links: false,
        site_links,
        toc: clone_opt_string(&rendered.data.toc),
        page_content: clone_string(&rendered.data.content),
        page_author_url: "https://social.pacna.org/@wei".to_owned(),
        page_author: "Wei Tang".to_owned(),
        page_copyright_years: "2019-2023".to_owned(),
        page_license: clone_opt_string(&rendered.data.license),
        page_license_code: clone_opt_string(&rendered.data.license_code),
        sitemap: bound_sitemap,
        local_sitemap: DocumentContextLocalSitemap { breadcrumb, children },
    }
}

/// One spec entry as the spec-site templates see it.
#[derive(Debug)]
pub struct SpecItem {
    pub id: String,
    pub url: String,
    pub description: String,
    pub discuss: String,
}

/// The context of the spec index page: all specs in order.
#[derive(Debug)]
pub struct SpecIndexContext {
    pub specs: Vec<SpecItem>,
}

/// The context of one spec redirect page.
#[derive(Debug)]
pub struct SpecRedirectContext {
    pub spec: SpecItem,
}

/// How one spec is bound: its fields plus the redirect URL.
pub open spec fn bound_spec_ok(b: SpecItem, sp: crate::document::SpecBlockView, url: Seq<char>) -> bool {
    &&& b.id@ == sp.id
    &&& b.url@ == url
    &&& b.description@ == sp.description
    &&& b.discuss@ == sp.discuss
}

/// Binds the spec index context from specs paired with their redirect
/// URLs.
pub fn index_context(specs: &Vec<(Spec, String)>) -> (r: SpecIndexContext)
    ensures
        r.specs@.len() == specs@.len(),
        forall|j: int| 0 <= j < specs@.len() ==> bound_spec_ok(
            #[trigger] r.specs@[j],
            specs@[j].0@,
            specs@[j].1@,
        ),
{
    let mut v: Vec<SpecItem> = Vec::new();
    let mut i: usize = 0;
    while i < specs.len()
        invariant
            i <= specs@.len(),
            v@.len() == i,
            forall|j: int| 0 <= j < i ==> bound_spec_ok(
                #[trigger] v@[j],
                specs@[j].0@,
                specs@[j].1@,
            ),
        decreases specs.len() - i,
    {
        let pair = &specs[i];
        v.push(
            SpecItem {
                id: clone_string(&pair.0.id),
                url: clone_string(&pair.1),
                description: clone_string(&pair.0.description),
                discuss: clone_string(&pair.0.discuss),
            },
        );
        i += 1;
    }
    SpecIndexContext { specs: v }
}

/// Binds one spec redirect context.
pub fn redirect_context(spec: &Spec, url: &str) -> (r: SpecRedirectContext)
    ensures
        bound_spec_ok(r.spec, spec@, url@),
{
    SpecRedirectContext {
        spec: SpecItem {
            id: clone_string(&spec.id),
            url: url.to_owned(),
            description: clone_string(&spec.description),
            discuss: clone_string(&spec.discuss),
        },
    }
}

} // verus!
