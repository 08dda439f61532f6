//! Per-site identity and configuration. A site is a named source folder
//! with a configuration whose `url` and `base_url` must end with `/`;
//! the name `specs` is reserved for the synthetic cross-site spec site.

use vstd::prelude::*;

verus! {

use crate::error::Error;
use crate::strutil::clone_string;
use crate::strutil::str_eq;

broadcast use crate::strutil::lemma_views_index, crate::strutil::lemma_views_push;

/// The name of a site: the name of its source folder under the workspace
/// root.
#[derive(Debug)]
pub struct SiteName(pub String);

impl View for SiteName {
    type V = Seq<char>;

    open spec fn view(&self) -> Seq<char> {
        self.0@
    }
}

impl SiteName {
    /// A copy with the same characters and thus the same value.
    pub fn duplicate(&self) -> (r: SiteName)
        ensures
            r == *self,
    {
        SiteName(clone_string(&self.0))
    }

    /// Whether the two names hold the same characters.
    pub fn same(&self, other: &SiteName) -> (r: bool)
        ensures
            r == (self@ == other@),
    {
        self.0 == other.0
    }
}

/// The mathematical value of a navigation link.
#[verifier::ext_equal]
pub ghost struct LinkView {
    pub name: Seq<char>,
    pub url: Seq<char>,
}

/// The mathematical value of an extra sitemap link.
#[verifier::ext_equal]
pub ghost struct ExtraLinkView {
    pub title: Seq<char>,
    pub url: Seq<char>,
}

/// The mathematical value of a sitemap configuration.
#[verifier::ext_equal]
pub ghost struct SitemapConfigView {
    pub enable: bool,
    pub depth: Option<usize>,
    pub extra_links: Seq<ExtraLinkView>,
}

/// The mathematical value of a site configuration.
#[verifier::ext_equal]
pub ghost struct SiteConfigView {
    pub title: Seq<char>,
    pub url: Seq<char>,
    pub base_url: Seq<char>,
    pub author: Seq<char>,
    pub email: Seq<char>,
    pub sitemap: SitemapConfigView,
    pub links: Seq<LinkView>,
}

/// The mathematical value of a site: name, source location,
/// configuration.
#[verifier::ext_equal]
pub ghost struct SiteMetadataView {
    pub name: Seq<char>,
    pub source_path: Seq<char>,
    pub config: SiteConfigView,
}

/// One navigation link of a site.
#[derive(Debug)]
pub struct SiteConfigLink {
    pub name: String,
    pub url: String,
}

impl View for SiteConfigLink {
    type V = LinkView;

    open spec fn view(&self) -> LinkView {
        LinkView { name: self.name@, url: self.url@ }
    }
}

impl SiteConfigLink {
    /// A copy holding the same characters.
    pub fn duplicate(&self) -> (r: SiteConfigLink)
        ensures
            r@ == self@,
    {
        SiteConfigLink { name: clone_string(&self.name), url: clone_string(&self.url) }
    }
}

/// One extra link appended to the bound sitemap.
#[derive(Debug)]
pub struct SiteConfigExtraLink {
    pub title: String,
    pub url: String,
}

impl View for SiteConfigExtraLink {
    type V = ExtraLinkView;

    open spec fn view(&self) -> ExtraLinkView {
        ExtraLinkView { title: self.title@, url: self.url@ }
    }
}

impl SiteConfigExtraLink {
    /// A copy holding the same characters.
    pub fn duplicate(&self) -> (r: SiteConfigExtraLink)
        ensures
            r@ == self@,
    {
        SiteConfigExtraLink { title: clone_string(&self.title), url: clone_string(&self.url) }
    }
}

/// The views of a sequence of links.
pub open spec fn link_views(s: Seq<SiteConfigLink>) -> Seq<LinkView> {
    s.map_values(|x: SiteConfigLink| x@)
}

/// The views of a sequence of extra links.
pub open spec fn extra_link_views(s: Seq<SiteConfigExtraLink>) -> Seq<ExtraLinkView> {
    s.map_values(|x: SiteConfigExtraLink| x@)
}

pub broadcast proof fn lemma_link_views_index(s: Seq<SiteConfigLink>, i: int)
    requires
        0 <= i < s.len(),
    ensures
        #[trigger] link_views(s)[i] == s[i]@,
{
}

pub broadcast proof fn lemma_link_views_push(s: Seq<SiteConfigLink>, x: SiteConfigLink)
    ensures
        #[trigger] link_views(s.push(x)) =~= link_views(s).push(x@),
{
    assert forall|i: int| 0 <= i < s.len() + 1 implies link_views(s.push(x))[i] == link_views(
        s,
    ).push(x@)[i] by {
        if i < s.len() {
            assert(s.push(x)[i] == s[i]);
        } else {
            assert(s.push(x)[i] == x);
        }
    }
}

pub broadcast proof fn lemma_extra_link_views_index(s: Seq<SiteConfigExtraLink>, i: int)
    requires
        0 <= i < s.len(),
    ensures
        #[trigger] extra_link_views(s)[i] == s[i]@,
{
}

pub broadcast proof fn lemma_extra_link_views_push(s: Seq<SiteConfigExtraLink>, x: SiteConfigExtraLink)
    ensures
        #[trigger] extra_link_views(s.push(x)) =~= extra_link_views(s).push(x@),
{
    assert forall|i: int| 0 <= i < s.len() + 1 implies extra_link_views(s.push(x))[i]
        == extra_link_views(s).push(x@)[i] by {
        if i < s.len() {
            assert(s.push(x)[i] == s[i]);
        } else {
            assert(s.push(x)[i] == x);
        }
    }
}

/// The sitemap section of a site's configuration.
#[derive(Debug)]
pub struct SiteConfigSitemap {
    pub enable: bool,
    pub depth: Option<usize>,
    pub extra_links: Vec<SiteConfigExtraLink>,
}

impl View for SiteConfigSitemap {
    type V = SitemapConfigView;

    open spec fn view(&self) -> SitemapConfigView {
        SitemapConfigView {
            enable: self.enable,
            depth: self.depth,
            extra_links: extra_link_views(self.extra_links@),
        }
    }
}

impl SiteConfigSitemap {
    /// A copy holding the same values.
    pub fn duplicate(&self) -> (r: SiteConfigSitemap)
        ensures
            r@ == self@,
    {
        broadcast use lemma_extra_link_views_index, lemma_extra_link_views_push;

        let mut extra_links: Vec<SiteConfigExtraLink> = Vec::new();
        let mut i: usize = 0;
        while i < self.extra_links.len()
            invariant
                i <= self.extra_links@.len(),
                extra_links@.len() == i,
                forall|j: int| 0 <= j < i ==> (#[trigger] extra_links@[j])@
                    == self.extra_links@[j]@,
            decreases self.extra_links.len() - i,
        {
            extra_links.push(self.extra_links[i].duplicate());
            i += 1;
        }
        let r = SiteConfigSitemap { enable: self.enable, depth: self.depth, extra_links };
        proof {
            assert(extra_link_views(r.extra_links@) =~= extra_link_views(self.extra_links@));
            assert(r@ =~~= self@);
        }
        r
    }

    /// Whether two sitemap configurations have the same value.
    pub fn same(&self, other: &SiteConfigSitemap) -> (r: bool)
        ensures
            r == (self@ == other@),
    {
        broadcast use lemma_extra_link_views_index;

        if self.enable != other.enable {
            return false;
        }
        match (self.depth, other.depth) {
            (Some(a), Some(b)) => {
                if a != b {
                    return false;
                }
            },
            (None, None) => {},
            (Some(_), None) => {
                return false;
            },
            (None, Some(_)) => {
                return false;
            },
        }
        if self.extra_links.len() != other.extra_links.len() {
            proof {
                assert(extra_link_views(self.extra_links@).len() != extra_link_views(
                    other.extra_links@,
                ).len());
            }
            return false;
        }
        let n = self.extra_links.len();
        let mut i: usize = 0;
        while i < n
            invariant
                i <= n,
                n == self.extra_links@.len(),
                n == other.extra_links@.len(),
                forall|j: int| 0 <= j < i ==> extra_link_views(self.extra_links@)[j]
                    == extra_link_views(other.extra_links@)[j],
            decreases n - i,
        {
            let a = &self.extra_links[i];
            let b = &other.extra_links[i];
            if !str_eq(a.title.as_str(), b.title.as_str()) || !str_eq(
                a.url.as_str(),
                b.url.as_str(),
            ) {
                proof {
                    assert(extra_link_views(self.extra_links@)[i as int] != extra_link_views(
                        other.extra_links@,
                    )[i as int]);
                }
                return false;
            }
            proof {
                assert(extra_link_views(self.extra_links@)[i as int] =~= extra_link_views(
                    other.extra_links@,
                )[i as int]);
            }
            i += 1;
        }
        proof {
            assert(extra_link_views(self.extra_links@) =~= extra_link_views(other.extra_links@));
            assert(self@ =~~= other@);
        }
        true
    }
}

/// A site's configuration, as read from its source root.
#[derive(Debug)]
pub struct SiteConfig {
    pub title: String,
    pub url: String,
    pub base_url: String,
    pub author: String,
    pub email: String,
    pub sitemap: SiteConfigSitemap,
    pub links: Vec<SiteConfigLink>,
}

impl View for SiteConfig {
    type V = SiteConfigView;

    open spec fn view(&self) -> SiteConfigView {
        SiteConfigView {
            title: self.title@,
            url: self.url@,
            base_url: self.base_url@,
            author: self.author@,
            email: self.email@,
            sitemap: self.sitemap@,
            links: link_views(self.links@),
        }
    }
}

impl SiteConfig {
    /// A copy holding the same values.
    pub fn duplicate(&self) -> (r: SiteConfig)
        ensures
            r@ == self@,
    {
        broadcast use lemma_link_views_index, lemma_link_views_push;

        let mut links: Vec<SiteConfigLink> = Vec::new();
        let mut i: usize = 0;
        while i < self.links.len()
            invariant
                i <= self.links@.len(),
                links@.len() == i,
                forall|j: int| 0 <= j < i ==> (#[trigger] links@[j])@ == self.links@[j]@,
            decreases self.links.len() - i,
        {
            links.push(self.links[i].duplicate());
            i += 1;
        }
        let r = SiteConfig {
            title: clone_string(&self.title),
            url: clone_string(&self.url),
            base_url: clone_string(&self.base_url),
            author: clone_string(&self.author),
            email: clone_string(&self.email),
            sitemap: self.sitemap.duplicate(),
            links,
        };
        proof {
            assert(link_views(r.links@) =~= link_views(self.links@));
            assert(r@ =~~= self@);
        }
        r
    }

    /// Whether two configurations have the same value.
    pub fn same(&self, other: &SiteConfig) -> (r: bool)
        ensures
            r == (self@ == other@),
    {
        broadcast use lemma_link_views_index;

        if !str_eq(self.title.as_str(), other.title.as_str()) || !str_eq(
            self.url.as_str(),
            other.url.as_str(),
        ) || !str_eq(self.base_url.as_str(), other.base_url.as_str()) || !str_eq(
            self.author.as_str(),
            other.author.as_str(),
        ) || !str_eq(self.email.as_str(), other.email.as_str()) {
            return false;
        }
        if !self.sitemap.same(&other.sitemap) {
            return false;
        }
        if self.links.len() != other.links.len() {
            proof {
                assert(link_views(self.links@).len() != link_views(other.links@).len());
            }
            return false;
        }
        let n = self.links.len();
        let mut i: usize = 0;
        while i < n
            invariant
                i <= n,
                n == self.links@.len(),
                n == other.links@.len(),
                forall|j: int| 0 <= j < i ==> link_views(self.links@)[j] == link_views(
                    other.links@,
                )[j],
            decreases n - i,
        {
            let a = &self.links[i];
            let b = &other.links[i];
            if !str_eq(a.name.as_str(), b.name.as_str()) || !str_eq(
                a.url.as_str(),
                b.url.as_str(),
            ) {
                proof {
                    assert(link_views(self.links@)[i as int] != link_views(other.links@)[i as int]);
                }
                return false;
            }
            proof {
                assert(link_views(self.links@)[i as int] =~= link_views(other.links@)[i as int]);
            }
            i += 1;
        }
        proof {
            assert(link_views(self.links@) =~= link_views(other.links@));
            assert(self@ =~~= other@);
        }
        true
    }
}

/// Whether a configured site URL is acceptable: non-empty and ending
/// with `/`.
pub open spec fn valid_site_url(u: Seq<char>) -> bool {
    u.len() > 0 && u[u.len() - 1] == '/'
}

/// A site together with its source location and configuration.
#[derive(Debug)]
pub struct SiteMetadata {
    pub name: SiteName,
    pub source_path: String,
    pub config: SiteConfig,
}

impl View for SiteMetadata {
    type V = SiteMetadataView;

    open spec fn view(&self) -> SiteMetadataView {
        SiteMetadataView { name: self.name@, source_path: self.source_path@, config: self.config@ }
    }
}

impl SiteMetadata {
    /// A copy holding the same values.
    pub fn duplicate(&self) -> (r: SiteMetadata)
        ensures
            r@ == self@,
    {
        let r = SiteMetadata {
            name: self.name.duplicate(),
            source_path: clone_string(&self.source_path),
            config: self.config.duplicate(),
        };
        proof {
            assert(r@ =~~= self@);
        }
        r
    }

    /// Whether two sites have the same value: the comparison incremental
    /// reuse rests on.
    pub fn same(&self, other: &SiteMetadata) -> (r: bool)
        ensures
            r == (self@ == other@),
    {
        self.name.same(&other.name) && str_eq(self.source_path.as_str(), other.source_path.as_str())
            && self.config.same(&other.config)
    }
}

impl SiteMetadata {
    /// The invariant every constructed site satisfies: the name is not
    /// reserved and both configured URLs end with `/`.
    pub open spec fn wf(&self) -> bool {
        &&& self.name@ != "specs"@
        &&& valid_site_url(self.config.url@)
        &&& valid_site_url(self.config.base_url@)
    }

    /// Accepts a site exactly when its name is not the reserved `specs`
    /// and both of its configured URLs end with `/`.
    pub fn new(name: SiteName, path: &str, config: SiteConfig) -> (r: Result<SiteMetadata, Error>)
        ensures
            match r {
                Ok(site) => {
                    &&& site.name == name
                    &&& site.source_path@ == path@
                    &&& site.config == config
                    &&& site.wf()
                },
                Err(e) => {
                    &&& (e == Error::ReservedSiteName <==> name@ == "specs"@)
                    &&& (e == Error::MalformedSiteConfig <==> (name@ != "specs"@ && !(
                    valid_site_url(config.url@) && valid_site_url(config.base_url@))))
                },
            },
            r is Err <==> (name@ == "specs"@ || !(valid_site_url(config.url@) && valid_site_url(
                config.base_url@,
            ))),
    {
        if crate::strutil::str_eq(name.0.as_str(), "specs") {
            return Err(Error::ReservedSiteName);
        }
        if !crate::strutil::ends_with_char(config.url.as_str(), '/') || !crate::strutil::ends_with_char(
            config.base_url.as_str(),
            '/',
        ) {
            return Err(Error::MalformedSiteConfig);
        }
        Ok(SiteMetadata { name, source_path: path.to_owned(), config })
    }
}

} // verus!
