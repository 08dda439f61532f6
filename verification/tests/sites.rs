use eighty::error::Error;
use eighty::site::SiteConfig;
use eighty::site::SiteConfigLink;
use eighty::site::SiteConfigSitemap;
use eighty::site::SiteMetadata;
use eighty::site::SiteName;
use eighty::workspace::metadatad::classify_extension;
use eighty::workspace::metadatad::site_entry_filter;
use eighty::workspace::metadatad::workspace_site_filter;
use eighty::document::DocumentType;

fn config(url: &str, base: &str) -> SiteConfig {
    SiteConfig {
        title: "T".to_string(),
        url: url.to_string(),
        base_url: base.to_string(),
        author: "a".to_string(),
        email: "e".to_string(),
        sitemap: SiteConfigSitemap { enable: false, depth: None, extra_links: Vec::new() },
        links: vec![SiteConfigLink { name: "n".to_string(), url: "u".to_string() }],
    }
}

#[test]
fn reserved_site_name() {
    let err = SiteMetadata::new(
        SiteName("specs".to_string()),
        "root/specs",
        config("https://x/", "/x/"),
    )
    .unwrap_err();
    assert_eq!(err, Error::ReservedSiteName);
}

#[test]
fn urls_must_end_with_slash() {
    let err = SiteMetadata::new(
        SiteName("my-site".to_string()),
        "root/my-site",
        config("https://x", "/x/"),
    )
    .unwrap_err();
    assert_eq!(err, Error::MalformedSiteConfig);
    let err = SiteMetadata::new(
        SiteName("my-site".to_string()),
        "root/my-site",
        config("https://x/", "/x"),
    )
    .unwrap_err();
    assert_eq!(err, Error::MalformedSiteConfig);
    assert!(SiteMetadata::new(
        SiteName("my-site".to_string()),
        "root/my-site",
        config("https://x/", "/x/"),
    )
    .is_ok());
}

#[test]
fn site_equality_for_reuse() {
    let a = SiteMetadata::new(SiteName("s".to_string()), "r/s", config("https://x/", "/x/"))
        .unwrap();
    let b = SiteMetadata::new(SiteName("s".to_string()), "r/s", config("https://x/", "/x/"))
        .unwrap();
    let c = SiteMetadata::new(SiteName("s".to_string()), "r/s", config("https://y/", "/x/"))
        .unwrap();
    assert!(a.same(&b));
    assert!(!a.same(&c));
    assert!(a.same(&a.duplicate()));
}

#[test]
fn discovery_filters() {
    assert!(site_entry_filter("_posts", true));
    assert!(!site_entry_filter("_posts", false));
    assert!(!site_entry_filter("_drafts", true));
    assert!(!site_entry_filter(".git", true));
    assert!(site_entry_filter("guide", true));
    assert!(site_entry_filter("intro.md", false));
    assert!(workspace_site_filter("my-site"));
    assert!(!workspace_site_filter("_assets"));
    assert!(!workspace_site_filter(".hidden"));
}

#[test]
fn classification_by_extension() {
    assert_eq!(classify_extension("guide/intro.md"), Some(DocumentType::Markdown));
    assert_eq!(classify_extension("a/b.adoc"), Some(DocumentType::AsciiDoc));
    assert_eq!(classify_extension("x.org"), Some(DocumentType::Org));
    assert_eq!(classify_extension("style.css"), None);
    assert_eq!(classify_extension("README"), None);
}
