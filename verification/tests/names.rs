use eighty::document::derive_name;
use eighty::document::DocumentMetadata;
use eighty::document::DocumentName;
use eighty::document::DocumentType;
use eighty::error::Error;
use eighty::site::SiteConfig;
use eighty::site::SiteConfigSitemap;
use eighty::site::SiteMetadata;
use eighty::site::SiteName;

fn plain_config() -> SiteConfig {
    SiteConfig {
        title: "My Site".to_string(),
        url: "https://example.org/".to_string(),
        base_url: "/site/".to_string(),
        author: "someone".to_string(),
        email: "someone@example.org".to_string(),
        sitemap: SiteConfigSitemap { enable: true, depth: None, extra_links: Vec::new() },
        links: Vec::new(),
    }
}

#[test]
fn basic_non_post_document() {
    let name = derive_name("guide/intro.md", None).unwrap();
    assert_eq!(name.labels, vec!["guide".to_string(), "intro".to_string()]);
    assert!(name.post.is_none());
    assert!(name.id.is_none());
    assert_eq!(name.folder_path(), "guide/intro");
    assert_eq!(name.path(), "guide/intro/index.html");
}

#[test]
fn index_document_is_root() {
    let name = derive_name("index.md", None).unwrap();
    assert!(name.labels.is_empty());
    assert!(name.post.is_none());
    assert!(name.is_root());
    assert_eq!(name.folder_path(), "");
    assert_eq!(name.path(), "index.html");
}

#[test]
fn post_document() {
    let name = derive_name("_posts/2021-03-14-release-notes.md", None).unwrap();
    assert!(name.labels.is_empty());
    let post = name.post.as_ref().unwrap();
    assert_eq!(post.date, "2021-03-14");
    assert_eq!(post.label, "release-notes");
    assert_eq!(name.folder_path(), "2021/03/14/release-notes");
    assert_eq!(name.path(), "2021/03/14/release-notes/index.html");
}

#[test]
fn nested_index_keeps_folder_labels() {
    let name = derive_name("guide/index.md", None).unwrap();
    assert_eq!(name.labels, vec!["guide".to_string()]);
    assert_eq!(name.folder_path(), "guide");
}

#[test]
fn id_overrides_folder_path() {
    let name = derive_name("guide/intro.md", Some("custom/place".to_string())).unwrap();
    assert_eq!(name.folder_path(), "custom/place");
    assert_eq!(name.path(), "custom/place/index.html");
}

#[test]
fn path_is_folder_path_plus_index() {
    for rel in ["guide/intro.md", "a/b/c.adoc", "_posts/2022-01-02-x.md"] {
        let name = derive_name(rel, None).unwrap();
        let mut expected = name.folder_path();
        expected.push_str("/index.html");
        assert_eq!(name.path(), expected);
    }
}

#[test]
fn matches_own_paths() {
    let name = derive_name("guide/intro.md", None).unwrap();
    assert!(name.is_matched(&name.folder_path()));
    assert!(name.is_matched(&name.path()));
    assert!(!name.is_matched("guide/other"));
}

#[test]
fn ancestor_relation() {
    let guide = derive_name("guide/index.md", None).unwrap();
    let intro = derive_name("guide/intro.md", None).unwrap();
    let post = derive_name("_posts/2021-03-14-x.md", None).unwrap();
    let root_post = derive_name("index.md", None).unwrap();
    assert!(guide.is_ancestor_of(&intro));
    assert!(!intro.is_ancestor_of(&guide));
    assert!(!guide.is_ancestor_of(&guide));
    // a non-post name with the same labels is an ancestor of the post
    assert!(root_post.is_ancestor_of(&post));
    // posts are never ancestors
    assert!(!post.is_ancestor_of(&intro));
}

#[test]
fn invalid_components_are_rejected() {
    assert_eq!(derive_name("", None).unwrap_err(), Error::InvalidPathComponent);
    assert_eq!(derive_name("../intro.md", None).unwrap_err(), Error::InvalidPathComponent);
    assert_eq!(derive_name("a//b.md", None).unwrap_err(), Error::InvalidPathComponent);
}

#[test]
fn document_type_from_extension() {
    assert_eq!(DocumentType::try_from("adoc"), Ok(DocumentType::AsciiDoc));
    assert_eq!(DocumentType::try_from("md"), Ok(DocumentType::Markdown));
    assert_eq!(DocumentType::try_from("org"), Ok(DocumentType::Org));
    assert_eq!(DocumentType::try_from("txt"), Err(()));
}

#[test]
fn metadata_relative_path() {
    let site =
        SiteMetadata::new(SiteName("my-site".to_string()), "root/my-site", plain_config()).unwrap();
    let doc = DocumentMetadata::new(
        &site,
        "root/my-site/guide/intro.md",
        DocumentType::Markdown,
        7,
    )
    .unwrap();
    assert_eq!(doc.rel_source_path, "guide/intro.md");
    assert_eq!(doc.source_path, "root/my-site/guide/intro.md");
    assert_eq!(doc.modified, 7);
}

#[test]
fn metadata_outside_site_fails() {
    let site =
        SiteMetadata::new(SiteName("my-site".to_string()), "root/my-site", plain_config()).unwrap();
    let err = DocumentMetadata::new(&site, "elsewhere/intro.md", DocumentType::Markdown, 7)
        .unwrap_err();
    assert_eq!(err, Error::StripPrefix);
}

#[test]
fn name_equality_by_value() {
    let a = derive_name("guide/intro.md", None).unwrap();
    let b = derive_name("guide/intro.md", None).unwrap();
    let c = derive_name("guide/other.md", None).unwrap();
    assert!(a.same(&b));
    assert!(!a.same(&c));
    let d = a.duplicate();
    assert!(a.same(&d));
}

#[test]
fn name_ordering() {
    let a = derive_name("alpha/x.md", None).unwrap();
    let b = derive_name("beta/x.md", None).unwrap();
    assert!(a.le(&b));
    assert!(!b.le(&a));
    let parent = derive_name("alpha/index.md", None).unwrap();
    // the parent sorts before its child
    assert!(parent.le(&a));
    let post = derive_name("_posts/2021-01-01-x.md", None).unwrap();
    let root = derive_name("index.md", None).unwrap();
    // a non-post root sorts before a post with the same labels
    assert!(root.le(&post));
    assert!(!post.le(&root));
}
