use eighty::asset::AssetStore;
use eighty::document::asciidoc::AsciiDocOutput;
use eighty::document::asciidoc::AsciiDocOutputDocument;
use eighty::document::asciidoc::AsciiDocOutputSpec;
use eighty::document::markdown::MarkdownOutput;
use eighty::document::DocumentMetadata;
use eighty::document::DocumentType;
use eighty::document::RenderedDocument;
use eighty::site::SiteConfig;
use eighty::site::SiteConfigSitemap;
use eighty::site::SiteMetadata;
use eighty::site::SiteName;
use eighty::server::should_rebuild_for_path;
use eighty::workspace::full::collect_spec_pairs;
use eighty::workspace::full::sorted_spec_pairs;
use eighty::workspace::full::FullSite;
use eighty::workspace::full::FullSpec;
use eighty::workspace::full::FullSpecSite;
use eighty::workspace::full::FullWorkspace;
use eighty::workspace::post::SimplePostWorkspace;
use eighty::workspace::rendered::reuse_document;
use eighty::workspace::rendered::RenderedSite;

fn site() -> SiteMetadata {
    SiteMetadata::new(
        SiteName("my-site".to_string()),
        "root/my-site",
        SiteConfig {
            title: "My Site".to_string(),
            url: "https://example.org/".to_string(),
            base_url: "/site/".to_string(),
            author: "someone".to_string(),
            email: "someone@example.org".to_string(),
            sitemap: SiteConfigSitemap { enable: true, depth: None, extra_links: Vec::new() },
            links: Vec::new(),
        },
    )
    .unwrap()
}

fn markdown_doc(rel: &str, title: &str, content: &str) -> RenderedDocument {
    let site = site();
    let meta = DocumentMetadata::new(
        &site,
        &format!("root/my-site/{}", rel),
        DocumentType::Markdown,
        1,
    )
    .unwrap();
    RenderedDocument::from_markdown(
        site,
        meta,
        MarkdownOutput {
            title: title.to_string(),
            description: format!("{} description", title),
            description_content: String::new(),
            order: None,
            content: content.to_string(),
            toc: String::new(),
            id: None,
            sitemap_title: None,
        },
    )
    .unwrap()
}

fn asciidoc_doc_with_specs(rel: &str) -> RenderedDocument {
    let site = site();
    let meta = DocumentMetadata::new(
        &site,
        &format!("root/my-site/{}", rel),
        DocumentType::AsciiDoc,
        1,
    )
    .unwrap();
    let spec = |id: &str| AsciiDocOutputSpec {
        id: id.to_string(),
        description: format!("{} text", id),
        discuss: format!("https://discuss.example.org/{}", id),
        source_path: rel.to_string(),
        anchor: id.to_string(),
    };
    RenderedDocument::from_asciidoc(
        site,
        meta,
        AsciiDocOutput {
            document: AsciiDocOutputDocument {
                title: "Spec Host".to_string(),
                license: None,
                license_code: None,
                author: None,
                email: None,
                order: None,
                toc: None,
                created: None,
                description: "d".to_string(),
                content: "<p>body</p>".to_string(),
            },
            specs: vec![spec("s2"), spec("s1")],
        },
    )
    .unwrap()
}

#[test]
fn full_stage_resolves_xreflinks() {
    let a = markdown_doc("guide/intro.md", "Intro", "<p>intro</p>");
    let b = markdown_doc("guide/more.md", "More", "<p>see @@XREFLINK:guide/intro.md@@</p>");
    let rendered = RenderedSite::new(site(), vec![a, b], Vec::new());
    let prep = FullSite::prepare(&rendered).unwrap();
    assert_eq!(prep.contexts.len(), 2);
    // stand in for the template engine: pages are the raw content
    let pages = vec![
        prep.contexts[0].page_content.clone(),
        prep.contexts[1].page_content.clone(),
    ];
    let full = FullSite::assemble(&rendered, prep, pages).unwrap();
    assert_eq!(full.documents.len(), 2);
    assert_eq!(full.documents[1].content, "<p>see /site/guide/intro/</p>");
    assert!(!full.documents[1].content.contains("@@"));
}

#[test]
fn contexts_carry_page_urls() {
    let a = markdown_doc("guide/intro.md", "Intro", "<p>intro</p>");
    let rendered = RenderedSite::new(site(), vec![a], Vec::new());
    let prep = FullSite::prepare(&rendered).unwrap();
    let ctx = &prep.contexts[0];
    assert_eq!(ctx.site_title, "My Site");
    assert_eq!(ctx.site_base_url, "/site/");
    assert_eq!(ctx.page_title, "Intro");
    assert_eq!(ctx.page_url, "https://example.org/guide/intro");
    assert!(ctx.sitemap.is_some());
}

#[test]
fn post_stage_emits_documents_and_assets() {
    let a = markdown_doc("guide/intro.md", "Intro", "<p>intro</p>");
    let rendered = RenderedSite::new(site(), vec![a], Vec::new());
    let prep = FullSite::prepare(&rendered).unwrap();
    let pages = vec!["<html>page</html>".to_string()];
    let full_site = FullSite::assemble(&rendered, prep, pages).unwrap();
    let assets = AssetStore::new(vec![("css/main.css".to_string(), b"body{}".to_vec())]);
    let spec_site = FullSpecSite::new(Vec::new(), "<html>specs</html>".to_string());
    let full = FullWorkspace::new("root", assets, vec![full_site], spec_site);
    let post = SimplePostWorkspace::new(&full).unwrap();
    assert_eq!(post.0.len(), 2);
    let (name, my_site) = &post.0[0];
    assert_eq!(name.0, "my-site");
    assert_eq!(my_site.base_url, "/site/");
    let paths: Vec<&str> = my_site.files.iter().map(|e| e.0.as_str()).collect();
    assert!(paths.contains(&"css/main.css"));
    assert!(paths.contains(&"guide/intro/index.html"));
    // emitted paths are unique
    let mut sorted = paths.clone();
    sorted.sort();
    sorted.dedup();
    assert_eq!(sorted.len(), paths.len());
    let (spec_name, specs_site) = &post.0[1];
    assert_eq!(spec_name.0, "specs");
    assert_eq!(specs_site.base_url, "/");
    assert!(specs_site.files.iter().any(|e| e.0 == "index.html"));
}

#[test]
fn spec_aggregation() {
    let doc = asciidoc_doc_with_specs("guide/intro.adoc");
    let rendered = RenderedSite::new(site(), vec![doc], Vec::new());
    let prep = FullSite::prepare(&rendered).unwrap();
    let pages = vec!["<html>x</html>".to_string()];
    let full_site = FullSite::assemble(&rendered, prep, pages).unwrap();
    let pairs = collect_spec_pairs(&vec![full_site]);
    assert_eq!(pairs.len(), 2);
    assert_eq!(pairs[0].1, "https://example.org/guide/intro/");
    let sorted = sorted_spec_pairs(pairs);
    assert_eq!(sorted[0].0.id, "s1");
    assert_eq!(sorted[1].0.id, "s2");
    let full_specs: Vec<FullSpec> = sorted
        .into_iter()
        .map(|(spec, url)| {
            let redirect = format!("<meta url={}>", url);
            FullSpec::new(spec, redirect, url)
        })
        .collect();
    assert_eq!(full_specs[0].path(), "s1/index.html");
    assert_eq!(full_specs[0].folder_path(), "s1");
    let spec_site = FullSpecSite::new(full_specs, "<html>index</html>".to_string());
    let assets = AssetStore::new(Vec::new());
    let full = FullWorkspace::new("root", assets, Vec::new(), spec_site);
    let post = SimplePostWorkspace::new(&full).unwrap();
    let (_, specs_site) = &post.0[0];
    let paths: Vec<&str> = specs_site.files.iter().map(|e| e.0.as_str()).collect();
    assert!(paths.contains(&"index.html"));
    assert!(paths.contains(&"s1/index.html"));
    assert!(paths.contains(&"s2/index.html"));
}

#[test]
fn duplicate_spec_ids_keep_the_last() {
    let doc = asciidoc_doc_with_specs("guide/intro.adoc");
    let other = asciidoc_doc_with_specs("other.adoc");
    let rendered = RenderedSite::new(site(), vec![doc, other], Vec::new());
    let prep = FullSite::prepare(&rendered).unwrap();
    let pages = vec!["a".to_string(), "b".to_string()];
    let full_site = FullSite::assemble(&rendered, prep, pages).unwrap();
    let pairs = collect_spec_pairs(&vec![full_site]);
    assert_eq!(pairs.len(), 4);
    let sorted = sorted_spec_pairs(pairs);
    // both ids survive once, bound to the later document's folder
    assert_eq!(sorted.len(), 2);
    assert_eq!(sorted[0].0.id, "s1");
    assert_eq!(sorted[0].1, "https://example.org/other/");
    assert_eq!(sorted[1].0.id, "s2");
}

#[test]
fn reuse_requires_equal_metadata() {
    let old = markdown_doc("guide/intro.md", "Intro", "<p>old body</p>");
    let site_now = site();
    let same_meta = DocumentMetadata::new(
        &site_now,
        "root/my-site/guide/intro.md",
        DocumentType::Markdown,
        1,
    )
    .unwrap();
    let reused = reuse_document(&site_now, &same_meta, Some(&old)).unwrap();
    assert_eq!(reused.data.content, "<p>old body</p>");
    assert_eq!(reused.data.title, "Intro");
    let touched = DocumentMetadata::new(
        &site_now,
        "root/my-site/guide/intro.md",
        DocumentType::Markdown,
        2,
    )
    .unwrap();
    assert!(reuse_document(&site_now, &touched, Some(&old)).is_none());
    assert!(reuse_document(&site_now, &same_meta, None).is_none());
}

#[test]
fn server_lookup_falls_back_to_index() {
    let a = markdown_doc("guide/intro.md", "Intro", "<p>intro</p>");
    let rendered = RenderedSite::new(site(), vec![a], Vec::new());
    let prep = FullSite::prepare(&rendered).unwrap();
    let full_site =
        FullSite::assemble(&rendered, prep, vec!["<html>page</html>".to_string()]).unwrap();
    let full = FullWorkspace::new(
        "root",
        AssetStore::new(Vec::new()),
        vec![full_site],
        FullSpecSite::new(Vec::new(), String::new()),
    );
    let post = SimplePostWorkspace::new(&full).unwrap();
    let (_, my_site) = &post.0[0];
    let (bytes, is_html) = my_site.lookup("guide/intro").unwrap();
    assert_eq!(bytes, b"<html>page</html>");
    assert!(is_html);
    let (_, is_html) = my_site.lookup("guide/intro/index.html").unwrap();
    assert!(is_html);
    assert!(my_site.lookup("missing").is_none());
}

#[test]
fn watcher_ignores_hidden_paths() {
    assert_eq!(should_rebuild_for_path("root/site/page.md", "root"), Ok(true));
    assert_eq!(should_rebuild_for_path("root/.git/x", "root"), Ok(false));
    assert!(should_rebuild_for_path("elsewhere/x", "root").is_err());
}
