use eighty::document::derive_name;
use eighty::layout::DocumentContextSitemapItem;
use eighty::sitemap::BreadcrumbItem;
use eighty::sitemap::Sitemap;
use eighty::sitemap::SitemapItem;

fn item(rel: &str, title: &str) -> BreadcrumbItem {
    BreadcrumbItem {
        title: title.to_string(),
        document_name: derive_name(rel, None).unwrap(),
        description: format!("about {}", title),
    }
}

#[test]
fn forest_follows_ancestors() {
    let sitemap = Sitemap::from(vec![
        item("guide/intro.md", "Intro"),
        item("guide/index.md", "Guide"),
        item("about.md", "About"),
    ]);
    // two top-level entries, sorted: about, then guide
    assert_eq!(sitemap.0.len(), 2);
    assert_eq!(sitemap.0[0].item.title, "About");
    assert_eq!(sitemap.0[1].item.title, "Guide");
    assert_eq!(sitemap.0[1].children.len(), 1);
    assert_eq!(sitemap.0[1].children[0].item.title, "Intro");
}

#[test]
fn root_is_left_out() {
    let sitemap = Sitemap::from(vec![item("index.md", "Home"), item("about.md", "About")]);
    assert_eq!(sitemap.0.len(), 1);
    assert_eq!(sitemap.0[0].item.title, "About");
}

#[test]
fn construction_is_order_independent() {
    let one = Sitemap::from(vec![
        item("guide/intro.md", "Intro"),
        item("guide/index.md", "Guide"),
        item("about.md", "About"),
    ]);
    let two = Sitemap::from(vec![
        item("about.md", "About"),
        item("guide/index.md", "Guide"),
        item("guide/intro.md", "Intro"),
    ]);
    assert_eq!(one.0.len(), two.0.len());
    for (a, b) in one.0.iter().zip(two.0.iter()) {
        assert_eq!(a.item.title, b.item.title);
        assert_eq!(a.children.len(), b.children.len());
        for (ca, cb) in a.children.iter().zip(b.children.iter()) {
            assert_eq!(ca.item.title, cb.item.title);
        }
    }
}

#[test]
fn maybe_insert_reports_acceptance() {
    let mut node = SitemapItem { item: item("guide/index.md", "Guide"), children: Vec::new() };
    assert!(node.maybe_insert(item("guide/intro.md", "Intro")));
    assert_eq!(node.children.len(), 1);
    assert!(!node.maybe_insert(item("about.md", "About")));
    assert_eq!(node.children.len(), 1);
}

#[test]
fn insert_appends_orphans_at_top_level() {
    let mut sitemap = Sitemap(Vec::new());
    sitemap.insert(item("guide/intro.md", "Intro"));
    sitemap.insert(item("about.md", "About"));
    assert_eq!(sitemap.0.len(), 2);
}

#[test]
fn local_of_root_lists_top_level() {
    let sitemap = Sitemap::from(vec![item("guide/index.md", "Guide"), item("about.md", "About")]);
    let root = derive_name("index.md", None).unwrap();
    let local = sitemap.local(&root).unwrap();
    assert!(local.breadcrumb.0.is_empty());
    assert_eq!(local.children.len(), 2);
}

#[test]
fn local_walks_breadcrumb() {
    let sitemap = Sitemap::from(vec![
        item("guide/intro.md", "Intro"),
        item("guide/index.md", "Guide"),
    ]);
    let intro = derive_name("guide/intro.md", None).unwrap();
    let local = sitemap.local(&intro).unwrap();
    assert_eq!(local.breadcrumb.0.len(), 1);
    assert_eq!(local.breadcrumb.0[0].title, "Guide");
    assert!(local.children.is_empty());
    let guide = derive_name("guide/index.md", None).unwrap();
    let local = sitemap.local(&guide).unwrap();
    assert!(local.breadcrumb.0.is_empty());
    assert_eq!(local.children.len(), 1);
    assert_eq!(local.children[0].title, "Intro");
}

#[test]
fn local_of_unknown_document_is_none() {
    let sitemap = Sitemap::from(vec![item("guide/index.md", "Guide")]);
    let other = derive_name("missing/thing.md", None).unwrap();
    assert!(sitemap.local(&other).is_none());
}

#[test]
fn deep_nesting_follows_every_ancestor() {
    let sitemap = Sitemap::from(vec![
        item("guide/advanced/tricks.md", "Tricks"),
        item("guide/index.md", "Guide"),
        item("guide/advanced/index.md", "Advanced"),
    ]);
    assert_eq!(sitemap.0.len(), 1);
    let guide = &sitemap.0[0];
    assert_eq!(guide.item.title, "Guide");
    assert_eq!(guide.children.len(), 1);
    let advanced = &guide.children[0];
    assert_eq!(advanced.item.title, "Advanced");
    assert_eq!(advanced.children.len(), 1);
    assert_eq!(advanced.children[0].item.title, "Tricks");
}

#[test]
fn posts_nest_under_their_folder() {
    let sitemap = Sitemap::from(vec![
        item("_posts/2021-03-14-notes.md", "Notes"),
        item("news.md", "News"),
    ]);
    // the post has no labels, so only a label-free non-post name is its ancestor
    assert_eq!(sitemap.0.len(), 2);
}

#[test]
fn sitemap_binding_truncates_at_depth() {
    let sitemap = Sitemap::from(vec![
        item("guide/advanced/tricks.md", "Tricks"),
        item("guide/index.md", "Guide"),
        item("guide/advanced/index.md", "Advanced"),
    ]);
    let root = sitemap.0.into_iter().next().unwrap();

    let unbounded = DocumentContextSitemapItem::from_sitemap_item(duplicate_node(&root), None, "/b/");
    assert_eq!(unbounded.title, "Guide");
    assert_eq!(unbounded.url, "/b/guide/");
    assert_eq!(unbounded.children.len(), 1);
    assert_eq!(unbounded.children[0].children.len(), 1);

    let shallow = DocumentContextSitemapItem::from_sitemap_item(duplicate_node(&root), Some(1), "/b/");
    assert_eq!(shallow.children.len(), 1);
    assert!(shallow.children[0].children.is_empty());

    let none = DocumentContextSitemapItem::from_sitemap_item(duplicate_node(&root), Some(0), "/b/");
    assert!(none.children.is_empty());
}

fn duplicate_node(t: &SitemapItem) -> SitemapItem {
    SitemapItem {
        item: t.item.duplicate(),
        children: t.children.iter().map(duplicate_node).collect(),
    }
}

#[test]
fn display_walks_depth_first_with_tabs() {
    let sitemap = Sitemap::from(vec![
        item("guide/intro.md", "Intro"),
        item("guide/index.md", "Guide"),
    ]);
    let shown = sitemap.display_string();
    assert_eq!(shown, "- guide: Guide\n\t- guide/intro: Intro\n");
    let post = derive_name("_posts/2021-03-14-notes.md", None).unwrap();
    assert_eq!(post.display_string(), "[post:2021-03-14,notes]");
    let root = derive_name("index.md", None).unwrap();
    assert_eq!(root.display_string(), "[index]");
}
