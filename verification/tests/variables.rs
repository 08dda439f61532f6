use eighty::document::derive_name;
use eighty::error::Error;
use eighty::variable::resolve_content;
use eighty::variable::search;
use eighty::xref::XrefIndex;

fn index_with(rel: &str, target_rel: &str) -> XrefIndex {
    let mut xrefs = XrefIndex::new();
    xrefs.insert(rel.to_string(), derive_name(target_rel, None).unwrap());
    xrefs
}

#[test]
fn search_finds_a_placeholder() {
    let vars = search("a @@XREFLINK:guide/intro.md@@ b").unwrap();
    assert_eq!(vars.len(), 1);
    assert_eq!(vars[0].full, "@@XREFLINK:guide/intro.md@@");
    assert_eq!(vars[0].name, "XREFLINK");
    assert_eq!(vars[0].arguments.as_deref(), Some("guide/intro.md"));
}

#[test]
fn search_without_arguments() {
    let vars = search("x @@SOMENAME@@ y").unwrap();
    assert_eq!(vars.len(), 1);
    assert_eq!(vars[0].name, "SOMENAME");
    assert!(vars[0].arguments.is_none());
}

#[test]
fn search_ignores_unpaired_markers() {
    let vars = search("nothing @@ here").unwrap();
    assert!(vars.is_empty());
}

#[test]
fn xref_resolution() {
    let xrefs = index_with("guide/intro.md", "guide/intro.md");
    let content = "<p>see @@XREFLINK:guide/intro.md@@ now</p>";
    let out = resolve_content(content, "/site/", &xrefs).unwrap();
    assert_eq!(out, "<p>see /site/guide/intro/ now</p>");
    assert!(!out.contains("@@"));
}

#[test]
fn two_placeholders_on_separate_lines() {
    let mut xrefs = XrefIndex::new();
    xrefs.insert("a.md".to_string(), derive_name("a.md", None).unwrap());
    xrefs.insert("b.md".to_string(), derive_name("b.md", None).unwrap());
    let content = "@@XREFLINK:a.md@@\n@@XREFLINK:b.md@@";
    let out = resolve_content(content, "/s/", &xrefs).unwrap();
    assert_eq!(out, "/s/a/\n/s/b/");
}

#[test]
fn unknown_variable_name_fails() {
    let xrefs = XrefIndex::new();
    let err = resolve_content("x @@OTHER:thing@@", "/s/", &xrefs).unwrap_err();
    assert_eq!(err, Error::UnsupportedVariable);
}

#[test]
fn missing_arguments_fail() {
    let xrefs = XrefIndex::new();
    let err = resolve_content("x @@XREFLINK@@", "/s/", &xrefs).unwrap_err();
    assert_eq!(err, Error::UnsupportedVariable);
}

#[test]
fn unresolved_target_fails() {
    let xrefs = XrefIndex::new();
    let err = resolve_content("x @@XREFLINK:gone.md@@", "/s/", &xrefs).unwrap_err();
    assert_eq!(err, Error::UnresolvedXreflink);
}

#[test]
fn later_binding_shadows_earlier() {
    let mut xrefs = XrefIndex::new();
    xrefs.insert("p.md".to_string(), derive_name("old.md", None).unwrap());
    xrefs.insert("p.md".to_string(), derive_name("new.md", None).unwrap());
    let out = resolve_content("@@XREFLINK:p.md@@", "/s/", &xrefs).unwrap();
    assert_eq!(out, "/s/new/");
}

#[test]
fn content_without_placeholders_is_unchanged() {
    let xrefs = XrefIndex::new();
    let content = "<h1>plain</h1>\nwith an email@example.org address";
    let out = resolve_content(content, "/s/", &xrefs).unwrap();
    assert_eq!(out, content);
}
