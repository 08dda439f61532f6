//! Document identity. A document's canonical name is derived from its
//! source path relative to the site root; the name in turn determines the
//! folder and file the rendered page is emitted at, and the ancestor
//! relation the sitemap is built from.

use vstd::prelude::*;

pub mod asciidoc;
pub mod markdown;
pub mod org;

verus! {

use crate::error::Error;
use crate::site::SiteMetadata;
use crate::strutil::clone_opt_string;
use crate::strutil::clone_string;
use crate::strutil::clone_strings;
use crate::strutil::concat2;
use crate::strutil::file_stem;
use crate::strutil::first_eq_index;
use crate::strutil::join_strings;
use crate::strutil::join_with;
use crate::strutil::lemma_first_eq_index;
use crate::strutil::lemma_first_eq_index_is;
use crate::strutil::lemma_first_eq_index_none;
use crate::strutil::split_char;
use crate::strutil::split_on;
use crate::strutil::stem_of;
use crate::strutil::str_eq;
use crate::strutil::strip_prefix;
use crate::strutil::strip_prefix_spec;
use crate::strutil::views;
use vstd::string::StrSliceExecFns;
use vstd::string::StringExecFns;

broadcast use crate::strutil::lemma_views_index, crate::strutil::lemma_views_push, vstd::string::group_string_axioms;

/// The mathematical value of a post label: date and slug.
#[verifier::ext_equal]
pub ghost struct PostLabelView {
    pub date: Seq<char>,
    pub label: Seq<char>,
}

/// The mathematical value of a document name.
#[verifier::ext_equal]
pub ghost struct NameView {
    pub id: Option<Seq<char>>,
    pub labels: Seq<Seq<char>>,
    pub post: Option<PostLabelView>,
}

/// The date and slug a post document carries in its file name.
#[derive(Debug)]
pub struct DocumentPostLabel {
    pub date: String,
    pub label: String,
}

impl View for DocumentPostLabel {
    type V = PostLabelView;

    open spec fn view(&self) -> PostLabelView {
        PostLabelView { date: self.date@, label: self.label@ }
    }
}

impl DocumentPostLabel {
    /// A copy holding the same characters.
    pub fn duplicate(&self) -> (r: DocumentPostLabel)
        ensures
            r@ == self@,
    {
        DocumentPostLabel { date: clone_string(&self.date), label: clone_string(&self.label) }
    }
}

/// The canonical identity of a document: an optional override id, the
/// ordered labels of its folder, and the post label when it lives under
/// `_posts`.
#[derive(Debug)]
pub struct DocumentName {
    pub id: Option<String>,
    pub labels: Vec<String>,
    pub post: Option<DocumentPostLabel>,
}

/// The view of an optional string.
pub open spec fn opt_view(o: Option<String>) -> Option<Seq<char>> {
    match o {
        Some(s) => Some(s@),
        None => None,
    }
}

/// The view of an optional post label.
pub open spec fn opt_post_view(o: Option<DocumentPostLabel>) -> Option<PostLabelView> {
    match o {
        Some(p) => Some(p@),
        None => None,
    }
}

impl View for DocumentName {
    type V = NameView;

    open spec fn view(&self) -> NameView {
        NameView {
            id: opt_view(self.id),
            labels: views(self.labels@),
            post: opt_post_view(self.post),
        }
    }
}

/// The folder a document is emitted under: the override id when present,
/// else the labels joined by `/`, with the split date and the slug
/// appended for posts.
pub open spec fn spec_folder_path(n: NameView) -> Seq<char> {
    match n.id {
        Some(id) => id,
        None => {
            let comps = match n.post {
                Some(p) => n.labels + split_on(p.date, '-').push(p.label),
                None => n.labels,
            };
            join_with(comps, seq!['/'])
        },
    }
}

/// The file a document is emitted at: `index.html` inside its folder.
pub open spec fn spec_path(n: NameView) -> Seq<char> {
    let f = spec_folder_path(n);
    if f.len() == 0 {
        "index.html"@
    } else {
        f + seq!['/'] + "index.html"@
    }
}

/// Whether `other` is one of the two paths a document answers to.
pub open spec fn spec_is_matched(n: NameView, other: Seq<char>) -> bool {
    other == spec_path(n) || other == spec_folder_path(n)
}

/// Whether a name is the site root: no labels and not a post.
pub open spec fn spec_is_root(n: NameView) -> bool {
    n.labels.len() == 0 && n.post is None
}

/// The ancestor relation: a non-post name whose labels are a prefix of
/// the child's, where the child either has strictly more labels or is a
/// post with the same labels.
pub open spec fn spec_is_ancestor_of(a: NameView, b: NameView) -> bool {
    &&& a.post is None
    &&& a.labels.len() <= b.labels.len()
    &&& (forall|i: int| 0 <= i < a.labels.len() ==> a.labels[i] == b.labels[i])
    &&& (a.labels.len() < b.labels.len() || b.post is Some)
}

impl DocumentName {
    /// The folder this document is emitted under.
    pub fn folder_path(&self) -> (r: String)
        ensures
            r@ == spec_folder_path(self@),
    {
        match &self.id {
            Some(id) => clone_string(id),
            None => {
                let mut comps = clone_strings(&self.labels);
                let ghost base: Seq<Seq<char>> = views(self.labels@);
                proof {
                    assert(views(comps@) =~= base);
                }
                if let Some(post) = &self.post {
                    let date_parts = split_char(post.date.as_str(), '-');
                    let mut k: usize = 0;
                    while k < date_parts.len()
                        invariant
                            k <= date_parts.len(),
                            views(date_parts@) == split_on(post.date@, '-'),
                            views(comps@) =~= base + views(date_parts@).take(k as int),
                        decreases date_parts.len() - k,
                    {
                        comps.push(clone_string(&date_parts[k]));
                        proof {
                            assert(views(comps@) =~= base + views(date_parts@).take(k + 1));
                        }
                        k += 1;
                    }
                    comps.push(clone_string(&post.label));
                    proof {
                        assert(views(date_parts@).take(date_parts@.len() as int) =~= views(
                            date_parts@,
                        ));
                        assert(views(comps@) =~= base + split_on(post.date@, '-').push(
                            post.label@,
                        ));
                    }
                }
                let r = join_strings(&comps, "/");
                proof {
                    reveal_strlit("/");
                    assert(("/")@ =~= seq!['/']);
                    if self.post is None {
                        assert(views(comps@) =~= base);
                    }
                }
                r
            },
        }
    }

    /// The emitted file path of this document.
    pub fn path(&self) -> (r: String)
        ensures
            r@ == spec_path(self@),
    {
        let folder = self.folder_path();
        if folder.as_str().unicode_len() == 0 {
            let r: String = "index.html".to_owned();
            r
        } else {
            let r = concat2(folder.as_str(), "/index.html");
            proof {
                reveal_strlit("/index.html");
                reveal_strlit("index.html");
                assert(("/index.html")@ =~= seq!['/'] + ("index.html")@);
                assert(folder@ + ("/index.html")@ =~= folder@ + seq!['/'] + ("index.html")@);
            }
            r
        }
    }

    /// Whether `other` equals this document's path or folder path.
    pub fn is_matched(&self, other: &str) -> (r: bool)
        ensures
            r == spec_is_matched(self@, other@),
    {
        let path = self.path();
        let folder = self.folder_path();
        str_eq(other, path.as_str()) || str_eq(other, folder.as_str())
    }

    /// Whether this name is an ancestor of `child`.
    pub fn is_ancestor_of(&self, child: &Self) -> (r: bool)
        ensures
            r == spec_is_ancestor_of(self@, child@),
    {
        if self.post.is_some() {
            return false;
        }
        if self.labels.len() > child.labels.len() {
            return false;
        }
        let n = self.labels.len();
        let mut i: usize = 0;
        while i < n
            invariant
                i <= n,
                n == self.labels@.len(),
                n <= child.labels@.len(),
                forall|j: int| 0 <= j < i ==> views(self.labels@)[j] == views(child.labels@)[j],
            decreases n - i,
        {
            if !str_eq(self.labels[i].as_str(), child.labels[i].as_str()) {
                proof {
                    assert(views(self.labels@)[i as int] != views(child.labels@)[i as int]);
                }
                return false;
            }
            i += 1;
        }
        if self.labels.len() == child.labels.len() {
            child.post.is_some()
        } else {
            true
        }
    }

    /// Whether this name is the site root.
    pub fn is_root(&self) -> (r: bool)
        ensures
            r == spec_is_root(self@),
    {
        self.post.is_none() && self.labels.len() == 0
    }

    /// A copy whose value equals this name's.
    pub fn duplicate(&self) -> (r: DocumentName)
        ensures
            r@ == self@,
    {
        let post = match &self.post {
            Some(p) => Some(p.duplicate()),
            None => None,
        };
        let r = DocumentName {
            id: clone_opt_string(&self.id),
            labels: clone_strings(&self.labels),
            post,
        };
        proof {
            assert(views(r.labels@) =~= views(self.labels@));
            assert(r@ =~~= self@);
        }
        r
    }

    /// Whether two names have the same value.
    pub fn same(&self, other: &Self) -> (r: bool)
        ensures
            r == (self@ == other@),
    {
        match (&self.id, &other.id) {
            (Some(a), Some(b)) => {
                if !str_eq(a.as_str(), b.as_str()) {
                    return false;
                }
            },
            (None, None) => {},
            (Some(_), None) => {
                return false;
            },
            (None, Some(_)) => {
                return false;
            },
        }
        match (&self.post, &other.post) {
            (Some(a), Some(b)) => {
                if !str_eq(a.date.as_str(), b.date.as_str()) || !str_eq(
                    a.label.as_str(),
                    b.label.as_str(),
                ) {
                    return false;
                }
            },
            (None, None) => {},
            (Some(_), None) => {
                return false;
            },
            (None, Some(_)) => {
                return false;
            },
        }
        if self.labels.len() != other.labels.len() {
            proof {
                assert(views(self.labels@).len() != views(other.labels@).len());
            }
            return false;
        }
        let n = self.labels.len();
        let mut i: usize = 0;
        while i < n
            invariant
                i <= n,
                n == self.labels@.len(),
                n == other.labels@.len(),
                forall|j: int| 0 <= j < i ==> views(self.labels@)[j] == views(other.labels@)[j],
            decreases n - i,
        {
            if !str_eq(self.labels[i].as_str(), other.labels[i].as_str()) {
                proof {
                    assert(views(self.labels@)[i as int] != views(other.labels@)[i as int]);
                }
                return false;
            }
            i += 1;
        }
        proof {
            assert(views(self.labels@) =~= views(other.labels@));
            assert(self@ =~~= other@);
        }
        true
    }
}

/// No name is its own ancestor.
pub proof fn lemma_ancestor_irreflexive(n: NameView)
    ensures
        !spec_is_ancestor_of(n, n),
{
}

/// Two names are never ancestors of each other.
pub proof fn lemma_ancestor_antisymmetric(a: NameView, b: NameView)
    ensures
        !(spec_is_ancestor_of(a, b) && spec_is_ancestor_of(b, a)),
{
}

/// An ancestor of an ancestor is an ancestor.
pub proof fn lemma_ancestor_transitive(a: NameView, b: NameView, c: NameView)
    requires
        spec_is_ancestor_of(a, b),
        spec_is_ancestor_of(b, c),
    ensures
        spec_is_ancestor_of(a, c),
{
    assert(a.labels.len() < b.labels.len());
}

/// The emitted path is always the folder path extended with
/// `/index.html`, or `index.html` itself for the root folder.
pub proof fn lemma_path_of_folder_path(n: NameView)
    ensures
        spec_folder_path(n).len() > 0 ==> spec_path(n) == spec_folder_path(n) + seq!['/']
            + "index.html"@,
        spec_folder_path(n).len() == 0 ==> spec_path(n) == "index.html"@,
{
}

/// A document matches both of its own derived paths.
pub proof fn lemma_matches_own_paths(n: NameView)
    ensures
        spec_is_matched(n, spec_path(n)),
        spec_is_matched(n, spec_folder_path(n)),
{
}


/// A document name shown for debugging: `[index]` for the root, else
/// the labels joined by `/` followed by the post date and slug when
/// present.
pub open spec fn spec_display_name(n: NameView) -> Seq<char> {
    if n.labels.len() == 0 && n.post is None {
        "[index]"@
    } else {
        join_with(n.labels, seq!['/']) + (match n.post {
            Some(p) => "[post:"@ + p.date + seq![','] + p.label + seq![']'],
            None => Seq::<char>::empty(),
        })
    }
}

impl DocumentName {
    /// The debugging form of this name.
    pub fn display_string(&self) -> (r: String)
        ensures
            r@ == spec_display_name(self@),
    {
        if self.post.is_none() && self.labels.len() == 0 {
            let r: String = "[index]".to_owned();
            return r;
        }
        let mut r = join_strings(&self.labels, "/");
        proof {
            reveal_strlit("/");
            assert(("/")@ =~= seq!['/']);
        }
        if let Some(post) = &self.post {
            r.append("[post:");
            r.append(post.date.as_str());
            r.append(",");
            r.append(post.label.as_str());
            r.append("]");
            proof {
                reveal_strlit("[post:");
                reveal_strlit(",");
                reveal_strlit("]");
                assert((",")@ =~= seq![',']);
                assert(("]")@ =~= seq![']']);
                assert(r@ =~= join_with(views(self.labels@), seq!['/']) + ("[post:"@ + post.date@
                    + seq![','] + post.label@ + seq![']']));
            }
        } else {
            proof {
                assert(r@ =~= join_with(views(self.labels@), seq!['/']) + Seq::<char>::empty());
            }
        }
        r
    }
}

/// A document's markup family, from its file extension.
#[derive(Clone, Copy, PartialEq, Eq, Structural, Debug)]
pub enum DocumentType {
    AsciiDoc,
    Markdown,
    Org,
}

/// The markup family a file extension selects, if any: `adoc`, `md` or
/// `org`.
pub open spec fn spec_type_of_extension(s: Seq<char>) -> Result<DocumentType, ()> {
    if s == "adoc"@ {
        Ok(DocumentType::AsciiDoc)
    } else if s == "md"@ {
        Ok(DocumentType::Markdown)
    } else if s == "org"@ {
        Ok(DocumentType::Org)
    } else {
        Err(())
    }
}

impl DocumentType {
    /// The markup family a file extension selects, if any.
    pub fn try_from(s: &str) -> (r: Result<DocumentType, ()>)
        ensures
            r == spec_type_of_extension(s@),
    {
        if str_eq(s, "adoc") {
            Ok(DocumentType::AsciiDoc)
        } else if str_eq(s, "md") {
            Ok(DocumentType::Markdown)
        } else if str_eq(s, "org") {
            Ok(DocumentType::Org)
        } else {
            Err(())
        }
    }
}

/// Whether a path component is a plain file or folder name.
pub open spec fn plain_component(c: Seq<char>) -> bool {
    c.len() > 0 && c != "."@ && c != ".."@
}

/// The index of the last component the name derivation examines: the
/// first `_posts` component, or the final component.
pub open spec fn examined_bound(comps: Seq<Seq<char>>) -> int {
    match first_eq_index(comps, "_posts"@) {
        Some(i) => i,
        None => comps.len() - 1,
    }
}

/// Whether every examined component is a plain name.
pub open spec fn components_ok(comps: Seq<Seq<char>>) -> bool {
    forall|j: int| 0 <= j <= examined_bound(comps) ==> plain_component(#[trigger] comps[j])
}

/// Whether the path passes through a `_posts` component.
pub open spec fn name_is_post(comps: Seq<Seq<char>>) -> bool {
    first_eq_index(comps, "_posts"@) is Some
}

/// The `-`-separated parts of the final component's stem.
pub open spec fn post_stem_parts(comps: Seq<Seq<char>>) -> Seq<Seq<char>> {
    split_on(stem_of(comps.last()), '-')
}

/// The name derived from the components of a relative source path, with
/// an optional override id.
pub open spec fn spec_derive_name(comps: Seq<Seq<char>>, id: Option<Seq<char>>) -> NameView {
    let stem = stem_of(comps.last());
    match first_eq_index(comps, "_posts"@) {
        Some(i) => NameView {
            id,
            labels: comps.take(i),
            post: Some(
                PostLabelView {
                    date: join_with(split_on(stem, '-').take(3), seq!['-']),
                    label: join_with(split_on(stem, '-').skip(3), seq!['-']),
                },
            ),
        },
        None => NameView {
            id,
            labels: if stem == "index"@ {
                comps.take(comps.len() - 1)
            } else {
                comps.take(comps.len() - 1).push(stem)
            },
            post: None,
        },
    }
}

/// Derives a document's name from its relative source path.
///
/// Components are read left to right: a `_posts` component switches to
/// post naming, every other component but the last contributes a label,
/// and the final component's stem contributes the last label (unless it
/// is `index`) or, for posts, the date and slug.
pub fn derive_name(rel_file_path: &str, id: Option<String>) -> (r: Result<DocumentName, Error>)
    requires
        ({
            let comps = split_on(rel_file_path@, '/');
            (components_ok(comps) && name_is_post(comps)) ==> post_stem_parts(comps).len() >= 3
        }),
    ensures
        ({
            let comps = split_on(rel_file_path@, '/');
            match r {
                Err(e) => e == Error::InvalidPathComponent && !components_ok(comps),
                Ok(name) => components_ok(comps) && name@ == spec_derive_name(comps, opt_view(id)),
            }
        }),
{
    let comps = split_char(rel_file_path, '/');
    let ghost cv: Seq<Seq<char>> = views(comps@);
    proof {
        crate::strutil::lemma_split_on_len(rel_file_path@, '/');
        reveal_strlit("_posts");
        reveal_strlit(".");
        reveal_strlit("..");
    }
    let n = comps.len();
    let mut labels: Vec<String> = Vec::new();
    let mut is_post = false;
    let mut i: usize = 0;
    loop
        invariant_except_break
            !is_post,
        invariant
            i < n,
            n == comps@.len(),
            n >= 1,
            cv == views(comps@),
            cv == split_on(rel_file_path@, '/'),
            forall|j: int| 0 <= j < i ==> plain_component(#[trigger] cv[j]) && cv[j] != "_posts"@,
            views(labels@) =~= cv.take(i as int),
        ensures
            i < n,
            n == comps@.len(),
            views(labels@) =~= cv.take(i as int),
            forall|j: int| 0 <= j < i ==> plain_component(#[trigger] cv[j]) && cv[j] != "_posts"@,
            is_post ==> first_eq_index(cv, "_posts"@) == Some(i as int) && plain_component(
                cv[i as int],
            ),
            !is_post ==> i == n - 1 && first_eq_index(cv, "_posts"@) is None && plain_component(
                cv[n - 1],
            ),
        decreases n - i,
    {
        let c = &comps[i];
        let plain = !c.as_str().is_empty() && !str_eq(c.as_str(), ".") && !str_eq(c.as_str(), "..");
        if !plain {
            proof {
                lemma_first_eq_index(cv, "_posts"@);
                assert(i as int <= examined_bound(cv));
                assert(!plain_component(cv[i as int]));
            }
            return Err(Error::InvalidPathComponent);
        }
        if str_eq(c.as_str(), "_posts") {
            is_post = true;
            proof {
                lemma_first_eq_index_is(cv, "_posts"@, i as int);
            }
            break;
        }
        if i == n - 1 {
            proof {
                lemma_first_eq_index_none(cv, "_posts"@);
            }
            break;
        }
        labels.push(clone_string(c));
        proof {
            assert(views(labels@) =~= cv.take(i + 1));
        }
        i += 1;
    }
    proof {
        assert(components_ok(cv)) by {
            if is_post {
                assert(examined_bound(cv) == i as int);
                assert(plain_component(cv[i as int]));
            } else {
                assert(examined_bound(cv) == n - 1);
                assert(plain_component(cv[n - 1]));
            }
        }
    }
    let last = &comps[n - 1];
    let stem = file_stem(last.as_str());
    proof {
        assert(cv.last() == last@);
    }
    if is_post {
        let parts = split_char(stem.as_str(), '-');
        proof {
            assert(views(parts@) == post_stem_parts(cv));
            reveal_strlit("-");
            assert(("-")@ =~= seq!['-']);
        }
        let mut datev: Vec<String> = Vec::new();
        datev.push(clone_string(&parts[0]));
        datev.push(clone_string(&parts[1]));
        datev.push(clone_string(&parts[2]));
        proof {
            assert(views(datev@) =~= views(parts@).take(3));
        }
        let date = join_strings(&datev, "-");
        let mut labelv: Vec<String> = Vec::new();
        let mut k: usize = 3;
        while k < parts.len()
            invariant
                3 <= k <= parts@.len(),
                views(parts@) == post_stem_parts(cv),
                views(labelv@) =~= views(parts@).subrange(3, k as int),
            decreases parts.len() - k,
        {
            labelv.push(clone_string(&parts[k]));
            proof {
                assert(views(labelv@) =~= views(parts@).subrange(3, k + 1));
            }
            k += 1;
        }
        proof {
            assert(views(labelv@) =~= views(parts@).skip(3));
        }
        let label = join_strings(&labelv, "-");
        let name = DocumentName {
            id,
            labels,
            post: Some(DocumentPostLabel { date, label }),
        };
        proof {
            assert(name@ =~~= spec_derive_name(cv, opt_view(name.id)));
        }
        Ok(name)
    } else {
        proof {
            reveal_strlit("index");
        }
        let mut labels = labels;
        if !str_eq(stem.as_str(), "index") {
            labels.push(stem);
            proof {
                assert(views(labels@) =~= cv.take(n - 1).push(stem_of(cv.last())));
            }
        }
        let name = DocumentName { id, labels, post: None };
        proof {
            assert(name@ =~~= spec_derive_name(cv, opt_view(name.id)));
        }
        Ok(name)
    }
}

/// The mathematical value of a document's metadata.
#[verifier::ext_equal]
pub ghost struct MetadataView {
    pub typ: DocumentType,
    pub modified: u128,
    pub source_path: Seq<char>,
    pub rel_source_path: Seq<char>,
}

/// What discovery records about one document: its markup family, last
/// modification time, and where it lives.
#[derive(Debug)]
pub struct DocumentMetadata {
    pub typ: DocumentType,
    pub modified: u128,
    pub source_path: String,
    pub rel_source_path: String,
}

impl View for DocumentMetadata {
    type V = MetadataView;

    open spec fn view(&self) -> MetadataView {
        MetadataView {
            typ: self.typ,
            modified: self.modified,
            source_path: self.source_path@,
            rel_source_path: self.rel_source_path@,
        }
    }
}

impl DocumentMetadata {
    /// Records a discovered document, deriving its site-relative source
    /// path; fails when the file does not lie under the site's source
    /// folder.
    pub fn new(site: &SiteMetadata, file_path: &str, typ: DocumentType, modified: u128) -> (r:
        Result<DocumentMetadata, Error>)
        ensures
            match r {
                Ok(d) => {
                    &&& strip_prefix_spec(file_path@, site.source_path@) == Some(
                        d.rel_source_path@,
                    )
                    &&& d.source_path@ == file_path@
                    &&& d.typ == typ
                    &&& d.modified == modified
                },
                Err(e) => e == Error::StripPrefix && strip_prefix_spec(
                    file_path@,
                    site.source_path@,
                ) is None,
            },
            r is Err <==> strip_prefix_spec(file_path@, site.source_path@) is None,
    {
        match strip_prefix(file_path, site.source_path.as_str()) {
            Some(rel) => Ok(
                DocumentMetadata {
                    typ,
                    modified,
                    source_path: file_path.to_owned(),
                    rel_source_path: rel,
                },
            ),
            None => Err(Error::StripPrefix),
        }
    }

    /// A copy holding the same values.
    pub fn duplicate(&self) -> (r: DocumentMetadata)
        ensures
            r@ == self@,
    {
        DocumentMetadata {
            typ: self.typ,
            modified: self.modified,
            source_path: clone_string(&self.source_path),
            rel_source_path: clone_string(&self.rel_source_path),
        }
    }

    /// Whether two metadata records have the same value: the comparison
    /// incremental reuse rests on.
    pub fn same(&self, other: &Self) -> (r: bool)
        ensures
            r == (self@ == other@),
    {
        let typ_same = match (self.typ, other.typ) {
            (DocumentType::AsciiDoc, DocumentType::AsciiDoc) => true,
            (DocumentType::Markdown, DocumentType::Markdown) => true,
            (DocumentType::Org, DocumentType::Org) => true,
            _ => false,
        };
        typ_same && self.modified == other.modified && str_eq(
            self.source_path.as_str(),
            other.source_path.as_str(),
        ) && str_eq(self.rel_source_path.as_str(), other.rel_source_path.as_str())
    }
}

/// The mathematical value of a spec block.
#[verifier::ext_equal]
pub ghost struct SpecBlockView {
    pub id: Seq<char>,
    pub description: Seq<char>,
    pub discuss: Seq<char>,
    pub source_path: Seq<char>,
    pub anchor: Seq<char>,
}

/// A named assertion extracted from a document, republished on the
/// cross-site spec index.
#[derive(Debug)]
pub struct Spec {
    pub id: String,
    pub description: String,
    pub discuss: String,
    pub source_path: String,
    pub anchor: String,
}

impl View for Spec {
    type V = SpecBlockView;

    open spec fn view(&self) -> SpecBlockView {
        SpecBlockView {
            id: self.id@,
            description: self.description@,
            discuss: self.discuss@,
            source_path: self.source_path@,
            anchor: self.anchor@,
        }
    }
}

impl Spec {
    /// A copy holding the same characters.
    pub fn duplicate(&self) -> (r: Spec)
        ensures
            r@ == self@,
    {
        Spec {
            id: clone_string(&self.id),
            description: clone_string(&self.description),
            discuss: clone_string(&self.discuss),
            source_path: clone_string(&self.source_path),
            anchor: clone_string(&self.anchor),
        }
    }
}

/// The views of a sequence of spec blocks.
pub open spec fn spec_views(s: Seq<Spec>) -> Seq<SpecBlockView> {
    s.map_values(|x: Spec| x@)
}

pub broadcast proof fn lemma_spec_views_index(s: Seq<Spec>, i: int)
    requires
        0 <= i < s.len(),
    ensures
        #[trigger] spec_views(s)[i] == s[i]@,
{
}

/// The mathematical value of a rendered document's data.
#[verifier::ext_equal]
pub ghost struct RenderedDataView {
    pub name: NameView,
    pub title: Seq<char>,
    pub sitemap_title: Option<Seq<char>>,
    pub content: Seq<char>,
    pub toc: Option<Seq<char>>,
    pub description: Seq<char>,
    pub description_content: Option<Seq<char>>,
    pub license: Option<Seq<char>>,
    pub license_code: Option<Seq<char>>,
    pub specs: Seq<SpecBlockView>,
}

/// The normalized output of markup conversion for one document.
#[derive(Debug)]
pub struct RenderedData {
    pub name: DocumentName,
    pub title: String,
    pub sitemap_title: Option<String>,
    pub content: String,
    pub toc: Option<String>,
    pub description: String,
    pub description_content: Option<String>,
    pub license: Option<String>,
    pub license_code: Option<String>,
    pub specs: Vec<Spec>,
}

impl View for RenderedData {
    type V = RenderedDataView;

    open spec fn view(&self) -> RenderedDataView {
        RenderedDataView {
            name: self.name@,
            title: self.title@,
            sitemap_title: opt_view(self.sitemap_title),
            content: self.content@,
            toc: opt_view(self.toc),
            description: self.description@,
            description_content: opt_view(self.description_content),
            license: opt_view(self.license),
            license_code: opt_view(self.license_code),
            specs: spec_views(self.specs@),
        }
    }
}

impl RenderedData {
    /// A copy holding the same values.
    pub fn duplicate(&self) -> (r: RenderedData)
        ensures
            r@ == self@,
    {
        broadcast use lemma_spec_views_index;

        let mut specs: Vec<Spec> = Vec::new();
        let mut i: usize = 0;
        while i < self.specs.len()
            invariant
                i <= self.specs@.len(),
                specs@.len() == i,
                forall|j: int| 0 <= j < i ==> (#[trigger] specs@[j])@ == self.specs@[j]@,
            decreases self.specs.len() - i,
        {
            specs.push(self.specs[i].duplicate());
            i += 1;
        }
        let r = RenderedData {
            name: self.name.duplicate(),
            title: clone_string(&self.title),
            sitemap_title: clone_opt_string(&self.sitemap_title),
            content: clone_string(&self.content),
            toc: clone_opt_string(&self.toc),
            description: clone_string(&self.description),
            description_content: clone_opt_string(&self.description_content),
            license: clone_opt_string(&self.license),
            license_code: clone_opt_string(&self.license_code),
            specs,
        };
        proof {
            assert(spec_views(r.specs@) =~= spec_views(self.specs@));
            assert(r@ =~~= self@);
        }
        r
    }
}

/// The mathematical value of a rendered document.
#[verifier::ext_equal]
pub ghost struct RenderedDocumentView {
    pub site_metadata: crate::site::SiteMetadataView,
    pub metadata: MetadataView,
    pub data: RenderedDataView,
}

/// A rendered document: the site it belongs to, what discovery recorded
/// about it, and the normalized conversion output.
#[derive(Debug)]
pub struct RenderedDocument {
    pub site_metadata: SiteMetadata,
    pub metadata: DocumentMetadata,
    pub data: RenderedData,
}

impl View for RenderedDocument {
    type V = RenderedDocumentView;

    open spec fn view(&self) -> RenderedDocumentView {
        RenderedDocumentView {
            site_metadata: self.site_metadata@,
            metadata: self.metadata@,
            data: self.data@,
        }
    }
}

impl RenderedDocument {
    /// A copy holding the same values.
    pub fn duplicate(&self) -> (r: RenderedDocument)
        ensures
            r@ == self@,
    {
        let r = RenderedDocument {
            site_metadata: self.site_metadata.duplicate(),
            metadata: self.metadata.duplicate(),
            data: self.data.duplicate(),
        };
        proof {
            assert(r@ =~~= self@);
        }
        r
    }

    /// Normalizes the AsciiDoc converter's output into a rendered
    /// document. The name is derived from the relative source path; the
    /// converter's spec blocks are carried over.
    pub fn from_asciidoc(
        site: SiteMetadata,
        metadata: DocumentMetadata,
        output: asciidoc::AsciiDocOutput,
    ) -> (r: Result<RenderedDocument, Error>)
        requires
            ({
                let comps = split_on(metadata.rel_source_path@, '/');
                (components_ok(comps) && name_is_post(comps)) ==> post_stem_parts(comps).len() >= 3
            }),
        ensures
            ({
                let comps = split_on(metadata.rel_source_path@, '/');
                match r {
                    Err(e) => e == Error::InvalidPathComponent && !components_ok(comps),
                    Ok(d) => {
                        &&& components_ok(comps)
                        &&& d.site_metadata@ == site@
                        &&& d.metadata@ == metadata@
                        &&& d.data@.name == spec_derive_name(comps, None)
                        &&& d.data@.title == output.document.title@
                        &&& d.data@.sitemap_title is None
                        &&& d.data@.content == output.document.content@
                        &&& d.data@.toc == opt_view(output.document.toc)
                        &&& d.data@.description == output.document.description@
                        &&& d.data@.description_content is None
                        &&& d.data@.license == opt_view(output.document.license)
                        &&& d.data@.license_code == opt_view(output.document.license_code)
                        &&& d.data@.specs.len() == output.specs@.len()
                        &&& forall|j: int| 0 <= j < output.specs@.len() ==> (
                        #[trigger] d.data@.specs[j]) == (SpecBlockView {
                            id: output.specs@[j].id@,
                            description: output.specs@[j].description@,
                            discuss: output.specs@[j].discuss@,
                            source_path: output.specs@[j].source_path@,
                            anchor: output.specs@[j].anchor@,
                        })
                    },
                }
            }),
    {
        broadcast use lemma_spec_views_index;

        let name = match derive_name(metadata.rel_source_path.as_str(), None) {
            Ok(name) => name,
            Err(e) => {
                return Err(e);
            },
        };
        let mut specs: Vec<Spec> = Vec::new();
        let mut i: usize = 0;
        while i < output.specs.len()
            invariant
                i <= output.specs@.len(),
                specs@.len() == i,
                forall|j: int| 0 <= j < i ==> (#[trigger] specs@[j])@ == (SpecBlockView {
                    id: output.specs@[j].id@,
                    description: output.specs@[j].description@,
                    discuss: output.specs@[j].discuss@,
                    source_path: output.specs@[j].source_path@,
                    anchor: output.specs@[j].anchor@,
                }),
            decreases output.specs.len() - i,
        {
            let s = &output.specs[i];
            specs.push(
                Spec {
                    id: clone_string(&s.id),
                    description: clone_string(&s.description),
                    discuss: clone_string(&s.discuss),
                    source_path: clone_string(&s.source_path),
                    anchor: clone_string(&s.anchor),
                },
            );
            i += 1;
        }
        Ok(
            RenderedDocument {
                site_metadata: site,
                metadata,
                data: RenderedData {
                    name,
                    title: output.document.title,
                    sitemap_title: None,
                    content: output.document.content,
                    toc: output.document.toc,
                    description: output.document.description,
                    description_content: None,
                    license: output.document.license,
                    license_code: output.document.license_code,
                    specs,
                },
            },
        )
    }

    /// Normalizes the Markdown converter's output into a rendered
    /// document. The converter may override the derived name through its
    /// `id` field.
    pub fn from_markdown(
        site: SiteMetadata,
        metadata: DocumentMetadata,
        output: markdown::MarkdownOutput,
    ) -> (r: Result<RenderedDocument, Error>)
        requires
            ({
                let comps = split_on(metadata.rel_source_path@, '/');
                (components_ok(comps) && name_is_post(comps)) ==> post_stem_parts(comps).len() >= 3
            }),
        ensures
            ({
                let comps = split_on(metadata.rel_source_path@, '/');
                match r {
                    Err(e) => e == Error::InvalidPathComponent && !components_ok(comps),
                    Ok(d) => {
                        &&& components_ok(comps)
                        &&& d.site_metadata@ == site@
                        &&& d.metadata@ == metadata@
                        &&& d.data@.name == spec_derive_name(comps, opt_view(output.id))
                        &&& d.data@.title == output.title@
                        &&& d.data@.sitemap_title == opt_view(output.sitemap_title)
                        &&& d.data@.content == output.content@
                        &&& d.data@.toc == Some(output.toc@)
                        &&& d.data@.description == output.description@
                        &&& d.data@.description_content == Some(output.description_content@)
                        &&& d.data@.license is None
                        &&& d.data@.license_code is None
                        &&& d.data@.specs.len() == 0
                    },
                }
            }),
    {
        let name = match derive_name(metadata.rel_source_path.as_str(), output.id) {
            Ok(name) => name,
            Err(e) => {
                return Err(e);
            },
        };
        Ok(
            RenderedDocument {
                site_metadata: site,
                metadata,
                data: RenderedData {
                    name,
                    title: output.title,
                    sitemap_title: output.sitemap_title,
                    content: output.content,
                    toc: Some(output.toc),
                    description: output.description,
                    description_content: Some(output.description_content),
                    license: None,
                    license_code: None,
                    specs: Vec::new(),
                },
            },
        )
    }

    /// Normalizes the Org converter's output into a rendered document.
    pub fn from_org(
        site: SiteMetadata,
        metadata: DocumentMetadata,
        output: org::OrgOutput,
    ) -> (r: Result<RenderedDocument, Error>)
        requires
            ({
                let comps = split_on(metadata.rel_source_path@, '/');
                (components_ok(comps) && name_is_post(comps)) ==> post_stem_parts(comps).len() >= 3
            }),
        ensures
            ({
                let comps = split_on(metadata.rel_source_path@, '/');
                match r {
                    Err(e) => e == Error::InvalidPathComponent && !components_ok(comps),
                    Ok(d) => {
                        &&& components_ok(comps)
                        &&& d.site_metadata@ == site@
                        &&& d.metadata@ == metadata@
                        &&& d.data@.name == spec_derive_name(comps, None)
                        &&& d.data@.title == output.title@
                        &&& d.data@.sitemap_title is None
                        &&& d.data@.content == output.content@
                        &&& d.data@.toc == Some(output.toc@)
                        &&& d.data@.description == output.description@
                        &&& d.data@.description_content == Some(output.description_content@)
                        &&& d.data@.license is None
                        &&& d.data@.license_code is None
                        &&& d.data@.specs.len() == 0
                    },
                }
            }),
    {
        let name = match derive_name(metadata.rel_source_path.as_str(), None) {
            Ok(name) => name,
            Err(e) => {
                return Err(e);
            },
        };
        Ok(
            RenderedDocument {
                site_metadata: site,
                metadata,
                data: RenderedData {
                    name,
                    title: output.title,
                    sitemap_title: None,
                    content: output.content,
                    toc: Some(output.toc),
                    description: output.description,
                    description_content: Some(output.description_content),
                    license: None,
                    license_code: None,
                    specs: Vec::new(),
                },
            },
        )
    }
}

} // verus!
