//! The hierarchical sitemap of a site. Documents become breadcrumb items;
//! items are sorted by document name and inserted into a forest following
//! the ancestor relation; a per-document local sitemap (breadcrumb and
//! children) is derived by walking that forest.

use vstd::prelude::*;

verus! {

use crate::document::DocumentName;
use crate::document::NameView;
use crate::document::PostLabelView;
use crate::document::spec_is_ancestor_of;
use crate::document::spec_is_root;
use crate::strutil::clone_string;
use crate::strutil::str_eq;
use vstd::string::StrSliceExecFns;
use vstd::string::StringExecFns;

broadcast use vstd::seq::group_seq_axioms, vstd::std_specs::vec::group_vec_axioms;

/// The mathematical value of a breadcrumb item.
#[verifier::ext_equal]
pub ghost struct ItemView {
    pub title: Seq<char>,
    pub document_name: NameView,
    pub description: Seq<char>,
}

/// The mathematical value of a sitemap node: an item and its subtrees.
#[verifier::ext_equal]
pub ghost struct NodeView {
    pub item: ItemView,
    pub children: Seq<NodeView>,
}

/// The mathematical value of a local sitemap.
#[verifier::ext_equal]
pub ghost struct LocalView {
    pub breadcrumb: Seq<ItemView>,
    pub children: Seq<ItemView>,
}

/// One document as it appears in navigation: title, name, description.
#[derive(Debug)]
pub struct BreadcrumbItem {
    pub title: String,
    pub document_name: DocumentName,
    pub description: String,
}

impl View for BreadcrumbItem {
    type V = ItemView;

    open spec fn view(&self) -> ItemView {
        ItemView {
            title: self.title@,
            document_name: self.document_name@,
            description: self.description@,
        }
    }
}

impl BreadcrumbItem {
    /// A copy holding the same values.
    pub fn duplicate(&self) -> (r: BreadcrumbItem)
        ensures
            r@ == self@,
    {
        let r = BreadcrumbItem {
            title: clone_string(&self.title),
            document_name: self.document_name.duplicate(),
            description: clone_string(&self.description),
        };
        proof {
            assert(r@ =~~= self@);
        }
        r
    }
}

/// The views of a sequence of breadcrumb items.
pub open spec fn item_views(s: Seq<BreadcrumbItem>) -> Seq<ItemView> {
    s.map_values(|x: BreadcrumbItem| x@)
}

pub broadcast proof fn lemma_item_views_index(s: Seq<BreadcrumbItem>, i: int)
    requires
        0 <= i < s.len(),
    ensures
        #[trigger] item_views(s)[i] == s[i]@,
{
}

/// One node of the sitemap forest.
#[derive(Debug)]
pub struct SitemapItem {
    pub item: BreadcrumbItem,
    pub children: Vec<SitemapItem>,
}

/// The mathematical value of a sitemap node.
pub open spec fn node_view(t: SitemapItem) -> NodeView
    decreases t,
    via node_view_decreases
{
    NodeView {
        item: t.item@,
        children: Seq::new(
            t.children@.len(),
            |i: int|
                if 0 <= i < t.children@.len() {
                    node_view(t.children[i])
                } else {
                    vstd::pervasive::arbitrary()
                },
        ),
    }
}

#[via_fn]
proof fn node_view_decreases(t: SitemapItem) {
    assert forall|i: int| 0 <= i < t.children@.len() implies (decreases_to!(t
        => t.children[i])) by {
        assert(decreases_to!(t => t.children));
        assert(decreases_to!(t.children => t.children[i]));
    }
}

impl View for SitemapItem {
    type V = NodeView;

    open spec fn view(&self) -> NodeView {
        node_view(*self)
    }
}

/// The views of a sequence of sitemap nodes.
pub open spec fn node_views(s: Seq<SitemapItem>) -> Seq<NodeView> {
    Seq::new(s.len(), |i: int| s[i]@)
}

/// The items at the top of a forest, in order.
pub open spec fn shallow_items(f: Seq<NodeView>) -> Seq<ItemView> {
    f.map_values(|t: NodeView| t.item)
}

/// Whether a node accepts an item into its subtree: its name is an
/// ancestor of the item's name.
pub open spec fn spec_accepts(t: NodeView, x: ItemView) -> bool {
    spec_is_ancestor_of(t.item.document_name, x.document_name)
}

/// Index of the first node of a forest that accepts `x`, if any.
pub open spec fn first_accept_index(f: Seq<NodeView>, x: ItemView) -> Option<int>
    decreases f.len(),
{
    if f.len() == 0 {
        None
    } else if spec_accepts(f[0], x) {
        Some(0int)
    } else {
        match first_accept_index(f.drop_first(), x) {
            None => None,
            Some(i) => Some(i + 1),
        }
    }
}

pub proof fn lemma_first_accept_index(f: Seq<NodeView>, x: ItemView)
    ensures
        match first_accept_index(f, x) {
            None => forall|j: int| 0 <= j < f.len() ==> !spec_accepts(#[trigger] f[j], x),
            Some(i) => 0 <= i < f.len() && spec_accepts(f[i], x) && (forall|j: int|
                0 <= j < i ==> !spec_accepts(#[trigger] f[j], x)),
        },
    decreases f.len(),
{
    if f.len() > 0 && !spec_accepts(f[0], x) {
        lemma_first_accept_index(f.drop_first(), x);
        assert forall|j: int| 1 <= j < f.len() implies f[j] == f.drop_first()[j - 1] by {}
    }
}

/// A leaf node carrying `x`.
pub open spec fn new_node(x: ItemView) -> NodeView {
    NodeView { item: x, children: Seq::empty() }
}

/// A node after offering `x` to it: unchanged when it does not accept
/// `x`, else with `x` inserted into its children.
pub open spec fn spec_maybe_insert(t: NodeView, x: ItemView) -> NodeView
    decreases t,
{
    if spec_accepts(t, x) {
        NodeView { item: t.item, children: spec_insert_forest(t.children, x) }
    } else {
        t
    }
}

/// A forest after inserting `x`: into the first accepting root, else
/// appended as a new root.
pub open spec fn spec_insert_forest(f: Seq<NodeView>, x: ItemView) -> Seq<NodeView>
    decreases f,
    via spec_insert_forest_decreases
{
    match first_accept_index(f, x) {
        Some(i) => f.update(i, spec_maybe_insert(f[i], x)),
        None => f.push(new_node(x)),
    }
}

#[via_fn]
proof fn spec_insert_forest_decreases(f: Seq<NodeView>, x: ItemView) {
    lemma_first_accept_index(f, x);
}

/// Inserts `x` into the last position of `s` at which the element before
/// it sorts no later: one step of a stable insertion sort.
pub open spec fn spec_insort(s: Seq<ItemView>, x: ItemView) -> Seq<ItemView>
    decreases s.len(),
{
    if s.len() == 0 {
        seq![x]
    } else if spec_name_le(s.last().document_name, x.document_name) {
        s.push(x)
    } else {
        spec_insort(s.drop_last(), x).push(s.last())
    }
}

/// The items sorted by document name, stably.
pub open spec fn spec_sort(items: Seq<ItemView>) -> Seq<ItemView>
    decreases items.len(),
{
    if items.len() == 0 {
        Seq::empty()
    } else {
        spec_insort(spec_sort(items.drop_last()), items.last())
    }
}

/// The forest built by inserting the non-root items of `items` in order.
pub open spec fn spec_build(items: Seq<ItemView>) -> Seq<NodeView>
    decreases items.len(),
{
    if items.len() == 0 {
        Seq::empty()
    } else {
        let prev = spec_build(items.drop_last());
        if spec_is_root(items.last().document_name) {
            prev
        } else {
            spec_insert_forest(prev, items.last())
        }
    }
}

/// Whether string `a` sorts no later than string `b`, by character
/// values.
pub open spec fn str_le(a: Seq<char>, b: Seq<char>) -> bool
    decreases a.len(),
{
    if a.len() == 0 {
        true
    } else if b.len() == 0 {
        false
    } else if a[0] == b[0] {
        str_le(a.drop_first(), b.drop_first())
    } else {
        (a[0] as int) < (b[0] as int)
    }
}

/// Whether label list `a` sorts no later than `b`, lexicographically.
pub open spec fn labels_le(a: Seq<Seq<char>>, b: Seq<Seq<char>>) -> bool
    decreases a.len(),
{
    if a.len() == 0 {
        true
    } else if b.len() == 0 {
        false
    } else if a[0] == b[0] {
        labels_le(a.drop_first(), b.drop_first())
    } else {
        str_le(a[0], b[0])
    }
}

/// Whether post label `a` sorts no later than `b`: no post sorts before
/// any post; posts compare by date, then label.
pub open spec fn post_le(a: Option<PostLabelView>, b: Option<PostLabelView>) -> bool {
    match (a, b) {
        (None, _) => true,
        (Some(_), None) => false,
        (Some(p), Some(q)) => if p.date == q.date {
            str_le(p.label, q.label)
        } else {
            str_le(p.date, q.date)
        },
    }
}

/// The total order sitemap construction sorts by: labels
/// lexicographically, then the post label.
pub open spec fn spec_name_le(a: NameView, b: NameView) -> bool {
    if a.labels == b.labels {
        post_le(a.post, b.post)
    } else {
        labels_le(a.labels, b.labels)
    }
}

/// Whether `a` sorts no later than `b`, decided character by character.
pub fn str_le_exec(a: &str, b: &str) -> (r: bool)
    ensures
        r == str_le(a@, b@),
    decreases a@.len(),
{
    let n = a.unicode_len();
    let m = b.unicode_len();
    if n == 0 {
        return true;
    }
    if m == 0 {
        return false;
    }
    let ca = a.get_char(0);
    let cb = b.get_char(0);
    if ca == cb {
        let ra = a.substring_char(1, n);
        let rb = b.substring_char(1, m);
        let r = str_le_exec(ra, rb);
        proof {
            assert(ra@ =~= a@.drop_first());
            assert(rb@ =~= b@.drop_first());
        }
        r
    } else {
        (ca as u32) < (cb as u32)
    }
}

impl DocumentName {
    /// Whether this name sorts no later than `other` in sitemap order.
    pub fn le(&self, other: &DocumentName) -> (r: bool)
        ensures
            r == spec_name_le(self@, other@),
    {
        broadcast use crate::strutil::lemma_views_index;

        let n = self.labels.len();
        let m = other.labels.len();
        let mut i: usize = 0;
        loop
            invariant
                i <= n,
                i <= m,
                n == self.labels@.len(),
                m == other.labels@.len(),
                forall|j: int| 0 <= j < i ==> self@.labels[j] == other@.labels[j],
            ensures
                i <= n && i <= m,
                n == self.labels@.len() && m == other.labels@.len(),
                forall|j: int| 0 <= j < i ==> self@.labels[j] == other@.labels[j],
                i == n || i == m || self@.labels[i as int] != other@.labels[i as int],
            decreases n - i,
        {
            if i == n || i == m {
                break;
            }
            if !str_eq(self.labels[i].as_str(), other.labels[i].as_str()) {
                proof {
                    assert(self@.labels[i as int] != other@.labels[i as int]);
                }
                break;
            }
            i += 1;
        }
        proof {
            lemma_labels_le_skip(self@.labels, other@.labels, i as int);
        }
        if n == m && i == n {
            proof {
                assert(self@.labels =~= other@.labels);
            }
            match (&self.post, &other.post) {
                (None, _) => true,
                (Some(_), None) => false,
                (Some(p), Some(q)) => {
                    if str_eq(p.date.as_str(), q.date.as_str()) {
                        str_le_exec(p.label.as_str(), q.label.as_str())
                    } else {
                        str_le_exec(p.date.as_str(), q.date.as_str())
                    }
                },
            }
        } else {
            proof {
                assert(self@.labels != other@.labels) by {
                    if i < n && i < m {
                        assert(self@.labels[i as int] != other@.labels[i as int]);
                    } else {
                        assert(self@.labels.len() != other@.labels.len());
                    }
                }
            }
            if i == n {
                proof {
                    assert(self@.labels.skip(i as int).len() == 0);
                }
                true
            } else if i == m {
                proof {
                    assert(other@.labels.skip(i as int).len() == 0);
                    assert(self@.labels.skip(i as int).len() > 0);
                }
                false
            } else {
                let r = str_le_exec(self.labels[i].as_str(), other.labels[i].as_str());
                proof {
                    let sa = self@.labels.skip(i as int);
                    let sb = other@.labels.skip(i as int);
                    assert(sa[0] == self@.labels[i as int]);
                    assert(sb[0] == other@.labels[i as int]);
                    assert(sa[0] != sb[0]);
                    assert(labels_le(sa, sb) == str_le(sa[0], sb[0]));
                }
                r
            }
        }
    }
}

pub broadcast proof fn lemma_node_views_index(s: Seq<SitemapItem>, i: int)
    requires
        0 <= i < s.len(),
    ensures
        #[trigger] node_views(s)[i] == s[i]@,
{
}

pub broadcast proof fn lemma_node_view_children(t: SitemapItem)
    ensures
        #[trigger] node_view(t).children == node_views(t.children@),
{
    assert(node_view(t).children =~= node_views(t.children@));
}

pub broadcast proof fn lemma_item_views_push(s: Seq<BreadcrumbItem>, x: BreadcrumbItem)
    ensures
        #[trigger] item_views(s.push(x)) =~= item_views(s).push(x@),
{
    assert forall|i: int| 0 <= i < s.len() + 1 implies item_views(s.push(x))[i] == item_views(
        s,
    ).push(x@)[i] by {
        if i < s.len() {
            assert(s.push(x)[i] == s[i]);
        } else {
            assert(s.push(x)[i] == x);
        }
    }
}

pub proof fn lemma_first_accept_index_is(f: Seq<NodeView>, x: ItemView, i: int)
    requires
        0 <= i < f.len(),
        spec_accepts(f[i], x),
        forall|j: int| 0 <= j < i ==> !spec_accepts(#[trigger] f[j], x),
    ensures
        first_accept_index(f, x) == Some(i),
    decreases f.len(),
{
    if i > 0 {
        assert(!spec_accepts(f[0], x));
        assert forall|j: int| 0 <= j < i - 1 implies !spec_accepts(
            #[trigger] f.drop_first()[j],
            x,
        ) by {
            assert(f.drop_first()[j] == f[j + 1]);
        }
        assert(f.drop_first()[i - 1] == f[i]);
        lemma_first_accept_index_is(f.drop_first(), x, i - 1);
    }
}

pub proof fn lemma_first_accept_index_none(f: Seq<NodeView>, x: ItemView)
    requires
        forall|j: int| 0 <= j < f.len() ==> !spec_accepts(#[trigger] f[j], x),
    ensures
        first_accept_index(f, x) is None,
    decreases f.len(),
{
    if f.len() > 0 {
        assert forall|j: int| 0 <= j < f.drop_first().len() implies !spec_accepts(
            #[trigger] f.drop_first()[j],
            x,
        ) by {
            assert(f.drop_first()[j] == f[j + 1]);
        }
        lemma_first_accept_index_none(f.drop_first(), x);
    }
}

/// Inserts `item` into the first root of `forest` whose name is an
/// ancestor of the item's, else appends it as a new root.
fn insert_forest_owned(forest: Vec<SitemapItem>, item: BreadcrumbItem) -> (r: Vec<SitemapItem>)
    ensures
        node_views(r@) == spec_insert_forest(node_views(forest@), item@),
    decreases forest,
{
    broadcast use lemma_node_views_index, lemma_node_view_children;

    let mut forest = forest;
    let n = forest.len();
    let mut i: usize = 0;
    let mut found = false;
    while i < n && !found
        invariant
            i <= n,
            n == forest@.len(),
            forall|j: int| 0 <= j < i ==> !spec_accepts(#[trigger] node_views(forest@)[j], item@),
            found ==> i < n && spec_accepts(node_views(forest@)[i as int], item@),
        decreases n - i + (if found { 0int } else { 1int }),
    {
        if forest[i].item.document_name.is_ancestor_of(&item.document_name) {
            found = true;
        } else {
            i += 1;
        }
    }
    let ghost fv = node_views(forest@);
    if !found {
        proof {
            lemma_first_accept_index_none(fv, item@);
        }
        forest.push(SitemapItem { item, children: Vec::new() });
        proof {
            assert(forest@.last()@.children =~= Seq::<NodeView>::empty());
            assert(forest@.last()@ =~~= new_node(item@));
            assert forall|j: int| 0 <= j < fv.len() implies node_views(forest@)[j] == fv[j] by {
                assert(forest@[j] == forest@.drop_last()[j]);
            }
            assert(node_views(forest@) =~~= fv.push(new_node(item@)));
        }
        forest
    } else {
        proof {
            lemma_first_accept_index_is(fv, item@, i as int);
        }
        let child = forest.remove(i);
        let ghost childv = child@;
        proof {
            assert(childv == fv[i as int]);
        }
        let SitemapItem { item: citem, children: cchildren } = child;
        let new_children = insert_forest_owned(cchildren, item);
        let new_child = SitemapItem { item: citem, children: new_children };
        proof {
            assert(node_views(new_children@) == spec_insert_forest(childv.children, item@));
            assert(new_child@ =~~= spec_maybe_insert(childv, item@));
        }
        forest.insert(i, new_child);
        proof {
            assert(node_views(forest@) =~= fv.update(i as int, spec_maybe_insert(
                fv[i as int],
                item@,
            )));
        }
        forest
    }
}

impl SitemapItem {
    /// Offers `item` to this node: when this node's name is an ancestor
    /// of the item's, the item is inserted into the subtree and the call
    /// reports acceptance; otherwise the node is left unchanged.
    pub fn maybe_insert(&mut self, item: BreadcrumbItem) -> (r: bool)
        ensures
            r == spec_accepts(old(self)@, item@),
            final(self)@ == spec_maybe_insert(old(self)@, item@),
    {
        if !self.item.document_name.is_ancestor_of(&item.document_name) {
            return false;
        }
        let mut tmp: Vec<SitemapItem> = Vec::new();
        core::mem::swap(&mut tmp, &mut self.children);
        let new_children = insert_forest_owned(tmp, item);
        self.children = new_children;
        proof {
            broadcast use lemma_node_view_children;

            assert(node_views(self.children@) == spec_insert_forest(
                old(self)@.children,
                item@,
            ));
            assert(self@ =~~= spec_maybe_insert(old(self)@, item@));
        }
        true
    }
}

/// Index of the first node of a forest whose item equals `name` or is an
/// ancestor of it.
pub open spec fn node_matches(t: NodeView, name: NameView) -> bool {
    spec_is_ancestor_of(t.item.document_name, name) || t.item.document_name == name
}

pub open spec fn first_match_index(f: Seq<NodeView>, name: NameView) -> Option<int>
    decreases f.len(),
{
    if f.len() == 0 {
        None
    } else if node_matches(f[0], name) {
        Some(0int)
    } else {
        match first_match_index(f.drop_first(), name) {
            None => None,
            Some(i) => Some(i + 1),
        }
    }
}

pub proof fn lemma_first_match_index(f: Seq<NodeView>, name: NameView)
    ensures
        match first_match_index(f, name) {
            None => forall|j: int| 0 <= j < f.len() ==> !node_matches(#[trigger] f[j], name),
            Some(i) => 0 <= i < f.len() && node_matches(f[i], name) && (forall|j: int|
                0 <= j < i ==> !node_matches(#[trigger] f[j], name)),
        },
    decreases f.len(),
{
    if f.len() > 0 && !node_matches(f[0], name) {
        lemma_first_match_index(f.drop_first(), name);
        assert forall|j: int| 1 <= j < f.len() implies f[j] == f.drop_first()[j - 1] by {}
    }
}

pub proof fn lemma_first_match_index_is(f: Seq<NodeView>, name: NameView, i: int)
    requires
        0 <= i < f.len(),
        node_matches(f[i], name),
        forall|j: int| 0 <= j < i ==> !node_matches(#[trigger] f[j], name),
    ensures
        first_match_index(f, name) == Some(i),
    decreases f.len(),
{
    if i > 0 {
        assert(!node_matches(f[0], name));
        assert forall|j: int| 0 <= j < i - 1 implies !node_matches(
            #[trigger] f.drop_first()[j],
            name,
        ) by {
            assert(f.drop_first()[j] == f[j + 1]);
        }
        assert(f.drop_first()[i - 1] == f[i]);
        lemma_first_match_index_is(f.drop_first(), name, i - 1);
    }
}

pub proof fn lemma_first_match_index_none(f: Seq<NodeView>, name: NameView)
    requires
        forall|j: int| 0 <= j < f.len() ==> !node_matches(#[trigger] f[j], name),
    ensures
        first_match_index(f, name) is None,
    decreases f.len(),
{
    if f.len() > 0 {
        assert forall|j: int| 0 <= j < f.drop_first().len() implies !node_matches(
            #[trigger] f.drop_first()[j],
            name,
        ) by {
            assert(f.drop_first()[j] == f[j + 1]);
        }
        lemma_first_match_index_none(f.drop_first(), name);
    }
}

/// The traversal that derives a document's local sitemap: at each level
/// take the first node that equals or is an ancestor of the name; on
/// equality the breadcrumb so far and the node's children are the
/// answer; on an ancestor, descend with the item pushed onto the
/// breadcrumb; else there is no local sitemap.
pub open spec fn spec_local(f: Seq<NodeView>, name: NameView, crumbs: Seq<ItemView>) -> Option<
    LocalView,
>
    decreases f,
    via spec_local_decreases
{
    match first_match_index(f, name) {
        None => None,
        Some(i) => {
            if f[i].item.document_name == name {
                Some(LocalView { breadcrumb: crumbs, children: shallow_items(f[i].children) })
            } else {
                spec_local(f[i].children, name, crumbs.push(f[i].item))
            }
        },
    }
}

#[via_fn]
proof fn spec_local_decreases(f: Seq<NodeView>, name: NameView, crumbs: Seq<ItemView>) {
    lemma_first_match_index(f, name);
}

/// The ordered breadcrumb of a document's ancestors.
#[derive(Debug)]
pub struct Breadcrumb(pub Vec<BreadcrumbItem>);

impl View for Breadcrumb {
    type V = Seq<ItemView>;

    open spec fn view(&self) -> Seq<ItemView> {
        item_views(self.0@)
    }
}

/// A document's place in the sitemap: its ancestors and its children.
#[derive(Debug)]
pub struct LocalSitemap {
    pub breadcrumb: Breadcrumb,
    pub children: Vec<BreadcrumbItem>,
}

impl View for LocalSitemap {
    type V = LocalView;

    open spec fn view(&self) -> LocalView {
        LocalView { breadcrumb: self.breadcrumb@, children: item_views(self.children@) }
    }
}

/// The items at the top of a forest, copied in order.
fn top_items(forest: &Vec<SitemapItem>) -> (r: Vec<BreadcrumbItem>)
    ensures
        item_views(r@) == shallow_items(node_views(forest@)),
{
    broadcast use lemma_node_views_index, lemma_item_views_index;

    let mut r: Vec<BreadcrumbItem> = Vec::new();
    let mut i: usize = 0;
    while i < forest.len()
        invariant
            i <= forest@.len(),
            r@.len() == i,
            forall|j: int| 0 <= j < i ==> (#[trigger] r@[j])@ == forest@[j]@.item,
        decreases forest.len() - i,
    {
        r.push(forest[i].item.duplicate());
        i += 1;
    }
    proof {
        assert(item_views(r@) =~= shallow_items(node_views(forest@)));
    }
    r
}

/// The recursive walk behind `Sitemap::local`.
fn local_in(forest: &Vec<SitemapItem>, name: &DocumentName, crumbs: Vec<BreadcrumbItem>) -> (r:
    Option<LocalSitemap>)
    ensures
        match r {
            None => spec_local(node_views(forest@), name@, item_views(crumbs@)) is None,
            Some(l) => spec_local(node_views(forest@), name@, item_views(crumbs@)) == Some(l@),
        },
    decreases forest,
{
    broadcast use lemma_node_views_index, lemma_item_views_push;

    let n = forest.len();
    let mut i: usize = 0;
    let mut found = false;
    while i < n && !found
        invariant
            i <= n,
            n == forest@.len(),
            forall|j: int| 0 <= j < i ==> !node_matches(#[trigger] node_views(forest@)[j], name@),
            found ==> i < n && node_matches(node_views(forest@)[i as int], name@),
        decreases n - i + (if found { 0int } else { 1int }),
    {
        let t = &forest[i];
        if t.item.document_name.is_ancestor_of(name) || t.item.document_name.same(name) {
            found = true;
        } else {
            i += 1;
        }
    }
    let ghost fv = node_views(forest@);
    if !found {
        proof {
            lemma_first_match_index_none(fv, name@);
        }
        return None;
    }
    proof {
        lemma_first_match_index_is(fv, name@, i as int);
    }
    let target = &forest[i];
    if target.item.document_name.same(name) {
        let children = top_items(&target.children);
        proof {
            assert(node_views(target.children@) =~= fv[i as int].children);
        }
        Some(LocalSitemap { breadcrumb: Breadcrumb(crumbs), children })
    } else {
        let mut crumbs = crumbs;
        crumbs.push(target.item.duplicate());
        let r = local_in(&target.children, name, crumbs);
        proof {
            assert(node_views(target.children@) =~= fv[i as int].children);
        }
        r
    }
}

/// The sitemap of a site: an ordered forest of documents.
#[derive(Debug)]
pub struct Sitemap(pub Vec<SitemapItem>);

impl View for Sitemap {
    type V = Seq<NodeView>;

    open spec fn view(&self) -> Seq<NodeView> {
        node_views(self.0@)
    }
}

impl Sitemap {
    /// Inserts one item: into the first accepting root, else as a new
    /// top-level root.
    pub fn insert(&mut self, item: BreadcrumbItem)
        ensures
            final(self)@ == spec_insert_forest(old(self)@, item@),
    {
        let mut tmp: Vec<SitemapItem> = Vec::new();
        core::mem::swap(&mut tmp, &mut self.0);
        let new_forest = insert_forest_owned(tmp, item);
        self.0 = new_forest;
    }

    /// The local sitemap of a document: for the root, no breadcrumb and
    /// the top-level items; otherwise the result of the forest walk.
    pub fn local(&self, document_name: &DocumentName) -> (r: Option<LocalSitemap>)
        ensures
            spec_is_root(document_name@) ==> match r {
                Some(l) => l@.breadcrumb.len() == 0 && l@.children == shallow_items(self@),
                None => false,
            },
            !spec_is_root(document_name@) ==> match r {
                None => spec_local(self@, document_name@, Seq::empty()) is None,
                Some(l) => spec_local(self@, document_name@, Seq::empty()) == Some(l@),
            },
    {
        if document_name.is_root() {
            let children = top_items(&self.0);
            return Some(LocalSitemap { breadcrumb: Breadcrumb(Vec::new()), children });
        }
        let r = local_in(&self.0, document_name, Vec::new());
        proof {
            assert(item_views(Seq::<BreadcrumbItem>::empty()) =~= Seq::<ItemView>::empty());
        }
        r
    }

    /// Builds the sitemap of a site: items are sorted by document name
    /// and the non-root ones are inserted in order.
    pub fn from(name_titles: Vec<BreadcrumbItem>) -> (r: Sitemap)
        ensures
            r@ == spec_build(spec_sort(item_views(name_titles@))),
    {
        broadcast use lemma_item_views_index;

        let sorted = sort_items(&name_titles);
        let mut sitemap = Sitemap(Vec::new());
        let n = sorted.len();
        let mut i: usize = 0;
        proof {
            assert(node_views(sitemap.0@) =~= Seq::<NodeView>::empty());
            assert(item_views(sorted@).take(0) =~= Seq::<ItemView>::empty());
        }
        while i < n
            invariant
                i <= n,
                n == sorted@.len(),
                item_views(sorted@) == spec_sort(item_views(name_titles@)),
                sitemap@ == spec_build(item_views(sorted@).take(i as int)),
            decreases n - i,
        {
            let ghost pre = item_views(sorted@).take(i as int);
            let ghost cur = item_views(sorted@).take(i + 1);
            proof {
                assert(cur.drop_last() =~= pre);
                assert(cur.last() == sorted@[i as int]@);
            }
            if !sorted[i].document_name.is_root() {
                sitemap.insert(sorted[i].duplicate());
            }
            i += 1;
        }
        proof {
            assert(item_views(sorted@).take(n as int) =~= item_views(sorted@));
        }
        sitemap
    }
}

/// Inserts `x` into an already sorted vector, after every element that
/// sorts no later than it.
fn insort_owned(s: Vec<BreadcrumbItem>, x: BreadcrumbItem) -> (r: Vec<BreadcrumbItem>)
    ensures
        item_views(r@) == spec_insort(item_views(s@), x@),
    decreases s@.len(),
{
    broadcast use lemma_item_views_index, lemma_item_views_push;

    let mut s = s;
    if s.len() == 0 {
        s.push(x);
        proof {
            assert(item_views(s@) =~= seq![x@]);
        }
        return s;
    }
    let nl = s.len() - 1;
    if s[nl].document_name.le(&x.document_name) {
        proof {
            assert(item_views(s@).last() == s@[nl as int]@);
        }
        s.push(x);
        s
    } else {
        let ghost sv = item_views(s@);
        let last = s.remove(nl);
        proof {
            assert(item_views(s@) =~= sv.drop_last());
            assert(last@ == sv.last());
        }
        let mut r = insort_owned(s, x);
        r.push(last);
        r
    }
}

/// The items sorted by document name, stably.
fn sort_items(items: &Vec<BreadcrumbItem>) -> (r: Vec<BreadcrumbItem>)
    ensures
        item_views(r@) == spec_sort(item_views(items@)),
{
    broadcast use lemma_item_views_index;

    let mut r: Vec<BreadcrumbItem> = Vec::new();
    let n = items.len();
    let mut i: usize = 0;
    proof {
        assert(item_views(r@) =~= Seq::<ItemView>::empty());
        assert(item_views(items@).take(0) =~= Seq::<ItemView>::empty());
    }
    while i < n
        invariant
            i <= n,
            n == items@.len(),
            item_views(r@) == spec_sort(item_views(items@).take(i as int)),
        decreases n - i,
    {
        let ghost pre = item_views(items@).take(i as int);
        let ghost cur = item_views(items@).take(i + 1);
        proof {
            assert(cur.drop_last() =~= pre);
            assert(cur.last() == items@[i as int]@);
        }
        let next = insort_owned(r, items[i].duplicate());
        r = next;
        i += 1;
    }
    proof {
        assert(item_views(items@).take(n as int) =~= item_views(items@));
    }
    r
}


/// Whether two names carry the same sort key: the same labels and the
/// same post label. The ancestor relation and the sitemap order look at
/// nothing else.
pub open spec fn sort_key_eq(a: NameView, b: NameView) -> bool {
    a.labels == b.labels && a.post == b.post
}

pub proof fn lemma_str_le_refl(a: Seq<char>)
    ensures
        str_le(a, a),
    decreases a.len(),
{
    if a.len() > 0 {
        lemma_str_le_refl(a.drop_first());
    }
}

pub proof fn lemma_name_le_refl(a: NameView)
    ensures
        spec_name_le(a, a),
{
    match a.post {
        Some(p) => {
            lemma_str_le_refl(p.label);
        },
        None => {},
    }
}

pub proof fn lemma_str_le_total(a: Seq<char>, b: Seq<char>)
    ensures
        str_le(a, b) || str_le(b, a),
    decreases a.len(),
{
    if a.len() > 0 && b.len() > 0 {
        if a[0] == b[0] {
            lemma_str_le_total(a.drop_first(), b.drop_first());
        } else {
            assert((a[0] as int) != (b[0] as int));
        }
    }
}

pub proof fn lemma_str_le_antisym(a: Seq<char>, b: Seq<char>)
    requires
        str_le(a, b),
        str_le(b, a),
    ensures
        a == b,
    decreases a.len(),
{
    if a.len() == 0 {
        assert(b.len() == 0);
        assert(a =~= b);
    } else {
        assert(b.len() > 0);
        if a[0] == b[0] {
            lemma_str_le_antisym(a.drop_first(), b.drop_first());
            assert(a =~= seq![a[0]] + a.drop_first());
            assert(b =~= seq![b[0]] + b.drop_first());
        }
    }
}

pub proof fn lemma_str_le_trans(a: Seq<char>, b: Seq<char>, c: Seq<char>)
    requires
        str_le(a, b),
        str_le(b, c),
    ensures
        str_le(a, c),
    decreases a.len(),
{
    if a.len() > 0 && b.len() > 0 && c.len() > 0 {
        if a[0] == b[0] && b[0] == c[0] {
            lemma_str_le_trans(a.drop_first(), b.drop_first(), c.drop_first());
        }
    }
}

pub proof fn lemma_labels_le_total(a: Seq<Seq<char>>, b: Seq<Seq<char>>)
    ensures
        labels_le(a, b) || labels_le(b, a),
    decreases a.len(),
{
    if a.len() > 0 && b.len() > 0 {
        if a[0] == b[0] {
            lemma_labels_le_total(a.drop_first(), b.drop_first());
        } else {
            lemma_str_le_total(a[0], b[0]);
            if str_le(a[0], b[0]) && str_le(b[0], a[0]) {
                lemma_str_le_antisym(a[0], b[0]);
            }
        }
    }
}

pub proof fn lemma_labels_le_antisym(a: Seq<Seq<char>>, b: Seq<Seq<char>>)
    requires
        labels_le(a, b),
        labels_le(b, a),
    ensures
        a == b,
    decreases a.len(),
{
    if a.len() == 0 {
        assert(b.len() == 0);
        assert(a =~= b);
    } else {
        assert(b.len() > 0);
        if a[0] == b[0] {
            lemma_labels_le_antisym(a.drop_first(), b.drop_first());
            assert(a =~= seq![a[0]] + a.drop_first());
            assert(b =~= seq![b[0]] + b.drop_first());
        } else {
            lemma_str_le_antisym(a[0], b[0]);
        }
    }
}

pub proof fn lemma_labels_le_trans(a: Seq<Seq<char>>, b: Seq<Seq<char>>, c: Seq<Seq<char>>)
    requires
        labels_le(a, b),
        labels_le(b, c),
    ensures
        labels_le(a, c),
    decreases a.len(),
{
    if a.len() > 0 && b.len() > 0 && c.len() > 0 {
        if a[0] == b[0] && b[0] == c[0] {
            lemma_labels_le_trans(a.drop_first(), b.drop_first(), c.drop_first());
        } else if a[0] == b[0] {
            // a and b share a head; b is strictly below c on heads
        } else if b[0] == c[0] {
        } else {
            lemma_str_le_trans(a[0], b[0], c[0]);
            if a[0] == c[0] {
                lemma_str_le_antisym(a[0], b[0]);
            }
        }
    }
}

pub proof fn lemma_post_le_total(a: Option<PostLabelView>, b: Option<PostLabelView>)
    ensures
        post_le(a, b) || post_le(b, a),
{
    match (a, b) {
        (Some(p), Some(q)) => {
            if p.date == q.date {
                lemma_str_le_total(p.label, q.label);
            } else {
                lemma_str_le_total(p.date, q.date);
                if str_le(p.date, q.date) && str_le(q.date, p.date) {
                    lemma_str_le_antisym(p.date, q.date);
                }
            }
        },
        _ => {},
    }
}

pub proof fn lemma_post_le_antisym(a: Option<PostLabelView>, b: Option<PostLabelView>)
    requires
        post_le(a, b),
        post_le(b, a),
    ensures
        a == b,
{
    match (a, b) {
        (Some(p), Some(q)) => {
            if p.date == q.date {
                lemma_str_le_antisym(p.label, q.label);
                assert(p =~~= q);
            } else {
                lemma_str_le_antisym(p.date, q.date);
            }
        },
        _ => {},
    }
}

pub proof fn lemma_post_le_trans(
    a: Option<PostLabelView>,
    b: Option<PostLabelView>,
    c: Option<PostLabelView>,
)
    requires
        post_le(a, b),
        post_le(b, c),
    ensures
        post_le(a, c),
{
    match (a, b, c) {
        (Some(p), Some(q), Some(r)) => {
            if p.date == q.date && q.date == r.date {
                lemma_str_le_trans(p.label, q.label, r.label);
            } else if p.date == q.date {
            } else if q.date == r.date {
            } else {
                lemma_str_le_trans(p.date, q.date, r.date);
                if p.date == r.date {
                    lemma_str_le_antisym(p.date, q.date);
                }
            }
        },
        _ => {},
    }
}

pub proof fn lemma_name_le_total(a: NameView, b: NameView)
    ensures
        spec_name_le(a, b) || spec_name_le(b, a),
{
    if a.labels == b.labels {
        lemma_post_le_total(a.post, b.post);
    } else {
        lemma_labels_le_total(a.labels, b.labels);
    }
}

/// Mutual order implies an equal sort key.
pub proof fn lemma_name_le_antisym(a: NameView, b: NameView)
    requires
        spec_name_le(a, b),
        spec_name_le(b, a),
    ensures
        sort_key_eq(a, b),
{
    if a.labels == b.labels {
        lemma_post_le_antisym(a.post, b.post);
    } else {
        lemma_labels_le_antisym(a.labels, b.labels);
    }
}

pub proof fn lemma_name_le_trans(a: NameView, b: NameView, c: NameView)
    requires
        spec_name_le(a, b),
        spec_name_le(b, c),
    ensures
        spec_name_le(a, c),
{
    if a.labels == b.labels && b.labels == c.labels {
        lemma_post_le_trans(a.post, b.post, c.post);
    } else if a.labels == b.labels {
    } else if b.labels == c.labels {
    } else {
        lemma_labels_le_trans(a.labels, b.labels, c.labels);
        if a.labels == c.labels {
            lemma_labels_le_antisym(a.labels, b.labels);
        }
    }
}

/// Whether the items stand in sitemap order.
pub open spec fn sorted_items(s: Seq<ItemView>) -> bool {
    forall|i: int, j: int| 0 <= i < j < s.len() ==> spec_name_le(
        (#[trigger] s[i]).document_name,
        (#[trigger] s[j]).document_name,
    )
}

/// Whether no two items share a sort key.
pub open spec fn distinct_keys(s: Seq<ItemView>) -> bool {
    forall|i: int, j: int| 0 <= i < j < s.len() ==> !sort_key_eq(
        (#[trigger] s[i]).document_name,
        (#[trigger] s[j]).document_name,
    )
}

pub proof fn lemma_insort_multiset(s: Seq<ItemView>, x: ItemView)
    ensures
        spec_insort(s, x).to_multiset() == s.to_multiset().insert(x),
    decreases s.len(),
{
    broadcast use vstd::seq_lib::group_to_multiset_ensures;

    if s.len() == 0 {
        assert(seq![x] =~= Seq::<ItemView>::empty().push(x));
        assert(spec_insort(s, x).to_multiset() =~= s.to_multiset().insert(x));
    } else if spec_name_le(s.last().document_name, x.document_name) {
    } else {
        lemma_insort_multiset(s.drop_last(), x);
        assert(s =~= s.drop_last().push(s.last()));
        assert(s.to_multiset() == s.drop_last().push(s.last()).to_multiset());
        assert(spec_insort(s, x).to_multiset() == spec_insort(s.drop_last(), x).to_multiset()
            .insert(s.last()));
        assert(s.drop_last().to_multiset().insert(x).insert(s.last()) =~= s.drop_last()
            .to_multiset().insert(s.last()).insert(x));
    }
}

pub proof fn lemma_insort_sorted(s: Seq<ItemView>, x: ItemView)
    requires
        sorted_items(s),
    ensures
        sorted_items(spec_insort(s, x)),
    decreases s.len(),
{
    broadcast use vstd::seq_lib::group_to_multiset_ensures;

    if s.len() == 0 {
    } else if spec_name_le(s.last().document_name, x.document_name) {
        let r = s.push(x);
        assert forall|i: int, j: int| 0 <= i < j < r.len() implies spec_name_le(
            (#[trigger] r[i]).document_name,
            (#[trigger] r[j]).document_name,
        ) by {
            if j == r.len() - 1 {
                assert(r[i] == s[i]);
                if i < s.len() - 1 {
                    assert(spec_name_le(s[i].document_name, s[s.len() - 1].document_name));
                    lemma_name_le_trans(
                        s[i].document_name,
                        s.last().document_name,
                        x.document_name,
                    );
                }
            } else {
                assert(r[i] == s[i]);
                assert(r[j] == s[j]);
            }
        }
    } else {
        assert forall|i: int, j: int| 0 <= i < j < s.drop_last().len() implies spec_name_le(
            (#[trigger] s.drop_last()[i]).document_name,
            (#[trigger] s.drop_last()[j]).document_name,
        ) by {
            assert(s.drop_last()[i] == s[i]);
            assert(s.drop_last()[j] == s[j]);
        }
        lemma_insort_sorted(s.drop_last(), x);
        lemma_insort_multiset(s.drop_last(), x);
        let t = spec_insort(s.drop_last(), x);
        let r = t.push(s.last());
        lemma_name_le_total(s.last().document_name, x.document_name);
        assert(spec_name_le(x.document_name, s.last().document_name));
        assert forall|i: int, j: int| 0 <= i < j < r.len() implies spec_name_le(
            (#[trigger] r[i]).document_name,
            (#[trigger] r[j]).document_name,
        ) by {
            if j == r.len() - 1 {
                assert(r[i] == t[i]);
                assert(t.to_multiset().count(t[i]) > 0);
                assert(t.to_multiset() == s.drop_last().to_multiset().insert(x));
                if t[i] == x {
                    assert(spec_name_le(x.document_name, s.last().document_name));
                } else {
                    assert(s.drop_last().to_multiset().count(t[i]) > 0);
                    assert(s.drop_last().contains(t[i]));
                    let k = choose|k: int|
                        0 <= k < s.drop_last().len() && s.drop_last()[k] == t[i];
                    assert(s[k] == t[i]);
                    assert(spec_name_le(s[k].document_name, s[s.len() - 1].document_name));
                }
            } else {
                assert(r[i] == t[i]);
                assert(r[j] == t[j]);
            }
        }
    }
}

pub proof fn lemma_sort_multiset(items: Seq<ItemView>)
    ensures
        spec_sort(items).to_multiset() == items.to_multiset(),
    decreases items.len(),
{
    broadcast use vstd::seq_lib::group_to_multiset_ensures;

    if items.len() > 0 {
        lemma_sort_multiset(items.drop_last());
        lemma_insort_multiset(spec_sort(items.drop_last()), items.last());
        assert(items =~= items.drop_last().push(items.last()));
        assert(items.to_multiset() == items.drop_last().push(items.last()).to_multiset());
    }
}

pub proof fn lemma_sort_sorted(items: Seq<ItemView>)
    ensures
        sorted_items(spec_sort(items)),
    decreases items.len(),
{
    if items.len() > 0 {
        lemma_sort_sorted(items.drop_last());
        lemma_insort_sorted(spec_sort(items.drop_last()), items.last());
    }
}

/// Distinctness of sort keys carries over any permutation.
pub proof fn lemma_distinct_keys_multiset(s: Seq<ItemView>, t: Seq<ItemView>)
    requires
        s.to_multiset() == t.to_multiset(),
        distinct_keys(t),
    ensures
        distinct_keys(s),
{
    broadcast use vstd::seq_lib::group_to_multiset_ensures;

    assert forall|i: int, j: int| 0 <= i < j < s.len() implies !sort_key_eq(
        (#[trigger] s[i]).document_name,
        (#[trigger] s[j]).document_name,
    ) by {
        if sort_key_eq(s[i].document_name, s[j].document_name) {
            let a = s[i];
            let b = s[j];
            assert(s.to_multiset().count(a) > 0);
            assert(t.to_multiset().count(a) > 0);
            assert(t.contains(a));
            let p = choose|p: int| 0 <= p < t.len() && t[p] == a;
            assert(s.remove(i).to_multiset() == s.to_multiset().remove(a));
            assert(s.remove(i)[j - 1] == b);
            assert(s.remove(i).to_multiset().count(b) > 0);
            assert(t.remove(p).to_multiset() == t.to_multiset().remove(a));
            assert(t.remove(p).to_multiset().count(b) > 0);
            assert(t.remove(p).contains(b));
            let q = choose|q: int| 0 <= q < t.remove(p).len() && t.remove(p)[q] == b;
            if q < p {
                assert(t[q] == b);
                assert(!sort_key_eq(t[q].document_name, t[p].document_name) || !sort_key_eq(
                    t[p].document_name,
                    t[q].document_name,
                ));
            } else {
                assert(t[q + 1] == b);
            }
        }
    }
}

/// Two sorted sequences over the same multiset of items with pairwise
/// distinct sort keys are the same sequence.
pub proof fn lemma_sorted_unique(s1: Seq<ItemView>, s2: Seq<ItemView>)
    requires
        sorted_items(s1),
        sorted_items(s2),
        s1.to_multiset() == s2.to_multiset(),
        distinct_keys(s1),
    ensures
        s1 == s2,
    decreases s1.len(),
{
    broadcast use vstd::seq_lib::group_to_multiset_ensures;

    if s1.len() == 0 {
        assert(s1.len() == s1.to_multiset().len());
        assert(s2.len() == s2.to_multiset().len());
        assert(s1 =~= s2);
    } else {
        assert(s1.len() == s1.to_multiset().len());
        assert(s2.len() == s2.to_multiset().len());
        assert(s2.len() == s1.len());
        let a = s1.last();
        let b = s2.last();
        assert(s1.to_multiset().count(a) > 0);
        assert(s2.to_multiset().count(b) > 0);
        assert(s2.contains(a)) by {
            assert(s2.to_multiset().count(a) > 0);
        }
        assert(s1.contains(b)) by {
            assert(s1.to_multiset().count(b) > 0);
        }
        let ka = choose|k: int| 0 <= k < s2.len() && s2[k] == a;
        let kb = choose|k: int| 0 <= k < s1.len() && s1[k] == b;
        assert(spec_name_le(a.document_name, b.document_name)) by {
            if ka < s2.len() - 1 {
                assert(spec_name_le(s2[ka].document_name, s2[s2.len() - 1].document_name));
            } else {
                lemma_name_le_refl(a.document_name);
            }
        }
        assert(spec_name_le(b.document_name, a.document_name)) by {
            if kb < s1.len() - 1 {
                assert(spec_name_le(s1[kb].document_name, s1[s1.len() - 1].document_name));
            } else {
                lemma_name_le_refl(b.document_name);
            }
        }
        lemma_name_le_antisym(a.document_name, b.document_name);
        assert(kb == s1.len() - 1) by {
            if kb < s1.len() - 1 {
                assert(sort_key_eq(s1[kb].document_name, s1[s1.len() - 1].document_name));
            }
        }
        assert(a == b);
        assert(s1.drop_last().to_multiset() == s2.drop_last().to_multiset()) by {
            assert(s1.remove(s1.len() - 1) =~= s1.drop_last());
            assert(s2.remove(s2.len() - 1) =~= s2.drop_last());
            assert(s1.remove(s1.len() - 1).to_multiset() == s1.to_multiset().remove(a));
            assert(s2.remove(s2.len() - 1).to_multiset() == s2.to_multiset().remove(b));
        }
        assert forall|i: int, j: int| 0 <= i < j < s1.drop_last().len() implies spec_name_le(
            (#[trigger] s1.drop_last()[i]).document_name,
            (#[trigger] s1.drop_last()[j]).document_name,
        ) by {
            assert(s1.drop_last()[i] == s1[i]);
            assert(s1.drop_last()[j] == s1[j]);
        }
        assert forall|i: int, j: int| 0 <= i < j < s2.drop_last().len() implies spec_name_le(
            (#[trigger] s2.drop_last()[i]).document_name,
            (#[trigger] s2.drop_last()[j]).document_name,
        ) by {
            assert(s2.drop_last()[i] == s2[i]);
            assert(s2.drop_last()[j] == s2[j]);
        }
        assert forall|i: int, j: int| 0 <= i < j < s1.drop_last().len() implies !sort_key_eq(
            (#[trigger] s1.drop_last()[i]).document_name,
            (#[trigger] s1.drop_last()[j]).document_name,
        ) by {
            assert(s1.drop_last()[i] == s1[i]);
            assert(s1.drop_last()[j] == s1[j]);
        }
        lemma_sorted_unique(s1.drop_last(), s2.drop_last());
        assert(s1 =~= s2) by {
            assert forall|i: int| 0 <= i < s1.len() implies s1[i] == s2[i] by {
                if i < s1.len() - 1 {
                    assert(s1.drop_last()[i] == s2.drop_last()[i]);
                }
            }
        }
    }
}

/// Sitemap construction is a function of the multiset of items alone:
/// two item lists that are permutations of each other, with no two
/// items sharing a sort key, build the same forest.
pub proof fn lemma_sitemap_order_independent(items1: Seq<ItemView>, items2: Seq<ItemView>)
    requires
        items1.to_multiset() == items2.to_multiset(),
        distinct_keys(items1),
    ensures
        spec_build(spec_sort(items1)) == spec_build(spec_sort(items2)),
{
    lemma_sort_multiset(items1);
    lemma_sort_multiset(items2);
    lemma_sort_sorted(items1);
    lemma_sort_sorted(items2);
    lemma_distinct_keys_multiset(spec_sort(items1), items1);
    lemma_sorted_unique(spec_sort(items1), spec_sort(items2));
}


/// Whether `x` is the item of some node of the tree.
pub open spec fn tree_contains(t: NodeView, x: ItemView) -> bool
    decreases t,
{
    t.item == x || forest_contains(t.children, x)
}

/// Whether `x` is the item of some node of the forest.
pub open spec fn forest_contains(f: Seq<NodeView>, x: ItemView) -> bool
    decreases f,
{
    exists|i: int| 0 <= i < f.len() && tree_contains(#[trigger] f[i], x)
}

/// Well-formedness of a tree: every item anywhere below a node has the
/// node's document as an ancestor.
pub open spec fn tree_wf(t: NodeView) -> bool
    decreases t,
{
    &&& (forall|x: ItemView| #[trigger] forest_contains(t.children, x) ==> spec_is_ancestor_of(
        t.item.document_name,
        x.document_name,
    ))
    &&& forest_wf(t.children)
}

/// Well-formedness of a forest: every tree in it is well-formed.
pub open spec fn forest_wf(f: Seq<NodeView>) -> bool
    decreases f,
{
    forall|i: int| 0 <= i < f.len() ==> tree_wf(#[trigger] f[i])
}

/// Inserting adds exactly the inserted item to a forest's contents.
pub proof fn lemma_insert_contains(f: Seq<NodeView>, c: ItemView, z: ItemView)
    ensures
        forest_contains(spec_insert_forest(f, c), z) <==> (forest_contains(f, z) || z == c),
    decreases f,
{
    lemma_first_accept_index(f, c);
    match first_accept_index(f, c) {
        None => {
            let f2 = f.push(new_node(c));
            if forest_contains(f, z) {
                let i = choose|i: int| 0 <= i < f.len() && tree_contains(f[i], z);
                assert(f2[i] == f[i]);
                assert(forest_contains(f2, z));
            }
            if z == c {
                assert(f2[f.len() as int] == new_node(c));
                assert(tree_contains(new_node(c), z)) by {
                    assert(!forest_contains(Seq::<NodeView>::empty(), z));
                }
                assert(forest_contains(f2, z));
            }
            if forest_contains(f2, z) {
                let i = choose|i: int| 0 <= i < f2.len() && tree_contains(f2[i], z);
                if i < f.len() {
                    assert(f2[i] == f[i]);
                    assert(forest_contains(f, z));
                } else {
                    assert(f2[i] == new_node(c));
                    assert(!forest_contains(Seq::<NodeView>::empty(), z));
                }
            }
        },
        Some(k) => {
            let t = f[k];
            assert(spec_accepts(t, c));
            lemma_insert_contains(t.children, c, z);
            let t2 = spec_maybe_insert(t, c);
            assert(t2.item == t.item && t2.children == spec_insert_forest(t.children, c));
            let f2 = f.update(k, t2);
            assert(tree_contains(t2, z) <==> (tree_contains(t, z) || z == c));
            if forest_contains(f, z) {
                let i = choose|i: int| 0 <= i < f.len() && tree_contains(f[i], z);
                if i == k {
                    assert(tree_contains(t2, z));
                    assert(f2[k] == t2);
                } else {
                    assert(f2[i] == f[i]);
                }
                assert(forest_contains(f2, z));
            }
            if z == c {
                assert(tree_contains(t2, z));
                assert(f2[k] == t2);
                assert(forest_contains(f2, z));
            }
            if forest_contains(f2, z) {
                let i = choose|i: int| 0 <= i < f2.len() && tree_contains(f2[i], z);
                if i == k {
                    assert(tree_contains(t, z) || z == c);
                    if tree_contains(t, z) {
                        assert(forest_contains(f, z));
                    }
                } else {
                    assert(f2[i] == f[i]);
                    assert(forest_contains(f, z));
                }
            }
        },
    }
}

/// Inserting an item keeps the forest well-formed: the item only enters
/// subtrees of its ancestors.
pub proof fn lemma_insert_wf(f: Seq<NodeView>, c: ItemView)
    requires
        forest_wf(f),
    ensures
        forest_wf(spec_insert_forest(f, c)),
    decreases f,
{
    lemma_first_accept_index(f, c);
    match first_accept_index(f, c) {
        None => {
            let f2 = f.push(new_node(c));
            assert forall|i: int| 0 <= i < f2.len() implies tree_wf(#[trigger] f2[i]) by {
                if i < f.len() {
                    assert(f2[i] == f[i]);
                } else {
                    assert(f2[i] == new_node(c));
                    assert forall|x: ItemView|
                        #[trigger] forest_contains(new_node(c).children, x) implies spec_is_ancestor_of(
                        new_node(c).item.document_name,
                        x.document_name,
                    ) by {
                        assert(!forest_contains(Seq::<NodeView>::empty(), x));
                    }
                }
            }
        },
        Some(k) => {
            let t = f[k];
            assert(tree_wf(t));
            lemma_insert_wf(t.children, c);
            let t2 = spec_maybe_insert(t, c);
            let f2 = f.update(k, t2);
            assert(tree_wf(t2)) by {
                assert forall|x: ItemView|
                    #[trigger] forest_contains(t2.children, x) implies spec_is_ancestor_of(
                    t2.item.document_name,
                    x.document_name,
                ) by {
                    lemma_insert_contains(t.children, c, x);
                    if x == c {
                        assert(spec_accepts(t, c));
                    } else {
                        assert(forest_contains(t.children, x));
                    }
                }
            }
            assert forall|i: int| 0 <= i < f2.len() implies tree_wf(#[trigger] f2[i]) by {
                if i == k {
                    assert(f2[k] == t2);
                } else {
                    assert(f2[i] == f[i]);
                }
            }
        },
    }
}

/// The built sitemap is well-formed: whatever stands anywhere inside a
/// node's subtree has that node's document as an ancestor. This is the
/// downward half of the correspondence between the forest shape and the
/// ancestor relation.
pub proof fn lemma_build_wf(items: Seq<ItemView>)
    ensures
        forest_wf(spec_build(items)),
    decreases items.len(),
{
    if items.len() == 0 {
    } else {
        lemma_build_wf(items.drop_last());
        if !spec_is_root(items.last().document_name) {
            lemma_insert_wf(spec_build(items.drop_last()), items.last());
        }
    }
}

/// The built sitemap holds exactly the non-root items handed to it.
pub proof fn lemma_build_contains(items: Seq<ItemView>, z: ItemView)
    ensures
        forest_contains(spec_build(items), z) <==> (exists|i: int|
            0 <= i < items.len() && items[i] == z && !spec_is_root(
                (#[trigger] items[i]).document_name,
            )),
    decreases items.len(),
{
    if items.len() > 0 {
        lemma_build_contains(items.drop_last(), z);
        if !spec_is_root(items.last().document_name) {
            lemma_insert_contains(spec_build(items.drop_last()), items.last(), z);
        }
        if forest_contains(spec_build(items), z) {
            if exists|i: int|
                0 <= i < items.drop_last().len() && items.drop_last()[i] == z && !spec_is_root(
                    (#[trigger] items.drop_last()[i]).document_name,
                ) {
                let i = choose|i: int|
                    0 <= i < items.drop_last().len() && items.drop_last()[i] == z
                        && !spec_is_root((#[trigger] items.drop_last()[i]).document_name);
                assert(items[i] == z && !spec_is_root(items[i].document_name));
            } else {
                assert(items[items.len() - 1] == z && !spec_is_root(
                    items[items.len() - 1].document_name,
                ));
            }
        }
        if exists|i: int|
            0 <= i < items.len() && items[i] == z && !spec_is_root(
                (#[trigger] items[i]).document_name,
            ) {
            let i = choose|i: int|
                0 <= i < items.len() && items[i] == z && !spec_is_root(
                    (#[trigger] items[i]).document_name,
                );
            if i < items.len() - 1 {
                assert(items.drop_last()[i] == z && !spec_is_root(
                    items.drop_last()[i].document_name,
                ));
            }
        }
    }
}


/// Whether `y`'s node lies inside the subtree rooted at a node whose
/// item is `x`.
pub open spec fn tree_sub(t: NodeView, x: ItemView, y: ItemView) -> bool
    decreases t,
{
    (t.item == x && tree_contains(t, y)) || forest_sub(t.children, x, y)
}

pub open spec fn forest_sub(f: Seq<NodeView>, x: ItemView, y: ItemView) -> bool
    decreases f,
{
    exists|i: int| 0 <= i < f.len() && tree_sub(#[trigger] f[i], x, y)
}

pub proof fn lemma_tree_sub_contains(t: NodeView, x: ItemView, y: ItemView)
    requires
        tree_sub(t, x, y),
    ensures
        tree_contains(t, x),
        tree_contains(t, y),
    decreases t,
{
    if !(t.item == x && tree_contains(t, y)) {
        let i = choose|i: int| 0 <= i < t.children.len() && tree_sub(t.children[i], x, y);
        lemma_tree_sub_contains(t.children[i], x, y);
    }
}

/// Key separation: no two distinct positions of the forest hold items
/// with the same sort key.
pub open spec fn tree_sepa(t: NodeView) -> bool
    decreases t,
{
    &&& (forall|y: ItemView| #[trigger] forest_contains(t.children, y) ==> !sort_key_eq(
        t.item.document_name,
        y.document_name,
    ))
    &&& forest_sepa(t.children)
}

pub open spec fn forest_sepa(f: Seq<NodeView>) -> bool
    decreases f,
{
    &&& (forall|i: int, j: int, y1: ItemView, y2: ItemView|
        0 <= i < j < f.len() && #[trigger] tree_contains(f[i], y1) && #[trigger] tree_contains(
            f[j],
            y2,
        ) ==> !sort_key_eq(y1.document_name, y2.document_name))
    &&& (forall|i: int| 0 <= i < f.len() ==> tree_sepa(#[trigger] f[i]))
}

/// An item's occurrence fixes its root: under separation, an item is
/// inside at most one top-level subtree.
pub proof fn lemma_sepa_unique_root(f: Seq<NodeView>, x: ItemView, i: int, j: int)
    requires
        forest_sepa(f),
        0 <= i < f.len(),
        0 <= j < f.len(),
        tree_contains(f[i], x),
        tree_contains(f[j], x),
    ensures
        i == j,
{
    if i != j {
        if i < j {
            assert(!sort_key_eq(x.document_name, x.document_name));
        } else {
            assert(!sort_key_eq(x.document_name, x.document_name));
        }
    }
}


/// A label-list prefix sorts no later.
pub proof fn lemma_prefix_labels_le(a: Seq<Seq<char>>, b: Seq<Seq<char>>)
    requires
        a.len() <= b.len(),
        forall|i: int| 0 <= i < a.len() ==> a[i] == b[i],
    ensures
        labels_le(a, b),
    decreases a.len(),
{
    if a.len() > 0 {
        assert forall|i: int| 0 <= i < a.drop_first().len() implies a.drop_first()[i]
            == b.drop_first()[i] by {
            assert(a.drop_first()[i] == a[i + 1]);
            assert(b.drop_first()[i] == b[i + 1]);
        }
        lemma_prefix_labels_le(a.drop_first(), b.drop_first());
    }
}

/// An ancestor sorts no later than its descendant.
pub proof fn lemma_anc_implies_le(a: NameView, b: NameView)
    requires
        spec_is_ancestor_of(a, b),
    ensures
        spec_name_le(a, b),
{
    if a.labels == b.labels {
    } else {
        lemma_prefix_labels_le(a.labels, b.labels);
    }
}

/// Two ancestors of one name are comparable: one is an ancestor of the
/// other, or they share a sort key.
pub proof fn lemma_ancestors_comparable(a: NameView, b: NameView, c: NameView)
    requires
        spec_is_ancestor_of(a, c),
        spec_is_ancestor_of(b, c),
    ensures
        spec_is_ancestor_of(a, b) || spec_is_ancestor_of(b, a) || sort_key_eq(a, b),
{
    if a.labels.len() < b.labels.len() {
        assert(spec_is_ancestor_of(a, b));
    } else if b.labels.len() < a.labels.len() {
        assert(spec_is_ancestor_of(b, a));
    } else {
        assert(a.labels =~= b.labels);
    }
}

/// Containment only grows under insertion.
pub proof fn lemma_insert_sub_mono(f: Seq<NodeView>, c: ItemView, x: ItemView, y: ItemView)
    requires
        forest_sub(f, x, y),
    ensures
        forest_sub(spec_insert_forest(f, c), x, y),
    decreases f,
{
    lemma_first_accept_index(f, c);
    let i = choose|i: int| 0 <= i < f.len() && tree_sub(f[i], x, y);
    match first_accept_index(f, c) {
        None => {
            let f2 = f.push(new_node(c));
            assert(f2[i] == f[i]);
        },
        Some(k) => {
            let f2 = f.update(k, spec_maybe_insert(f[k], c));
            if i != k {
                assert(f2[i] == f[i]);
            } else {
                let t = f[k];
                let t2 = spec_maybe_insert(t, c);
                assert(tree_sub(t2, x, y)) by {
                    lemma_tree_sub_mono(t, c, x, y);
                }
                assert(f2[k] == t2);
            }
        },
    }
}

pub proof fn lemma_tree_sub_mono(t: NodeView, c: ItemView, x: ItemView, y: ItemView)
    requires
        tree_sub(t, x, y),
        spec_accepts(t, c),
    ensures
        tree_sub(spec_maybe_insert(t, c), x, y),
    decreases t,
{
    let t2 = spec_maybe_insert(t, c);
    if t.item == x && tree_contains(t, y) {
        assert(tree_contains(t2, y)) by {
            if t.item != y {
                lemma_insert_contains(t.children, c, y);
            }
        }
    } else {
        lemma_insert_sub_mono(t.children, c, x, y);
    }
}

/// Inserting an item with a key held by nothing in the forest keeps the
/// forest key-separated.
pub proof fn lemma_insert_sepa(f: Seq<NodeView>, c: ItemView)
    requires
        forest_sepa(f),
        forall|y: ItemView| #[trigger] forest_contains(f, y) ==> !sort_key_eq(
            c.document_name,
            y.document_name,
        ),
    ensures
        forest_sepa(spec_insert_forest(f, c)),
    decreases f,
{
    lemma_first_accept_index(f, c);
    match first_accept_index(f, c) {
        None => {
            let f2 = f.push(new_node(c));
            assert forall|i: int, j: int, y1: ItemView, y2: ItemView|
                0 <= i < j < f2.len() && #[trigger] tree_contains(f2[i], y1)
                    && #[trigger] tree_contains(f2[j], y2) implies !sort_key_eq(
                y1.document_name,
                y2.document_name,
            ) by {
                if j < f.len() {
                    assert(f2[i] == f[i]);
                    assert(f2[j] == f[j]);
                } else {
                    assert(f2[i] == f[i]);
                    assert(f2[j] == new_node(c));
                    assert(!forest_contains(Seq::<NodeView>::empty(), y2));
                    assert(y2 == c);
                    assert(forest_contains(f, y1));
                    assert(!sort_key_eq(c.document_name, y1.document_name));
                }
            }
            assert forall|i: int| 0 <= i < f2.len() implies tree_sepa(#[trigger] f2[i]) by {
                if i < f.len() {
                    assert(f2[i] == f[i]);
                } else {
                    assert(f2[i] == new_node(c));
                    assert forall|y: ItemView|
                        #[trigger] forest_contains(new_node(c).children, y) implies !sort_key_eq(
                        new_node(c).item.document_name,
                        y.document_name,
                    ) by {
                        assert(!forest_contains(Seq::<NodeView>::empty(), y));
                    }
                }
            }
        },
        Some(k) => {
            let t = f[k];
            let t2 = spec_maybe_insert(t, c);
            let f2 = f.update(k, t2);
            assert forall|y: ItemView|
                #[trigger] forest_contains(t.children, y) implies !sort_key_eq(
                c.document_name,
                y.document_name,
            ) by {
                assert(tree_contains(t, y));
                assert(forest_contains(f, y));
            }
            lemma_insert_sepa(t.children, c);
            assert(tree_sepa(t2)) by {
                assert forall|y: ItemView|
                    #[trigger] forest_contains(t2.children, y) implies !sort_key_eq(
                    t2.item.document_name,
                    y.document_name,
                ) by {
                    lemma_insert_contains(t.children, c, y);
                    if y == c {
                        assert(tree_contains(t, t.item));
                        assert(forest_contains(f, t.item));
                        assert(!sort_key_eq(c.document_name, t.item.document_name));
                    } else {
                        assert(forest_contains(t.children, y));
                    }
                }
            }
            assert forall|i: int, j: int, y1: ItemView, y2: ItemView|
                0 <= i < j < f2.len() && #[trigger] tree_contains(f2[i], y1)
                    && #[trigger] tree_contains(f2[j], y2) implies !sort_key_eq(
                y1.document_name,
                y2.document_name,
            ) by {
                let z1: ItemView = if i == k && tree_contains(t2, y1) && !tree_contains(t, y1) {
                    c
                } else {
                    y1
                };
                if i == k {
                    assert(f2[k] == t2);
                    assert(tree_contains(t2, y1));
                    assert(tree_contains(t, y1) || y1 == c) by {
                        if t2.item != y1 {
                            lemma_insert_contains(t.children, c, y1);
                        }
                    }
                    assert(f2[j] == f[j]);
                    if y1 == c {
                        assert(forest_contains(f, y2));
                        assert(!sort_key_eq(c.document_name, y2.document_name));
                    } else {
                        assert(tree_contains(f[i], y1));
                    }
                } else if j == k {
                    assert(f2[i] == f[i]);
                    assert(f2[k] == t2);
                    assert(tree_contains(t, y2) || y2 == c) by {
                        if t2.item != y2 {
                            lemma_insert_contains(t.children, c, y2);
                        }
                    }
                    if y2 == c {
                        assert(forest_contains(f, y1));
                        assert(!sort_key_eq(c.document_name, y1.document_name));
                    } else {
                        assert(tree_contains(f[j], y2));
                    }
                } else {
                    assert(f2[i] == f[i]);
                    assert(f2[j] == f[j]);
                }
            }
            assert forall|i: int| 0 <= i < f2.len() implies tree_sepa(#[trigger] f2[i]) by {
                if i != k {
                    assert(f2[i] == f[i]);
                } else {
                    assert(f2[k] == t2);
                }
            }
        },
    }
}


/// The sitemap forest reflects the ancestor relation: whenever the
/// forest holds two items and one's document is an ancestor of the
/// other's, the other stands inside the subtree rooted at the one.
pub open spec fn forest_reflects(f: Seq<NodeView>) -> bool {
    forall|x: ItemView, y: ItemView|
        #[trigger] forest_contains(f, x) && #[trigger] forest_contains(f, y)
            && spec_is_ancestor_of(x.document_name, y.document_name) ==> forest_sub(f, x, y)
}

/// Inserting a fresh, descendant-free item preserves the reflection
/// property: the item lands in the subtree of every one of its present
/// ancestors.
pub proof fn lemma_insert_reflects(f: Seq<NodeView>, c: ItemView)
    requires
        forest_wf(f),
        forest_sepa(f),
        forest_reflects(f),
        forall|y: ItemView| #[trigger] forest_contains(f, y) ==> !sort_key_eq(
            c.document_name,
            y.document_name,
        ),
        forall|y: ItemView| #[trigger] forest_contains(f, y) ==> !spec_is_ancestor_of(
            c.document_name,
            y.document_name,
        ),
    ensures
        forest_reflects(spec_insert_forest(f, c)),
    decreases f,
{
    lemma_first_accept_index(f, c);
    let f2 = spec_insert_forest(f, c);
    assert forall|x: ItemView, y: ItemView|
        #[trigger] forest_contains(f2, x) && #[trigger] forest_contains(f2, y)
            && spec_is_ancestor_of(x.document_name, y.document_name) implies forest_sub(
        f2,
        x,
        y,
    ) by {
        lemma_insert_contains(f, c, x);
        lemma_insert_contains(f, c, y);
        if x == c {
            if y == c {
                crate::document::lemma_ancestor_irreflexive(c.document_name);
            } else {
                assert(forest_contains(f, y));
                assert(false);
            }
        } else if y == c {
            let j = choose|j: int| 0 <= j < f.len() && tree_contains(#[trigger] f[j], x);
            // the root above x accepts c
            assert(spec_accepts(f[j], c)) by {
                if f[j].item == x {
                } else {
                    assert(forest_contains(f[j].children, x));
                    assert(tree_wf(f[j]));
                    assert(spec_is_ancestor_of(f[j].item.document_name, x.document_name));
                    crate::document::lemma_ancestor_transitive(
                        f[j].item.document_name,
                        x.document_name,
                        c.document_name,
                    );
                }
            }
            match first_accept_index(f, c) {
                None => {
                    assert(false);
                },
                Some(k) => {
                    let t = f[k];
                    let t2 = spec_maybe_insert(t, c);
                    if j != k {
                        // two accepting roots cannot coexist
                        lemma_ancestors_comparable(
                            t.item.document_name,
                            f[j].item.document_name,
                            c.document_name,
                        );
                        assert(tree_contains(t, t.item));
                        assert(tree_contains(f[j], f[j].item));
                        if j < k {
                            assert(!spec_accepts(f[j], c));
                            assert(false);
                        } else if sort_key_eq(t.item.document_name, f[j].item.document_name) {
                            assert(false);
                        } else if spec_is_ancestor_of(
                            t.item.document_name,
                            f[j].item.document_name,
                        ) {
                            assert(forest_contains(f, t.item));
                            assert(forest_contains(f, f[j].item));
                            assert(forest_sub(f, t.item, f[j].item));
                            let i0 = choose|i0: int|
                                0 <= i0 < f.len() && tree_sub(#[trigger] f[i0], t.item, f[j].item);
                            lemma_tree_sub_contains(f[i0], t.item, f[j].item);
                            lemma_sepa_unique_root(f, t.item, i0, k);
                            lemma_sepa_unique_root(f, f[j].item, k, j);
                            assert(false);
                        } else {
                            assert(spec_is_ancestor_of(
                                f[j].item.document_name,
                                t.item.document_name,
                            ));
                            assert(forest_contains(f, t.item));
                            assert(forest_contains(f, f[j].item));
                            assert(forest_sub(f, f[j].item, t.item));
                            let i0 = choose|i0: int|
                                0 <= i0 < f.len() && tree_sub(#[trigger] f[i0], f[j].item, t.item);
                            lemma_tree_sub_contains(f[i0], f[j].item, t.item);
                            lemma_sepa_unique_root(f, f[j].item, i0, j);
                            lemma_sepa_unique_root(f, t.item, j, k);
                            assert(false);
                        }
                    } else {
                        // x lives in the accepting root's subtree
                        if x == t.item {
                            lemma_insert_contains(t.children, c, c);
                            assert(tree_contains(t2, c));
                            assert(tree_sub(t2, x, c));
                            assert(f2[k] == t2);
                            assert(forest_sub(f2, x, c));
                        } else {
                            assert(forest_contains(t.children, x));
                            // the children forest satisfies every hypothesis
                            assert(tree_wf(t));
                            assert(tree_sepa(t));
                            assert forall|x2: ItemView, y2: ItemView|
                                #[trigger] forest_contains(t.children, x2)
                                    && #[trigger] forest_contains(t.children, y2)
                                    && spec_is_ancestor_of(
                                    x2.document_name,
                                    y2.document_name,
                                ) implies forest_sub(t.children, x2, y2) by {
                                assert(tree_contains(t, x2));
                                assert(tree_contains(t, y2));
                                assert(forest_contains(f, x2));
                                assert(forest_contains(f, y2));
                                assert(forest_sub(f, x2, y2));
                                let i0 = choose|i0: int|
                                    0 <= i0 < f.len() && tree_sub(#[trigger] f[i0], x2, y2);
                                lemma_tree_sub_contains(f[i0], x2, y2);
                                lemma_sepa_unique_root(f, x2, i0, k);
                                assert(tree_sub(t, x2, y2));
                                if t.item == x2 {
                                    assert(!sort_key_eq(t.item.document_name, x2.document_name));
                                    assert(false);
                                }
                            }
                            assert forall|y2: ItemView|
                                #[trigger] forest_contains(t.children, y2) implies !sort_key_eq(
                                c.document_name,
                                y2.document_name,
                            ) by {
                                assert(tree_contains(t, y2));
                                assert(forest_contains(f, y2));
                            }
                            assert forall|y2: ItemView|
                                #[trigger] forest_contains(t.children, y2)
                                    implies !spec_is_ancestor_of(
                                c.document_name,
                                y2.document_name,
                            ) by {
                                assert(tree_contains(t, y2));
                                assert(forest_contains(f, y2));
                            }
                            lemma_insert_reflects(t.children, c);
                            lemma_insert_contains(t.children, c, x);
                            lemma_insert_contains(t.children, c, c);
                            assert(forest_contains(t2.children, x));
                            assert(forest_contains(t2.children, c));
                            assert(forest_sub(t2.children, x, c));
                            assert(tree_sub(t2, x, c));
                            assert(f2[k] == t2);
                            assert(forest_sub(f2, x, c));
                        }
                    }
                },
            }
        } else {
            assert(forest_contains(f, x));
            assert(forest_contains(f, y));
            assert(forest_sub(f, x, y));
            lemma_insert_sub_mono(f, c, x, y);
        }
    }
}

/// Building the sitemap from sorted items with distinct sort keys gives
/// a forest that reflects the ancestor relation.
pub proof fn lemma_build_reflects(items: Seq<ItemView>)
    requires
        sorted_items(items),
        distinct_keys(items),
    ensures
        forest_wf(spec_build(items)),
        forest_sepa(spec_build(items)),
        forest_reflects(spec_build(items)),
    decreases items.len(),
{
    if items.len() == 0 {
        assert forall|x: ItemView, y: ItemView|
            #[trigger] forest_contains(spec_build(items), x) && #[trigger] forest_contains(
                spec_build(items),
                y,
            ) && spec_is_ancestor_of(x.document_name, y.document_name) implies forest_sub(
            spec_build(items),
            x,
            y,
        ) by {
            assert(!forest_contains(Seq::<NodeView>::empty(), x));
        }
    } else {
        let prefix = items.drop_last();
        assert forall|i: int, j: int| 0 <= i < j < prefix.len() implies spec_name_le(
            (#[trigger] prefix[i]).document_name,
            (#[trigger] prefix[j]).document_name,
        ) by {
            assert(prefix[i] == items[i]);
            assert(prefix[j] == items[j]);
        }
        assert forall|i: int, j: int| 0 <= i < j < prefix.len() implies !sort_key_eq(
            (#[trigger] prefix[i]).document_name,
            (#[trigger] prefix[j]).document_name,
        ) by {
            assert(prefix[i] == items[i]);
            assert(prefix[j] == items[j]);
        }
        lemma_build_reflects(prefix);
        let f = spec_build(prefix);
        let last = items.last();
        if !spec_is_root(last.document_name) {
            assert forall|y: ItemView| #[trigger] forest_contains(f, y) implies !sort_key_eq(
                last.document_name,
                y.document_name,
            ) by {
                lemma_build_contains(prefix, y);
                let i = choose|i: int|
                    0 <= i < prefix.len() && prefix[i] == y && !spec_is_root(
                        (#[trigger] prefix[i]).document_name,
                    );
                assert(items[i] == y);
                assert(!sort_key_eq(items[i].document_name, items[items.len() - 1].document_name));
            }
            assert forall|y: ItemView| #[trigger] forest_contains(f, y)
                implies !spec_is_ancestor_of(last.document_name, y.document_name) by {
                lemma_build_contains(prefix, y);
                let i = choose|i: int|
                    0 <= i < prefix.len() && prefix[i] == y && !spec_is_root(
                        (#[trigger] prefix[i]).document_name,
                    );
                assert(items[i] == y);
                if spec_is_ancestor_of(last.document_name, y.document_name) {
                    lemma_anc_implies_le(last.document_name, y.document_name);
                    assert(spec_name_le(items[i].document_name, items[items.len() - 1].document_name));
                    lemma_name_le_antisym(last.document_name, y.document_name);
                    assert(!sort_key_eq(items[i].document_name, items[items.len() - 1].document_name));
                }
            }
            lemma_insert_wf(f, last);
            lemma_insert_sepa(f, last);
            lemma_insert_reflects(f, last);
        }
    }
}

/// The sitemap built from any items with pairwise distinct sort keys
/// reflects the ancestor relation: a document stands in the subtree of
/// each of its ancestors present in the sitemap.
pub proof fn lemma_sitemap_reflects_ancestors(items: Seq<ItemView>)
    requires
        distinct_keys(items),
    ensures
        forest_wf(spec_build(spec_sort(items))),
        forest_sepa(spec_build(spec_sort(items))),
        forest_reflects(spec_build(spec_sort(items))),
{
    lemma_sort_sorted(items);
    lemma_sort_multiset(items);
    lemma_distinct_keys_multiset(spec_sort(items), items);
    lemma_build_reflects(spec_sort(items));
}


/// One line per node, depth first, each level indented by one more tab.
pub open spec fn spec_fmt_item(t: NodeView, prefix: Seq<char>) -> Seq<char>
    decreases t,
{
    prefix + "- "@ + crate::document::spec_display_name(t.item.document_name) + ": "@
        + t.item.title + seq!['\n'] + spec_fmt_forest(t.children, prefix + seq!['\t'])
}

pub open spec fn spec_fmt_forest(f: Seq<NodeView>, prefix: Seq<char>) -> Seq<char>
    decreases f,
{
    if f.len() == 0 {
        Seq::empty()
    } else {
        spec_fmt_item(f[0], prefix) + spec_fmt_forest(f.drop_first(), prefix)
    }
}

/// Renders one sitemap node and its subtree as tab-indented lines.
pub fn fmt_sitemap_item(item: &SitemapItem, prefix: &str) -> (r: String)
    ensures
        r@ == spec_fmt_item(item@, prefix@),
    decreases item,
{
    broadcast use lemma_node_views_index, lemma_node_view_children;

    let mut r = prefix.to_owned();
    r.append("- ");
    let name = item.item.document_name.display_string();
    r.append(name.as_str());
    r.append(": ");
    r.append(item.item.title.as_str());
    r.append("\n");
    let child_prefix = crate::strutil::concat2(prefix, "\t");
    proof {
        reveal_strlit("\n");
        reveal_strlit("\t");
        assert(("\n")@ =~= seq!['\n']);
        assert(("\t")@ =~= seq!['\t']);
        assert(child_prefix@ == prefix@ + seq!['\t']);
    }
    let ghost head = r@;
    let n = item.children.len();
    let mut i: usize = 0;
    proof {
        assert(spec_fmt_forest(item@.children.take(0), child_prefix@) =~= Seq::<char>::empty());
        assert(r@ =~= head + spec_fmt_forest(item@.children.take(0), child_prefix@));
    }
    while i < n
        invariant
            i <= n,
            n == item.children@.len(),
            n == item@.children.len(),
            child_prefix@ == prefix@ + seq!['\t'],
            forall|j: int| 0 <= j < n ==> item@.children[j] == item.children@[j]@,
            r@ == head + spec_fmt_forest(item@.children.take(i as int), child_prefix@),
        decreases n - i,
    {
        let line = fmt_sitemap_item(&item.children[i], child_prefix.as_str());
        r.append(line.as_str());
        proof {
            lemma_fmt_forest_snoc(item@.children, child_prefix@, i as int);
        }
        i += 1;
    }
    proof {
        assert(item@.children.take(n as int) =~= item@.children);
        assert(r@ =~= spec_fmt_item(item@, prefix@));
    }
    r
}

/// Extending the rendered prefix by one node appends that node's lines.
proof fn lemma_fmt_forest_snoc(f: Seq<NodeView>, prefix: Seq<char>, i: int)
    requires
        0 <= i < f.len(),
    ensures
        spec_fmt_forest(f.take(i + 1), prefix) == spec_fmt_forest(f.take(i), prefix)
            + spec_fmt_item(f[i], prefix),
    decreases i,
{
    if i == 0 {
        assert(f.take(1)[0] == f[0]);
        assert(f.take(1).drop_first() =~= f.take(0));
        assert(spec_fmt_forest(f.take(0), prefix) =~= Seq::<char>::empty());
        assert(spec_fmt_forest(f.take(1), prefix) == spec_fmt_item(f[0], prefix) + Seq::<
            char,
        >::empty());
        assert(spec_fmt_item(f[0], prefix) + Seq::<char>::empty() =~= spec_fmt_item(f[0], prefix));
        assert(Seq::<char>::empty() + spec_fmt_item(f[0], prefix) =~= spec_fmt_item(f[0], prefix));
    } else {
        lemma_fmt_forest_snoc(f.drop_first(), prefix, i - 1);
        assert(f.take(i + 1)[0] == f[0]);
        assert(f.take(i)[0] == f[0]);
        assert(f.take(i + 1).drop_first() =~= f.drop_first().take(i));
        assert(f.take(i).drop_first() =~= f.drop_first().take(i - 1));
        assert(f.drop_first()[i - 1] == f[i]);
        assert(spec_fmt_forest(f.take(i + 1), prefix) == spec_fmt_item(f[0], prefix)
            + spec_fmt_forest(f.drop_first().take(i), prefix));
        assert(spec_fmt_forest(f.take(i), prefix) == spec_fmt_item(f[0], prefix)
            + spec_fmt_forest(f.drop_first().take(i - 1), prefix));
        assert(spec_fmt_item(f[0], prefix) + (spec_fmt_forest(f.drop_first().take(i - 1), prefix)
            + spec_fmt_item(f[i], prefix)) =~= (spec_fmt_item(f[0], prefix) + spec_fmt_forest(
            f.drop_first().take(i - 1),
            prefix,
        )) + spec_fmt_item(f[i], prefix));
    }
}

impl Sitemap {
    /// The whole forest as tab-indented lines, for debugging.
    pub fn display_string(&self) -> (r: String)
        ensures
            r@ == spec_fmt_forest(self@, Seq::<char>::empty()),
    {
        broadcast use lemma_node_views_index;

        let mut r = String::new();
        let n = self.0.len();
        let mut i: usize = 0;
        proof {
            assert(r@ =~= Seq::<char>::empty() + spec_fmt_forest(self@.take(0), Seq::empty()));
            assert(spec_fmt_forest(self@.take(0), Seq::empty()) =~= Seq::<char>::empty());
        }
        while i < n
            invariant
                i <= n,
                n == self.0@.len(),
                n == self@.len(),
                forall|j: int| 0 <= j < n ==> self@[j] == self.0@[j]@,
                r@ == spec_fmt_forest(self@.take(i as int), Seq::<char>::empty()),
            decreases n - i,
        {
            let line = fmt_sitemap_item(&self.0[i], "");
            r.append(line.as_str());
            proof {
                reveal_strlit("");
                assert(("")@ =~= Seq::<char>::empty());
                lemma_fmt_forest_snoc(self@, Seq::<char>::empty(), i as int);
            }
            i += 1;
        }
        proof {
            assert(self@.take(n as int) =~= self@);
        }
        r
    }
}

/// Dropping a shared prefix does not change how label lists compare.
pub proof fn lemma_labels_le_skip(a: Seq<Seq<char>>, b: Seq<Seq<char>>, i: int)
    requires
        0 <= i <= a.len(),
        0 <= i <= b.len(),
        forall|j: int| 0 <= j < i ==> a[j] == b[j],
    ensures
        labels_le(a, b) == labels_le(a.skip(i), b.skip(i)),
    decreases i,
{
    if i > 0 {
        assert(a.len() > 0 && b.len() > 0);
        assert(a[0] == b[0]);
        assert(a.drop_first() =~= a.skip(1));
        assert(b.drop_first() =~= b.skip(1));
        assert forall|j: int| 0 <= j < i - 1 implies a.skip(1)[j] == b.skip(1)[j] by {
            assert(a.skip(1)[j] == a[j + 1]);
            assert(b.skip(1)[j] == b[j + 1]);
        }
        lemma_labels_le_skip(a.skip(1), b.skip(1), i - 1);
        assert(a.skip(1).skip(i - 1) =~= a.skip(i));
        assert(b.skip(1).skip(i - 1) =~= b.skip(i));
    } else {
        assert(a.skip(0) =~= a);
        assert(b.skip(0) =~= b);
    }
}

} // verus!
