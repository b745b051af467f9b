use vstd::prelude::*;
use crate::error::DataError;
use crate::registry::{
    key_pos, lemma_key_pos, lemma_upsert_keys, lemma_upsert_lookup, lemma_upsert_unique, lookup, manifest_date, opt_text, parse_manifest_date, unique_keys, upsert,
    EntryView, PageData, PageKey, PageView, Registry,
};
use crate::text::{ends_with, ends_with_spec, lower_of, owned, same_text, to_lower};

verus! {

broadcast use {vstd::seq::axiom_seq_index_decreases, vstd::seq::axiom_seq_subrange_decreases, vstd::std_specs::vec::axiom_vec_decreases_to_view};

/// One node of the manifest as JSON gives it: each field is present only when
/// the JSON holds it with the right type (a string, or an array for `children`).
#[derive(Debug)]
pub struct ManifestNode {
    pub name: Option<String>,
    pub path: Option<String>,
    /// The `type` field: `"page"` or `"directory"`.
    pub kind: Option<String>,
    pub file: Option<String>,
    pub date: Option<String>,
    /// The `children` array; empty when the field is absent.
    pub children: Vec<ManifestNode>,
}

/// A parsed manifest document: the node under `"root"`, if there is one.
#[derive(Debug)]
pub struct Manifest {
    pub root: Option<ManifestNode>,
}

/// One entry of the navigation tree.
#[derive(Debug, PartialEq)]
pub enum NavNode {
    /// A page; `path` is its resolved route.
    Page { name: String, path: String },
    /// A directory; `path` is the route prefix handed to its children.
    Directory { name: String, path: String, children: Vec<NavNode> },
}

/// The abstract content of a `NavNode`.
pub enum NavTree {
    Page { name: Seq<char>, path: Seq<char> },
    Directory { name: Seq<char>, path: Seq<char>, children: Seq<NavTree> },
}

impl NavNode {
    pub open spec fn tree(self) -> NavTree
        decreases self,
    {
        match self {
            NavNode::Page { name, path } => NavTree::Page { name: name@, path: path@ },
            NavNode::Directory { name, path, children } => NavTree::Directory {
                name: name@,
                path: path@,
                children: trees(children@),
            },
        }
    }
}

/// The abstract content of a sequence of navigation nodes.
pub open spec fn trees(s: Seq<NavNode>) -> Seq<NavTree>
    decreases s,
{
    if s.len() == 0 {
        Seq::empty()
    } else {
        trees(s.subrange(0, s.len() - 1)).push(s[s.len() - 1].tree())
    }
}

pub proof fn lemma_trees_push(s: Seq<NavNode>, n: NavNode)
    ensures
        trees(s.push(n)) == trees(s).push(n.tree()),
{
    assert(s.push(n).subrange(0, s.len() as int) =~= s);
}

/// The route of a page given its lower-cased name: the manifest `path`,
/// extended by `/` and that name unless it already ends with it.
pub open spec fn route_from_lowered(path: Seq<char>, lower_name: Seq<char>) -> Seq<char> {
    if ends_with_spec(path, lower_name) {
        path
    } else {
        path + "/"@ + lower_name
    }
}

/// The route of a page: the manifest `path`, extended by `/` and the
/// lower-cased name unless it already ends with that name.
pub open spec fn route_of(path: Seq<char>, name: Seq<char>) -> Seq<char> {
    route_from_lowered(path, lower_of(name))
}

/// The route of a page with manifest path `path` and lower-cased name
/// `lower_name`; see `route_from_lowered`.
pub fn route_with(path: &str, lower_name: &str) -> (r: String)
    ensures
        r@ == route_from_lowered(path@, lower_name@),
{
    if ends_with(path, lower_name) {
        String::from_str(path)
    } else {
        String::from_str(path).concat("/").concat(lower_name)
    }
}

/// The registry record of a page node.
pub open spec fn page_view_of(m: ManifestNode) -> PageView {
    PageView {
        path: route_of(m.path->0@, m.name->0@),
        file: opt_text(m.file),
        last_updated: match m.date {
            Some(d) => manifest_date(d@),
            None => None,
        },
        raw_content: None,
    }
}

/// Whether `name`, `path` and `type` are all present.
pub open spec fn has_required(m: ManifestNode) -> bool {
    m.name is Some && m.path is Some && m.kind is Some
}

/// The subtree and the registry that the builder makes of node `m` inside the
/// directory whose path is `cur`, starting from registry `pages`; `None` when
/// the node or a descendant is malformed.
pub open spec fn build_node(m: ManifestNode, cur: Seq<char>, pages: Seq<EntryView>) -> Option<
    (NavTree, Seq<EntryView>),
>
    decreases m, 0nat,
{
    if !has_required(m) {
        None
    } else if m.kind->0@ == "page"@ {
        let route = route_of(m.path->0@, m.name->0@);
        Some(
            (
                NavTree::Page { name: m.name->0@, path: route },
                upsert(pages, (cur, m.name->0@), page_view_of(m)),
            ),
        )
    } else if m.kind->0@ == "directory"@ {
        match build_list(m.children@, m.path->0@, pages) {
            Some((kids, p)) => Some(
                (NavTree::Directory { name: m.name->0@, path: m.path->0@, children: kids }, p),
            ),
            None => None,
        }
    } else {
        None
    }
}

/// The builder run over a sequence of sibling nodes, in order.
pub open spec fn build_list(items: Seq<ManifestNode>, cur: Seq<char>, pages: Seq<EntryView>) -> Option<
    (Seq<NavTree>, Seq<EntryView>),
>
    decreases items, 1nat,
{
    if items.len() == 0 {
        Some((Seq::empty(), pages))
    } else {
        match build_list(items.subrange(0, items.len() - 1), cur, pages) {
            Some((ts, p)) => match build_node(items[items.len() - 1], cur, p) {
                Some((t, later)) => Some((ts.push(t), later)),
                None => None,
            },
            None => None,
        }
    }
}

pub proof fn lemma_build_keeps_unique(m: ManifestNode, cur: Seq<char>, pages: Seq<EntryView>)
    requires
        unique_keys(pages),
    ensures
        build_node(m, cur, pages) matches Some((t, p)) ==> unique_keys(p),
    decreases m, 0nat,
{
    if has_required(m) {
        if m.kind->0@ == "page"@ {
            lemma_upsert_unique(pages, (cur, m.name->0@), page_view_of(m));
        } else if m.kind->0@ == "directory"@ {
            lemma_list_keeps_unique(m.children@, m.path->0@, pages);
        }
    }
}

pub proof fn lemma_list_keeps_unique(items: Seq<ManifestNode>, cur: Seq<char>, pages: Seq<EntryView>)
    requires
        unique_keys(pages),
    ensures
        build_list(items, cur, pages) matches Some((ts, p)) ==> unique_keys(p),
    decreases items, 1nat,
{
    if items.len() > 0 {
        lemma_list_keeps_unique(items.subrange(0, items.len() - 1), cur, pages);
        if let Some((ts, p)) = build_list(items.subrange(0, items.len() - 1), cur, pages) {
            lemma_build_keeps_unique(items[items.len() - 1], cur, p);
        }
    }
}

/// The registry keys of the page nodes under `m` (one for each page node),
/// in manifest order.
pub open spec fn page_keys(m: ManifestNode, cur: Seq<char>) -> Seq<(Seq<char>, Seq<char>)>
    decreases m, 0nat,
{
    if !has_required(m) {
        Seq::empty()
    } else if m.kind->0@ == "page"@ {
        seq![(cur, m.name->0@)]
    } else if m.kind->0@ == "directory"@ {
        page_keys_list(m.children@, m.path->0@)
    } else {
        Seq::empty()
    }
}

pub open spec fn page_keys_list(items: Seq<ManifestNode>, cur: Seq<char>) -> Seq<(Seq<char>, Seq<char>)>
    decreases items, 1nat,
{
    if items.len() == 0 {
        Seq::empty()
    } else {
        page_keys_list(items.subrange(0, items.len() - 1), cur) + page_keys(items[items.len() - 1], cur)
    }
}

/// The routes of the page nodes under `m`, in manifest order, one for each
/// entry of `page_keys(m, cur)`.
pub open spec fn page_routes(m: ManifestNode, cur: Seq<char>) -> Seq<Seq<char>>
    decreases m, 0nat,
{
    if !has_required(m) {
        Seq::empty()
    } else if m.kind->0@ == "page"@ {
        seq![route_of(m.path->0@, m.name->0@)]
    } else if m.kind->0@ == "directory"@ {
        page_routes_list(m.children@, m.path->0@)
    } else {
        Seq::empty()
    }
}

pub open spec fn page_routes_list(items: Seq<ManifestNode>, cur: Seq<char>) -> Seq<Seq<char>>
    decreases items, 1nat,
{
    if items.len() == 0 {
        Seq::empty()
    } else {
        page_routes_list(items.subrange(0, items.len() - 1), cur) + page_routes(items[items.len() - 1], cur)
    }
}

/// The routes of the page nodes of a navigation tree, in order.
pub open spec fn tree_routes(t: NavTree) -> Seq<Seq<char>>
    decreases t, 0nat,
{
    match t {
        NavTree::Page { path, .. } => seq![path],
        NavTree::Directory { children, .. } => forest_routes(children),
    }
}

pub open spec fn forest_routes(ts: Seq<NavTree>) -> Seq<Seq<char>>
    decreases ts, 1nat,
{
    if ts.len() == 0 {
        Seq::empty()
    } else {
        forest_routes(ts.subrange(0, ts.len() - 1)) + tree_routes(ts[ts.len() - 1])
    }
}

/// The page routes of a built tree are those of the manifest's page nodes,
/// one for each page key.
pub proof fn lemma_build_routes(m: ManifestNode, cur: Seq<char>, pages: Seq<EntryView>)
    requires
        build_node(m, cur, pages) is Some,
    ensures
        tree_routes((build_node(m, cur, pages)->0).0) == page_routes(m, cur),
        page_routes(m, cur).len() == page_keys(m, cur).len(),
    decreases m, 0nat,
{
    if m.kind->0@ != "page"@ {
        lemma_list_routes(m.children@, m.path->0@, pages);
    }
}

pub proof fn lemma_list_routes(items: Seq<ManifestNode>, cur: Seq<char>, pages: Seq<EntryView>)
    requires
        build_list(items, cur, pages) is Some,
    ensures
        forest_routes((build_list(items, cur, pages)->0).0) == page_routes_list(items, cur),
        page_routes_list(items, cur).len() == page_keys_list(items, cur).len(),
    decreases items, 1nat,
{
    if items.len() > 0 {
        let pre = items.subrange(0, items.len() - 1);
        lemma_list_routes(pre, cur, pages);
        let p = (build_list(pre, cur, pages)->0).1;
        lemma_build_routes(items[items.len() - 1], cur, p);
        let ts = (build_list(items, cur, pages)->0).0;
        assert(ts.subrange(0, ts.len() - 1) =~= (build_list(pre, cur, pages)->0).0);
    }
}

/// When the page keys under `m` are fresh, after building `m` each page key
/// maps to the page with the matching route, and every other key maps to
/// what it mapped to before.
pub proof fn lemma_build_lookup(m: ManifestNode, cur: Seq<char>, pages: Seq<EntryView>)
    requires
        build_node(m, cur, pages) is Some,
        fresh_keys(page_keys(m, cur), pages),
    ensures
        forall|j: int|
            0 <= j < page_keys(m, cur).len() ==> (lookup((build_node(m, cur, pages)->0).1, #[trigger] page_keys(m, cur)[j])
                matches Some(v) && v.path == page_routes(m, cur)[j]),
        forall|k: (Seq<char>, Seq<char>)|
            !page_keys(m, cur).contains(k) ==> #[trigger] lookup((build_node(m, cur, pages)->0).1, k)
                == lookup(pages, k),
    decreases m, 0nat,
{
    lemma_build_routes(m, cur, pages);
    if m.kind->0@ == "page"@ {
        let k = (cur, m.name->0@);
        assert(page_keys(m, cur)[0] == k);
        lemma_upsert_lookup(pages, k, page_view_of(m), k);
        assert forall|k2: (Seq<char>, Seq<char>)|
            !page_keys(m, cur).contains(k2) implies #[trigger] lookup((build_node(m, cur, pages)->0).1, k2)
                == lookup(pages, k2) by {
            lemma_upsert_lookup(pages, k, page_view_of(m), k2);
            if k2 == k {
                assert(page_keys(m, cur)[0] == k2);
            }
        }
    } else {
        lemma_list_lookup(m.children@, m.path->0@, pages);
    }
}

pub proof fn lemma_list_lookup(items: Seq<ManifestNode>, cur: Seq<char>, pages: Seq<EntryView>)
    requires
        build_list(items, cur, pages) is Some,
        fresh_keys(page_keys_list(items, cur), pages),
    ensures
        forall|j: int|
            0 <= j < page_keys_list(items, cur).len() ==> (lookup((build_list(items, cur, pages)->0).1, #[trigger] page_keys_list(items, cur)[j])
                matches Some(v) && v.path == page_routes_list(items, cur)[j]),
        forall|k: (Seq<char>, Seq<char>)|
            !page_keys_list(items, cur).contains(k) ==> #[trigger] lookup((build_list(items, cur, pages)->0).1, k)
                == lookup(pages, k),
    decreases items, 1nat,
{
    lemma_list_routes(items, cur, pages);
    if items.len() > 0 {
        let pre = items.subrange(0, items.len() - 1);
        let last = items[items.len() - 1];
        let a = page_keys_list(pre, cur);
        let b = page_keys(last, cur);
        let ra = page_routes_list(pre, cur);
        let rb = page_routes(last, cur);
        lemma_fresh_split(a, b, pages);
        lemma_list_lookup(pre, cur, pages);
        lemma_list_routes(pre, cur, pages);
        let p = (build_list(pre, cur, pages)->0).1;
        assert forall|i: int| 0 <= i < b.len() implies key_pos(p, #[trigger] b[i]) < 0 by {
            assert(!a.contains(b[i]));
            assert(lookup(p, b[i]) == lookup(pages, b[i]));
            lemma_key_pos(p, b[i]);
        }
        lemma_build_lookup(last, cur, p);
        lemma_build_routes(last, cur, p);
        let q = (build_list(items, cur, pages)->0).1;
        let c = a + b;
        assert forall|j: int| 0 <= j < c.len() implies (lookup(q, #[trigger] c[j]) matches Some(v) && v.path
            == (ra + rb)[j]) by {
            if j < a.len() {
                assert(c[j] == a[j]);
                if b.contains(a[j]) {
                    let i = choose|i: int| 0 <= i < b.len() && b[i] == a[j];
                    assert(!a.contains(b[i]));
                }
            } else {
                assert(c[j] == b[j - a.len()]);
            }
        }
        assert forall|k: (Seq<char>, Seq<char>)| !c.contains(k) implies #[trigger] lookup(q, k) == lookup(pages, k) by {
            if a.contains(k) {
                let i = choose|i: int| 0 <= i < a.len() && a[i] == k;
                assert(c[i] == k);
            }
            if b.contains(k) {
                let i = choose|i: int| 0 <= i < b.len() && b[i] == k;
                assert(c[a.len() + i] == k);
            }
        }
    }
}

/// Whether no key of `ks` is held in `pages` and no key occurs twice in `ks`.
pub open spec fn fresh_keys(ks: Seq<(Seq<char>, Seq<char>)>, pages: Seq<EntryView>) -> bool {
    &&& ks.no_duplicates()
    &&& forall|i: int| 0 <= i < ks.len() ==> key_pos(pages, #[trigger] ks[i]) < 0
}

proof fn lemma_fresh_split(a: Seq<(Seq<char>, Seq<char>)>, b: Seq<(Seq<char>, Seq<char>)>, pages: Seq<EntryView>)
    requires
        fresh_keys(a + b, pages),
    ensures
        fresh_keys(a, pages),
        forall|i: int| 0 <= i < b.len() ==> !a.contains(#[trigger] b[i]),
        b.no_duplicates(),
        forall|i: int| 0 <= i < b.len() ==> key_pos(pages, #[trigger] b[i]) < 0,
{
    let c = a + b;
    assert forall|i: int| 0 <= i < a.len() implies key_pos(pages, #[trigger] a[i]) < 0 by {
        assert(c[i] == a[i]);
    }
    assert forall|i: int, j: int| 0 <= i < a.len() && 0 <= j < a.len() && i != j implies a[i] != a[j] by {
        assert(c[i] == a[i] && c[j] == a[j]);
    }
    assert forall|i: int| 0 <= i < b.len() implies !a.contains(#[trigger] b[i]) by {
        if a.contains(b[i]) {
            let j = choose|j: int| 0 <= j < a.len() && a[j] == b[i];
            assert(c[j] == c[a.len() + i]);
        }
    }
    assert forall|i: int, j: int| 0 <= i < b.len() && 0 <= j < b.len() && i != j implies b[i] != b[j] by {
        assert(c[a.len() + i] == b[i] && c[a.len() + j] == b[j]);
    }
    assert forall|i: int| 0 <= i < b.len() implies key_pos(pages, #[trigger] b[i]) < 0 by {
        assert(c[a.len() + i] == b[i]);
    }
}

/// When the page keys under `m` are fresh, building `m` adds exactly one
/// registry entry per page node, and afterwards the registry holds exactly
/// its earlier keys and those page keys.
pub proof fn lemma_build_adds_pages(m: ManifestNode, cur: Seq<char>, pages: Seq<EntryView>)
    requires
        build_node(m, cur, pages) is Some,
        fresh_keys(page_keys(m, cur), pages),
    ensures
        (build_node(m, cur, pages)->0).1.len() == pages.len() + page_keys(m, cur).len(),
        forall|k: (Seq<char>, Seq<char>)|
            #[trigger] key_pos((build_node(m, cur, pages)->0).1, k) >= 0 <==> (key_pos(pages, k) >= 0
                || page_keys(m, cur).contains(k)),
    decreases m, 0nat,
{
    if m.kind->0@ == "page"@ {
        let k = (cur, m.name->0@);
        assert(page_keys(m, cur)[0] == k);
        assert forall|k2: (Seq<char>, Seq<char>)|
            #[trigger] key_pos((build_node(m, cur, pages)->0).1, k2) >= 0 <==> (key_pos(pages, k2) >= 0
                || page_keys(m, cur).contains(k2)) by {
            lemma_upsert_keys(pages, k, page_view_of(m), k2);
            if page_keys(m, cur).contains(k2) {
                assert(page_keys(m, cur)[0] == k2);
            }
            if k2 == k {
                assert(page_keys(m, cur)[0] == k2);
            }
        }
    } else {
        lemma_list_adds_pages(m.children@, m.path->0@, pages);
    }
}

pub proof fn lemma_list_adds_pages(items: Seq<ManifestNode>, cur: Seq<char>, pages: Seq<EntryView>)
    requires
        build_list(items, cur, pages) is Some,
        fresh_keys(page_keys_list(items, cur), pages),
    ensures
        (build_list(items, cur, pages)->0).1.len() == pages.len() + page_keys_list(items, cur).len(),
        forall|k: (Seq<char>, Seq<char>)|
            #[trigger] key_pos((build_list(items, cur, pages)->0).1, k) >= 0 <==> (key_pos(pages, k) >= 0
                || page_keys_list(items, cur).contains(k)),
    decreases items, 1nat,
{
    if items.len() == 0 {
        assert(page_keys_list(items, cur) =~= Seq::<(Seq<char>, Seq<char>)>::empty());
    } else {
        let pre = items.subrange(0, items.len() - 1);
        let last = items[items.len() - 1];
        let a = page_keys_list(pre, cur);
        let b = page_keys(last, cur);
        lemma_fresh_split(a, b, pages);
        lemma_list_adds_pages(pre, cur, pages);
        let p = (build_list(pre, cur, pages)->0).1;
        assert forall|i: int| 0 <= i < b.len() implies key_pos(p, #[trigger] b[i]) < 0 by {
            assert(!a.contains(b[i]));
        }
        lemma_build_adds_pages(last, cur, p);
        let c = a + b;
        assert forall|k: (Seq<char>, Seq<char>)|
            #[trigger] key_pos((build_list(items, cur, pages)->0).1, k) >= 0 <==> (key_pos(pages, k) >= 0
                || c.contains(k)) by {
            if c.contains(k) {
                let j = choose|j: int| 0 <= j < c.len() && c[j] == k;
                if j < a.len() {
                    assert(a[j] == k);
                } else {
                    assert(b[j - a.len()] == k);
                }
            }
            if a.contains(k) {
                let j = choose|j: int| 0 <= j < a.len() && a[j] == k;
                assert(c[j] == k);
            }
            if b.contains(k) {
                let j = choose|j: int| 0 <= j < b.len() && b[j] == k;
                assert(c[a.len() + j] == k);
            }
        }
    }
}

/// A run over siblings fails as soon as a run over a prefix of them fails.
pub proof fn lemma_prefix_fails(items: Seq<ManifestNode>, j: int, cur: Seq<char>, pages: Seq<EntryView>)
    requires
        0 <= j <= items.len(),
        build_list(items.subrange(0, j), cur, pages) is None,
    ensures
        build_list(items, cur, pages) is None,
    decreases items.len() - j,
{
    if j < items.len() {
        assert(items.subrange(0, j + 1).subrange(0, j) =~= items.subrange(0, j));
        lemma_prefix_fails(items, j + 1, cur, pages);
    } else {
        assert(items.subrange(0, j) =~= items);
    }
}

/// Turns one manifest node into navigation nodes and registry entries:
/// a page is registered under `(current_path, name)` and appended to `nav`;
/// a directory's children are processed in order with the directory's own
/// path as their section, then the directory is appended.
pub fn process_node(
    node: &ManifestNode,
    current_path: &str,
    nav: &mut Vec<NavNode>,
    pages: &mut Registry,
) -> (r: Result<(), DataError>)
    requires
        old(pages).wf(),
    ensures
        final(pages).wf(),
        match build_node(*node, current_path@, old(pages).view()) {
            Some((t, p)) => {
                &&& r is Ok
                &&& trees(final(nav)@) == trees(old(nav)@).push(t)
                &&& final(pages).view() == p
            },
            None => r == Err::<(), DataError>(DataError::InvalidStructure),
        },
    decreases node, 0nat,
{
    let ghost old_pages = pages.view();
    proof {
        lemma_build_keeps_unique(*node, current_path@, old_pages);
        reveal_strlit("page");
        reveal_strlit("directory");
    }
    let (name, path, kind) = match (&node.name, &node.path, &node.kind) {
        (Some(n), Some(p), Some(k)) => (n, p, k),
        _ => {
            return Err(DataError::InvalidStructure);
        },
    };
    if same_text(kind.as_str(), "page") {
        let lower = to_lower(name.as_str());
        let route = route_with(path.as_str(), lower.as_str());
        let last_updated = match &node.date {
            Some(d) => parse_manifest_date(d.as_str()),
            None => None,
        };
        let data = PageData {
            path: route.clone(),
            file: node.file.clone(),
            last_updated,
            raw_content: None,
        };
        let key = PageKey { section: owned(current_path), name: name.clone() };
        pages.insert(key, data);
        let ghost before = nav@;
        nav.push(NavNode::Page { name: name.clone(), path: route });
        proof {
            lemma_trees_push(before, nav@.last());
        }
        Ok(())
    } else if same_text(kind.as_str(), "directory") {
        let mut children: Vec<NavNode> = Vec::new();
        let n = node.children.len();
        let mut i: usize = 0;
        assert(node.children@.subrange(0, 0) =~= Seq::<ManifestNode>::empty());
        assert(children@ =~= Seq::<NavNode>::empty());
        while i < n
            invariant
                n == node.children@.len(),
                i <= n,
                pages.wf(),
                has_required(*node),
                node.kind->0@ == "directory"@,
                node.path->0@ == path@,
                old_pages == old(pages).view(),
                build_list(node.children@.subrange(0, i as int), path@, old_pages) == Some(
                    (trees(children@), pages.view()),
                ),
            decreases n - i,
        {
            let ghost pre_pages = pages.view();
            let ghost pre_children = children@;
            assert(node.children@.subrange(0, i + 1).subrange(0, i as int) =~= node.children@.subrange(0, i as int));
            assert(node.children@.subrange(0, i + 1)[i as int] == node.children@[i as int]);
            let res = process_node(&node.children[i], path.as_str(), &mut children, pages);
            if res.is_err() {
                assert(build_node(node.children@[i as int], path@, pre_pages) is None);
                assert(build_list(node.children@.subrange(0, i + 1), path@, old_pages) is None);
                proof {
                    lemma_prefix_fails(node.children@, (i + 1) as int, path@, old_pages);
                    reveal_strlit("page");
                    reveal_strlit("directory");
                    assert("page"@.len() != "directory"@.len());
                }
                return Err(DataError::InvalidStructure);
            }
            i = i + 1;
        }
        assert(node.children@.subrange(0, n as int) =~= node.children@);
        let ghost before = nav@;
        nav.push(NavNode::Directory { name: name.clone(), path: path.clone(), children });
        proof {
            lemma_trees_push(before, nav@.last());
        }
        Ok(())
    } else {
        Err(DataError::InvalidStructure)
    }
}

} // verus!
