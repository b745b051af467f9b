use vstd::prelude::*;
use crate::db::{
    normalize_route, find_page_post, from_json_post, html_request_post, manifest_page_keys, resume_post,
    ContentStep, JsonDb,
};
use crate::error::DataError;
use crate::registry::{key_pos, lemma_key_pos, lookup, EntryView};
use crate::text::starts_with_spec;
use crate::tree::{
    build_node, forest_routes, lemma_build_adds_pages, lemma_build_lookup, lemma_build_routes,
    page_keys, tree_routes, Manifest, NavTree,
};

verus! {

/// When no two page nodes of a manifest share a (section, name) identity,
/// every page route of the built navigation tree is found by a lookup by
/// route, and the identity found has that route (with or without a leading `/`).
pub proof fn lemma_tree_routes_resolve(
    m: Manifest,
    r: Result<JsonDb, DataError>,
    j: int,
    found: Option<(Seq<char>, Seq<char>)>,
)
    requires
        from_json_post(m, r),
        r is Ok,
        manifest_page_keys(m).no_duplicates(),
        0 <= j < forest_routes(r->Ok_0.nav_view()).len(),
        find_page_post(r->Ok_0.pages_view(), forest_routes(r->Ok_0.nav_view())[j], found),
    ensures
        found matches Some(k) && lookup(r->Ok_0.pages_view(), k) matches Some(v) && normalize_route(
            v.path,
        ) == normalize_route(forest_routes(r->Ok_0.nav_view())[j]),
{
    let db = r->Ok_0;
    if m.root is None {
        assert(forest_routes(db.nav_view()).len() == 0);
    }
    let root = m.root->0;
    let empty = Seq::<EntryView>::empty();
    let t = (build_node(root, Seq::empty(), empty)->0).0;
    assert(db.nav_view() == seq![t]);
    assert(seq![t].subrange(0, 0) =~= Seq::<NavTree>::empty());
    assert(forest_routes(db.nav_view()) =~= forest_routes(Seq::<NavTree>::empty()) + tree_routes(t));
    let ks = page_keys(root, Seq::empty());
    assert forall|i: int| 0 <= i < ks.len() implies key_pos(empty, #[trigger] ks[i]) < 0 by {}
    lemma_build_routes(root, Seq::empty(), empty);
    lemma_build_lookup(root, Seq::empty(), empty);
    let key = page_keys(root, Seq::empty())[j];
    let route = forest_routes(db.nav_view())[j];
    assert(lookup(db.pages_view(), key) matches Some(v) && v.path == route);
    lemma_key_pos(db.pages_view(), key);
    if found is None {
        let i = key_pos(db.pages_view(), key);
        assert(normalize_route(db.pages_view()[i].1.path) == normalize_route(route));
    }
}

/// Every registered route leads back to its page: a lookup by that route
/// finds an identity whose page has the route (with or without a leading
/// `/`); a first
/// request for that page's HTML does not fail; and when the store lacks the
/// page's source, a download address is given whenever the page has a file.
pub proof fn lemma_registered_routes_resolve(
    db: JsonDb,
    i: int,
    found: Option<(Seq<char>, Seq<char>)>,
    db1: JsonDb,
    r1: Result<ContentStep, DataError>,
    db2: JsonDb,
    r2: Result<ContentStep, DataError>,
)
    requires
        db.wf(),
        0 <= i < db.pages_view().len(),
        find_page_post(db.pages_view(), db.pages_view()[i].1.path, found),
        found matches Some(k) ==> html_request_post(db, db1, k.0, k.1, r1),
        found matches Some(k) ==> resume_post(db, db2, k.0, k.1, None, r2),
    ensures
        found matches Some(k) && lookup(db.pages_view(), k) matches Some(v) && normalize_route(v.path)
            == normalize_route(db.pages_view()[i].1.path),
        r1 is Ok,
        lookup(db.pages_view(), found->0)->0.file is Some ==> r2 is Ok,
{
    let route = db.pages_view()[i].1.path;
    if found is None {
        assert(normalize_route(db.pages_view()[i].1.path) != normalize_route(route));
    }
}

/// A lookup by route gives the same answers for a route with and without its
/// leading `/`.
pub proof fn lemma_find_ignores_leading_slash(
    pages: Seq<EntryView>,
    route: Seq<char>,
    found: Option<(Seq<char>, Seq<char>)>,
)
    requires
        !starts_with_spec(route, "/"@),
    ensures
        find_page_post(pages, route, found) == find_page_post(pages, "/"@ + route, found),
{
    reveal_strlit("/");
    let q = "/"@ + route;
    assert(q.subrange(0, 1) =~= "/"@);
    assert(normalize_route(q) == q);
}

/// Building is a function of the manifest: two builds from the same manifest
/// both fail or both give the same navigation tree and the same registry.
pub proof fn lemma_build_deterministic(
    m: Manifest,
    r1: Result<JsonDb, DataError>,
    r2: Result<JsonDb, DataError>,
)
    requires
        from_json_post(m, r1),
        from_json_post(m, r2),
    ensures
        r1 is Ok <==> r2 is Ok,
        r1 is Ok ==> r1->Ok_0.nav_view() == r2->Ok_0.nav_view() && r1->Ok_0.pages_view()
            == r2->Ok_0.pages_view(),
{
}

/// When no two page nodes of a manifest share a (section, name) identity,
/// the registry built from it holds exactly one entry per page node.
pub proof fn lemma_registry_counts_pages(m: Manifest, r: Result<JsonDb, DataError>)
    requires
        from_json_post(m, r),
        r is Ok,
        manifest_page_keys(m).no_duplicates(),
    ensures
        r->Ok_0.pages_view().len() == manifest_page_keys(m).len(),
{
    if let Some(root) = m.root {
        lemma_build_adds_pages(root, Seq::empty(), Seq::empty());
    }
}

/// Once a request has answered with a page's HTML, asking again for the same
/// page gives the same HTML at once: no store read, no download, and the
/// database stays as it was.
pub proof fn lemma_render_cache_idempotent(
    db0: JsonDb,
    db1: JsonDb,
    db2: JsonDb,
    section: Seq<char>,
    page: Seq<char>,
    r1: Result<ContentStep, DataError>,
    r2: Result<ContentStep, DataError>,
)
    requires
        db0.wf(),
        html_request_post(db0, db1, section, page, r1),
        r1 matches Ok(ContentStep::Ready(_)),
        html_request_post(db1, db2, section, page, r2),
    ensures
        r2 matches Ok(ContentStep::Ready(h)) && h@ == r1->Ok_0->Ready_0@,
        db2.cache_view() == db1.cache_view(),
        db2.pages_view() == db1.pages_view(),
{
    let v = lookup(db0.pages_view(), (section, page))->0;
    let c = db0.cache_view();
    assert(c.push((v.path, r1->Ok_0->Ready_0@)).drop_last() =~= c);
}

} // verus!
