use vstd::prelude::*;
use crate::error::DataError;
use crate::render::{markdown_to_html, rendered, Highlighter};
use crate::registry::{
    key_pos, lemma_key_pos, lemma_key_pos_unique, lookup, EntryView, PageData, PageView, Registry,
};
use crate::text::{lower_of, owned, same_text, starts_with, starts_with_spec, to_lower};
use crate::tree::{build_node, page_keys, lemma_trees_push, process_node, trees, Manifest, NavNode, NavTree};

verus! {

broadcast use {vstd::seq::axiom_seq_index_decreases, vstd::seq::axiom_seq_subrange_decreases, vstd::std_specs::vec::axiom_vec_decreases_to_view};

/// Where page sources and their images are fetched from.
pub const BASE_URL: &'static str = "https://raw.githubusercontent.com/amaali7/markdown_files/refs/heads/main/MarkDown";

pub open spec fn base_url() -> Seq<char> {
    BASE_URL@
}

/// The navigation tree and the registry made of a manifest, or `None` when a
/// node is malformed. A manifest without a root gives an empty tree.
pub open spec fn build_manifest(m: Manifest) -> Option<(Seq<NavTree>, Seq<EntryView>)> {
    match m.root {
        None => Some((Seq::empty(), Seq::empty())),
        Some(root) => match build_node(root, Seq::empty(), Seq::empty()) {
            Some((t, p)) => Some((seq![t], p)),
            None => None,
        },
    }
}

/// The registry keys of the manifest's page nodes, one per page node, in order.
pub open spec fn manifest_page_keys(m: Manifest) -> Seq<(Seq<char>, Seq<char>)> {
    match m.root {
        None => Seq::empty(),
        Some(root) => page_keys(root, Seq::empty()),
    }
}

/// A route with exactly the leading `/` that lookups expect added when it is missing.
pub open spec fn normalize_route(p: Seq<char>) -> Seq<char> {
    if starts_with_spec(p, "/"@) {
        p
    } else {
        "/"@ + p
    }
}

/// The address of a page's Markdown source given the lower-cased section and
/// route: `{base}/{route}/{file}` when they agree, else `{base}/{route}.md`.
pub open spec fn url_from_lowered(
    lower_section: Seq<char>,
    lower_route: Seq<char>,
    route: Seq<char>,
    file: Seq<char>,
) -> Seq<char> {
    if lower_section == lower_route {
        base_url() + "/"@ + route + "/"@ + file
    } else {
        base_url() + "/"@ + route + ".md"@
    }
}

/// The address of a page's Markdown source: `{base}/{path}/{file}` when the
/// section and the route agree case-insensitively, else `{base}/{path}.md`.
pub open spec fn download_url_spec(section: Seq<char>, route: Seq<char>, file: Seq<char>) -> Seq<char> {
    url_from_lowered(lower_of(section), lower_of(route), route, file)
}

/// The key under which the persistent store keeps a page's Markdown source.
pub open spec fn storage_key_spec(section: Seq<char>, name: Seq<char>) -> Seq<char> {
    section + "-"@ + name
}

/// The value stored under `k` in an association list, the last one when several are.
pub open spec fn assoc_get(s: Seq<(Seq<char>, Seq<char>)>, k: Seq<char>) -> Option<Seq<char>>
    decreases s.len(),
{
    if s.len() == 0 {
        None
    } else if s.last().0 == k {
        Some(s.last().1)
    } else {
        assoc_get(s.drop_last(), k)
    }
}

/// What a page request needs next, or its result.
#[derive(Debug, Clone, PartialEq)]
pub enum ContentStep {
    /// The rendered HTML of the page.
    Ready(String),
    /// Read the persistent store under this key, then call `resume_from_store`.
    ReadStore(String),
    /// Fetch this address, then call `finish_download`.
    Download(String),
    /// Write `content` to the persistent store under `key`; `html` is the page.
    StoreAndReady { key: String, content: String, html: String },
}

/// The registry with `text` kept as the Markdown source of the page under `k`.
pub open spec fn with_source(s: Seq<EntryView>, k: (Seq<char>, Seq<char>), text: Seq<char>) -> Seq<EntryView> {
    let i = key_pos(s, k);
    s.update(i, (k, PageView { raw_content: Some(text), ..s[i].1 }))
}

/// What building from a manifest gives: the tree and registry that
/// `build_manifest` describes with an empty cache, or `InvalidStructure`.
pub open spec fn from_json_post(m: Manifest, r: Result<JsonDb, DataError>) -> bool {
    match build_manifest(m) {
        Some((t, p)) => {
            &&& r is Ok
            &&& r->Ok_0.wf()
            &&& r->Ok_0.nav_view() == t
            &&& r->Ok_0.pages_view() == p
            &&& r->Ok_0.cache_view() == Seq::<(Seq<char>, Seq<char>)>::empty()
        },
        None => r == Err::<JsonDb, DataError>(DataError::InvalidStructure),
    }
}

/// What a lookup by route finds: an identity whose page has the route
/// `path`, where a route with and without its leading `/` count as the same,
/// the first such in registry order; or nothing when no page has that route.
pub open spec fn find_page_post(
    pages: Seq<EntryView>,
    path: Seq<char>,
    r: Option<(Seq<char>, Seq<char>)>,
) -> bool {
    match r {
        Some(k) => {
            &&& lookup(pages, k) matches Some(v) && normalize_route(v.path) == normalize_route(path)
            &&& forall|j: int|
                0 <= j < key_pos(pages, k) ==> normalize_route(#[trigger] pages[j].1.path)
                    != normalize_route(path)
        },
        None => forall|i: int|
            0 <= i < pages.len() ==> normalize_route(#[trigger] pages[i].1.path) != normalize_route(path),
    }
}

/// What a request does once the store has been read (`stored` is what it
/// held): a stored source is kept, rendered and cached; without one the
/// page's download address is asked for, which a page without a file lacks.
pub open spec fn resume_post(
    pre: JsonDb,
    post: JsonDb,
    section: Seq<char>,
    page: Seq<char>,
    stored: Option<Seq<char>>,
    r: Result<ContentStep, DataError>,
) -> bool {
    &&& post.wf()
    &&& post.nav_view() == pre.nav_view()
    &&& match lookup(pre.pages_view(), (section, page)) {
        None => r == Err::<ContentStep, DataError>(DataError::PageNotFound) && post == pre,
        Some(v) => match stored {
            Some(text) => r matches Ok(ContentStep::Ready(x)) && rendered(text, v.path, x@)
                && post.cache_view() == pre.cache_view().push((v.path, x@))
                && post.pages_view() == with_source(pre.pages_view(), (section, page), text),
            None => post == pre && match v.file {
                Some(f) => r matches Ok(ContentStep::Download(u))
                    && u@ == download_url_spec(section, v.path, f),
                None => r == Err::<ContentStep, DataError>(DataError::PageNotFound),
            },
        },
    }
}

/// What a first request for the HTML of `(section, page)` does: an unknown
/// page fails; a cached page is answered from the cache; a page whose source
/// is held is rendered and cached; any other calls for a store read under
/// `"{section}-{page}"`. The registry and the tree never change.
pub open spec fn html_request_post(
    pre: JsonDb,
    post: JsonDb,
    section: Seq<char>,
    page: Seq<char>,
    r: Result<ContentStep, DataError>,
) -> bool {
    &&& post.wf()
    &&& post.pages_view() == pre.pages_view()
    &&& post.nav_view() == pre.nav_view()
    &&& match lookup(pre.pages_view(), (section, page)) {
        None => r == Err::<ContentStep, DataError>(DataError::PageNotFound)
            && post.cache_view() == pre.cache_view(),
        Some(v) => match assoc_get(pre.cache_view(), v.path) {
            Some(h) => r matches Ok(ContentStep::Ready(x)) && x@ == h
                && post.cache_view() == pre.cache_view(),
            None => match v.raw_content {
                Some(md) => r matches Ok(ContentStep::Ready(x)) && rendered(md, v.path, x@)
                    && post.cache_view() == pre.cache_view().push((v.path, x@)),
                None => r matches Ok(ContentStep::ReadStore(k))
                    && k@ == storage_key_spec(section, page)
                    && post.cache_view() == pre.cache_view(),
            },
        },
    }
}

/// The document database: the page registry, the navigation tree and the
/// cache of rendered HTML keyed by route.
#[derive(Debug)]
pub struct JsonDb {
    pages: Registry,
    nav_tree: Vec<NavNode>,
    html_cache: Vec<(String, String)>,
}

impl JsonDb {
    pub closed spec fn pages_view(&self) -> Seq<EntryView> {
        self.pages.view()
    }

    pub closed spec fn nav_view(&self) -> Seq<NavTree> {
        trees(self.nav_tree@)
    }

    pub closed spec fn cache_view(&self) -> Seq<(Seq<char>, Seq<char>)> {
        self.html_cache@.map_values(|e: (String, String)| (e.0@, e.1@))
    }

    pub closed spec fn wf(&self) -> bool {
        self.pages.wf()
    }

    /// Builds the database from a parsed manifest: the tree under `root` (an
    /// empty tree when there is none), its page registry, and an empty cache.
    /// A malformed node anywhere fails the whole build.
    pub fn from_json(manifest: &Manifest) -> (r: Result<JsonDb, DataError>)
        ensures
            from_json_post(*manifest, r),
    {
        let mut pages = Registry::new();
        let mut nav_tree: Vec<NavNode> = Vec::new();
        match &manifest.root {
            Some(root) => {
                let res = process_node(root, "", &mut nav_tree, &mut pages);
                proof {
                    reveal_strlit("");
                }
                assert(""@ =~= Seq::<char>::empty());
                assert(trees(Seq::<NavNode>::empty()) =~= Seq::<NavTree>::empty());
                match res {
                    Ok(()) => {},
                    Err(e) => {
                        return Err(DataError::InvalidStructure);
                    },
                }
            },
            None => {
                assert(trees(Seq::<NavNode>::empty()) =~= Seq::<NavTree>::empty());
            },
        }
        let db = JsonDb { pages, nav_tree, html_cache: Vec::new() };
        assert(db.cache_view() =~= Seq::<(Seq<char>, Seq<char>)>::empty());
        Ok(db)
    }

    /// The rendered HTML that the cache holds for `route`, if any.
    fn cached_html(&self, route: &str) -> (r: Option<String>)
        ensures
            match assoc_get(self.cache_view(), route@) {
                Some(h) => r is Some && r->0@ == h,
                None => r is None,
            },
    {
        let mut i: usize = self.html_cache.len();
        assert(self.cache_view().subrange(0, i as int) =~= self.cache_view());
        while i > 0
            invariant
                i <= self.html_cache.len(),
                assoc_get(self.cache_view(), route@) == assoc_get(
                    self.cache_view().subrange(0, i as int),
                    route@,
                ),
            decreases i,
        {
            let ghost pre = self.cache_view().subrange(0, i as int);
            assert(pre.drop_last() =~= self.cache_view().subrange(0, i - 1));
            let e = &self.html_cache[i - 1];
            assert(pre.last() == (e.0@, e.1@));
            if same_text(e.0.as_str(), route) {
                return Some(e.1.clone());
            }
            i = i - 1;
        }
        None
    }

    /// Renders `markdown` for `route` and keeps the result in the cache.
    fn render_and_cache(&mut self, markdown: &str, route: &str, hl: &Highlighter) -> (r: String)
        ensures
            final(self).pages_view() == old(self).pages_view(),
            final(self).nav_view() == old(self).nav_view(),
            final(self).wf() == old(self).wf(),
            final(self).cache_view() == old(self).cache_view().push((route@, r@)),
            rendered(markdown@, route@, r@),
    {
        let html = markdown_to_html(markdown, route, hl);
        let ghost before = self.cache_view();
        self.html_cache.push((String::from_str(route), html.clone()));
        assert(self.cache_view() =~= before.push((route@, html@)));
        html
    }

    /// Starts a request for the HTML of page `(section, page)`. A page whose
    /// HTML is cached is answered at once; one whose Markdown source is held
    /// is rendered and cached; for any other the persistent store is to be
    /// read under `"{section}-{page}"`.
    pub fn get_html_content(&mut self, section: &str, page: &str, hl: &Highlighter) -> (r: Result<
        ContentStep,
        DataError,
    >)
        requires
            old(self).wf(),
        ensures
            html_request_post(*old(self), *final(self), section@, page@, r),
    {
        proof {
            lemma_key_pos(self.pages_view(), (section@, page@));
        }
        let i = match self.pages.position(section, page) {
            Some(i) => i,
            None => {
                return Err(DataError::PageNotFound);
            },
        };
        let (_, d) = self.pages.entry(i);
        let route = d.path.clone();
        if let Some(h) = self.cached_html(route.as_str()) {
            return Ok(ContentStep::Ready(h));
        }
        match &d.raw_content {
            Some(md) => {
                let md = md.clone();
                let html = self.render_and_cache(md.as_str(), route.as_str(), hl);
                Ok(ContentStep::Ready(html))
            },
            None => Ok(ContentStep::ReadStore(storage_key(section, page))),
        }
    }

    /// Goes on with a request once the persistent store has been read:
    /// `stored` is what it holds under the page's key. A stored source is
    /// kept in the registry, rendered and cached; without one the page's
    /// source is to be downloaded, which a page without a file cannot be.
    pub fn resume_from_store(
        &mut self,
        section: &str,
        page: &str,
        stored: Option<String>,
        hl: &Highlighter,
    ) -> (r: Result<ContentStep, DataError>)
        requires
            old(self).wf(),
        ensures
            resume_post(
                *old(self),
                *final(self),
                section@,
                page@,
                match stored {
                    Some(t) => Some(t@),
                    None => None,
                },
                r,
            ),
    {
        proof {
            lemma_key_pos(self.pages_view(), (section@, page@));
        }
        let i = match self.pages.position(section, page) {
            Some(i) => i,
            None => {
                return Err(DataError::PageNotFound);
            },
        };
        match stored {
            Some(text) => {
                let html = self.keep_and_render(i, section, page, text, hl);
                Ok(ContentStep::Ready(html))
            },
            None => match self.get_download_url(section, page) {
                Ok(url) => Ok(ContentStep::Download(url)),
                Err(e) => Err(e),
            },
        }
    }

    /// Ends a request once the page's source has been fetched: `body` is the
    /// response text, or `None` when the response status was not a success,
    /// which counts as an empty source. The source is kept in the registry,
    /// rendered and cached; a non-empty one is also to be written to the
    /// persistent store under the page's key.
    pub fn finish_download(
        &mut self,
        section: &str,
        page: &str,
        body: Option<String>,
        hl: &Highlighter,
    ) -> (r: Result<ContentStep, DataError>)
        requires
            old(self).wf(),
        ensures
            final(self).wf(),
            final(self).nav_view() == old(self).nav_view(),
            match lookup(old(self).pages_view(), (section@, page@)) {
                None => r == Err::<ContentStep, DataError>(DataError::PageNotFound)
                    && *final(self) == *old(self),
                Some(v) => {
                    let content = match body {
                        Some(b) => b@,
                        None => Seq::<char>::empty(),
                    };
                    &&& final(self).pages_view() == with_source(
                        old(self).pages_view(),
                        (section@, page@),
                        content,
                    )
                    &&& if content.len() > 0 {
                        r matches Ok(ContentStep::StoreAndReady { key, content: c, html })
                            && key@ == storage_key_spec(section@, page@) && c@ == content
                            && rendered(content, v.path, html@) && final(self).cache_view() == old(self).cache_view().push(
                            (v.path, html@),
                        )
                    } else {
                        r matches Ok(ContentStep::Ready(x)) && rendered(content, v.path, x@)
                            && final(self).cache_view() == old(self).cache_view().push((v.path, x@))
                    }
                },
            },
    {
        proof {
            lemma_key_pos(self.pages_view(), (section@, page@));
        }
        let i = match self.pages.position(section, page) {
            Some(i) => i,
            None => {
                return Err(DataError::PageNotFound);
            },
        };
        let content = match body {
            Some(b) => b,
            None => String::new(),
        };
        let keep = content.clone();
        let html = self.keep_and_render(i, section, page, content, hl);
        if keep.unicode_len() > 0 {
            Ok(ContentStep::StoreAndReady { key: storage_key(section, page), content: keep, html })
        } else {
            Ok(ContentStep::Ready(html))
        }
    }

    /// Keeps `text` as the source of the page at `i`, renders it and caches the result.
    fn keep_and_render(&mut self, i: usize, section: &str, page: &str, text: String, hl: &Highlighter) -> (r: String)
        requires
            old(self).wf(),
            key_pos(old(self).pages_view(), (section@, page@)) == i as int,
        ensures
            final(self).wf(),
            final(self).nav_view() == old(self).nav_view(),
            final(self).pages_view() == with_source(old(self).pages_view(), (section@, page@), text@),
            final(self).cache_view() == old(self).cache_view().push(
                (old(self).pages_view()[i as int].1.path, r@),
            ),
            rendered(text@, old(self).pages_view()[i as int].1.path, r@),
    {
        proof {
            lemma_key_pos(self.pages_view(), (section@, page@));
        }
        let route = self.pages.entry(i).1.path.clone();
        let md = text.clone();
        self.pages.set_raw_content(i, text);
        self.render_and_cache(md.as_str(), route.as_str(), hl)
    }

    /// A copy of the navigation tree.
    pub fn get_nav_tree(&self) -> (r: Vec<NavNode>)
        ensures
            trees(r@) == self.nav_view(),
    {
        copy_nodes(&self.nav_tree)
    }

    /// The identity `(section, name)` of the page whose route is `path`; a
    /// leading `/` is added to both the query and the stored routes before
    /// they are compared.
    pub fn find_page(&self, path: &str) -> (r: Option<(&str, &str)>)
        requires
            self.wf(),
        ensures
            find_page_post(
                self.pages_view(),
                path@,
                match r {
                    Some((s, n)) => Some((s@, n@)),
                    None => None,
                },
            ),
    {
        let search = normalized_route(path);
        let n = self.pages.len();
        let mut i: usize = 0;
        while i < n
            invariant
                self.wf(),
                n == self.pages_view().len(),
                i <= n,
                search@ == normalize_route(path@),
                forall|j: int|
                    0 <= j < i ==> normalize_route(#[trigger] self.pages_view()[j].1.path) != search@,
            decreases n - i,
        {
            let (k, d) = self.pages.entry(i);
            let stored = normalized_route(d.path.as_str());
            if same_text(stored.as_str(), search.as_str()) {
                proof {
                    lemma_key_pos_unique(self.pages_view(), i as int);
                }
                return Some((k.section.as_str(), k.name.as_str()));
            }
            i = i + 1;
        }
        None
    }

    /// Starts a request for the page whose route is `path` (with or without
    /// its leading `/`): the page's identity and the first step of the
    /// request for its HTML, or `PageNotFound` when no page has that route.
    pub fn load_content(&mut self, path: &str, hl: &Highlighter) -> (r: Result<
        (String, String, ContentStep),
        DataError,
    >)
        requires
            old(self).wf(),
        ensures
            match r {
                Ok((s, n, step)) => find_page_post(old(self).pages_view(), path@, Some((s@, n@)))
                    && html_request_post(*old(self), *final(self), s@, n@, Ok(step)),
                Err(e) => find_page_post(old(self).pages_view(), path@, None) && e
                    == DataError::PageNotFound && *final(self) == *old(self),
            },
    {
        let found = self.find_page(path);
        match found {
            Some((s, n)) => {
                let section = owned(s);
                let name = owned(n);
                match self.get_html_content(section.as_str(), name.as_str(), hl) {
                    Ok(step) => Ok((section, name, step)),
                    Err(e) => Err(e),
                }
            },
            None => Err(DataError::PageNotFound),
        }
    }

    /// What the registry holds for the page `(section, page)`.
    pub fn page_data(&self, section: &str, page: &str) -> (r: Option<&PageData>)
        ensures
            match lookup(self.pages_view(), (section@, page@)) {
                Some(v) => r is Some && r->0.view() == v,
                None => r is None,
            },
    {
        proof {
            lemma_key_pos(self.pages_view(), (section@, page@));
        }
        match self.pages.position(section, page) {
            Some(i) => Some(self.pages.entry(i).1),
            None => None,
        }
    }

    /// The number of pages in the registry.
    pub fn page_count(&self) -> (r: usize)
        ensures
            r == self.pages_view().len(),
    {
        self.pages.len()
    }

    /// The route of the page `(section, page)`.
    pub fn get_page_path(&self, section: &str, page: &str) -> (r: Result<String, DataError>)
        ensures
            match lookup(self.pages_view(), (section@, page@)) {
                Some(v) => r is Ok && r->Ok_0@ == v.path,
                None => r == Err::<String, DataError>(DataError::PageNotFound),
            },
    {
        proof {
            lemma_key_pos(self.pages_view(), (section@, page@));
        }
        match self.pages.position(section, page) {
            Some(i) => {
                let (_, d) = self.pages.entry(i);
                Ok(d.path.clone())
            },
            None => Err(DataError::PageNotFound),
        }
    }

    /// Where the Markdown source of `(section, page)` is downloaded from; a
    /// page that is unknown or has no source file cannot be downloaded.
    pub fn get_download_url(&self, section: &str, page: &str) -> (r: Result<String, DataError>)
        ensures
            match lookup(self.pages_view(), (section@, page@)) {
                Some(v) => match v.file {
                    Some(f) => r is Ok && r->Ok_0@ == download_url_spec(section@, v.path, f),
                    None => r == Err::<String, DataError>(DataError::PageNotFound),
                },
                None => r == Err::<String, DataError>(DataError::PageNotFound),
            },
    {
        proof {
            lemma_key_pos(self.pages_view(), (section@, page@));
        }
        match self.pages.position(section, page) {
            Some(i) => {
                let (_, d) = self.pages.entry(i);
                match &d.file {
                    Some(file) => Ok(download_url(section, d.path.as_str(), file.as_str())),
                    None => Err(DataError::PageNotFound),
                }
            },
            None => Err(DataError::PageNotFound),
        }
    }
}

/// The download address of a page source; see `download_url_spec`.
pub fn download_url(section: &str, route: &str, file: &str) -> (r: String)
    ensures
        r@ == download_url_spec(section@, route@, file@),
{
    let ls = to_lower(section);
    let lr = to_lower(route);
    download_url_lowered(ls.as_str(), lr.as_str(), route, file)
}

/// The download address of a page source, given the lower-cased section and
/// route; see `url_from_lowered`.
pub fn download_url_lowered(lower_section: &str, lower_route: &str, route: &str, file: &str) -> (r: String)
    ensures
        r@ == url_from_lowered(lower_section@, lower_route@, route@, file@),
{
    let url = String::from_str(BASE_URL).concat("/").concat(route);
    if same_text(lower_section, lower_route) {
        url.concat("/").concat(file)
    } else {
        url.concat(".md")
    }
}

/// `p` with a leading `/` added when it has none.
pub fn normalized_route(p: &str) -> (r: String)
    ensures
        r@ == normalize_route(p@),
{
    if starts_with(p, "/") {
        String::from_str(p)
    } else {
        String::from_str("/").concat(p)
    }
}

/// The key under which the persistent store keeps the source of `(section, name)`.
pub fn storage_key(section: &str, name: &str) -> (r: String)
    ensures
        r@ == storage_key_spec(section@, name@),
{
    String::from_str(section).concat("-").concat(name)
}

/// A copy of a navigation node and everything under it.
pub fn copy_node(n: &NavNode) -> (r: NavNode)
    ensures
        r.tree() == n.tree(),
    decreases n, 0nat,
{
    match n {
        NavNode::Page { name, path } => NavNode::Page { name: name.clone(), path: path.clone() },
        NavNode::Directory { name, path, children } => NavNode::Directory {
            name: name.clone(),
            path: path.clone(),
            children: copy_nodes(children),
        },
    }
}

/// A copy of a sequence of navigation nodes.
pub fn copy_nodes(v: &Vec<NavNode>) -> (r: Vec<NavNode>)
    ensures
        trees(r@) == trees(v@),
    decreases v, 1nat,
{
    let mut out: Vec<NavNode> = Vec::new();
    let mut i: usize = 0;
    assert(v@.subrange(0, 0) =~= Seq::<NavNode>::empty());
    assert(out@ =~= Seq::<NavNode>::empty());
    while i < v.len()
        invariant
            i <= v.len(),
            trees(out@) == trees(v@.subrange(0, i as int)),
        decreases v.len() - i,
    {
        let c = copy_node(&v[i]);
        let ghost before = out@;
        out.push(c);
        proof {
            lemma_trees_push(before, c);
            lemma_trees_push(v@.subrange(0, i as int), v@[i as int]);
            assert(v@.subrange(0, i as int).push(v@[i as int]) =~= v@.subrange(0, i + 1));
        }
        i = i + 1;
    }
    assert(v@.subrange(0, v.len() as int) =~= v@);
    out
}

} // verus!
