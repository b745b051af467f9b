use blogy::{
    download_url, download_url_lowered, normalized_route, route_with, path_to_route, plan_load, storage_key, ContentStep, DataError, Highlighter, JsonDb, LoadOp,
    Manifest, ManifestNode, NavNode, BASE_URL,
};

fn s(x: &str) -> Option<String> {
    Some(x.to_string())
}

fn page(name: &str, path: &str, file: Option<&str>, date: Option<&str>) -> ManifestNode {
    ManifestNode {
        name: s(name),
        path: s(path),
        kind: s("page"),
        file: file.map(|f| f.to_string()),
        date: date.map(|d| d.to_string()),
        children: vec![],
    }
}

fn dir(name: &str, path: &str, children: Vec<ManifestNode>) -> ManifestNode {
    ManifestNode {
        name: s(name),
        path: s(path),
        kind: s("directory"),
        file: None,
        date: None,
        children,
    }
}

fn docs_manifest() -> Manifest {
    Manifest {
        root: Some(dir("docs", "", vec![page("Intro", "pages", Some("intro.md"), None)])),
    }
}

#[test]
fn end_to_end_intro_page() {
    // empty local cache: one revision check (the caller's), then exactly one manifest fetch
    let plan = plan_load(None, "c0ffee", false);
    assert_eq!(plan.iter().filter(|op| **op == LoadOp::FetchManifest).count(), 1);
    assert_eq!(plan[0], LoadOp::ClearStorage);
    let hl = Highlighter::with_defaults();
    let mut db = JsonDb::from_json(&docs_manifest()).unwrap();
    assert_eq!(db.page_count(), 1);
    assert_eq!(db.get_page_path("", "Intro").unwrap(), "pages/intro");
    assert_eq!(db.find_page("pages/intro"), Some(("", "Intro")));
    assert_eq!(db.find_page("/pages/intro"), Some(("", "Intro")));
    assert_eq!(
        db.get_nav_tree(),
        vec![NavNode::Directory {
            name: "docs".to_string(),
            path: "".to_string(),
            children: vec![NavNode::Page { name: "Intro".to_string(), path: "pages/intro".to_string() }],
        }]
    );
    let step = db.get_html_content("", "Intro", &hl).unwrap();
    assert_eq!(step, ContentStep::ReadStore("-Intro".to_string()));
    let step = db.resume_from_store("", "Intro", None, &hl).unwrap();
    assert_eq!(step, ContentStep::Download(format!("{}/pages/intro.md", BASE_URL)));
    let step = db.finish_download("", "Intro", Some("# Intro\n\nHello".to_string()), &hl).unwrap();
    let html = match step {
        ContentStep::StoreAndReady { key, content, html } => {
            assert_eq!(key, "-Intro");
            assert_eq!(content, "# Intro\n\nHello");
            html
        }
        other => panic!("unexpected step {:?}", other),
    };
    assert!(html.contains("<h1>Intro</h1>"));
    assert!(html.contains("<p>Hello</p>"));
    assert_eq!(db.page_data("", "Intro").unwrap().raw_content.as_deref(), Some("# Intro\n\nHello"));
}

#[test]
fn second_request_is_served_from_cache() {
    let hl = Highlighter::with_defaults();
    let mut db = JsonDb::from_json(&docs_manifest()).unwrap();
    let first = db.resume_from_store("", "Intro", Some("Some *text*".to_string()), &hl).unwrap();
    let html = match first {
        ContentStep::Ready(h) => h,
        other => panic!("unexpected step {:?}", other),
    };
    assert!(html.contains("<em>text</em>"));
    let again = db.get_html_content("", "Intro", &hl).unwrap();
    assert_eq!(again, ContentStep::Ready(html.clone()));
    let third = db.get_html_content("", "Intro", &hl).unwrap();
    assert_eq!(third, ContentStep::Ready(html));
}

#[test]
fn held_source_is_rendered_without_store_read() {
    let hl = Highlighter::with_defaults();
    let mut db = JsonDb::from_json(&docs_manifest()).unwrap();
    // an empty body (failed status) is kept as an empty source and not stored
    let step = db.finish_download("", "Intro", None, &hl).unwrap();
    assert_eq!(step, ContentStep::Ready(String::new()));
    assert_eq!(db.page_data("", "Intro").unwrap().raw_content.as_deref(), Some(""));
}

#[test]
fn find_page_normalizes_leading_slash() {
    let m = Manifest {
        root: Some(dir(
            "docs",
            "/pages",
            vec![page("Intro", "/pages", Some("intro.md"), None), page("Setup", "/pages/setup", None, None)],
        )),
    };
    let hl = Highlighter::with_defaults();
    let mut db = JsonDb::from_json(&m).unwrap();
    assert_eq!(db.find_page("pages/intro"), Some(("/pages", "Intro")));
    assert_eq!(db.find_page("/pages/intro"), Some(("/pages", "Intro")));
    assert_eq!(db.find_page("/pages/setup"), Some(("/pages", "Setup")));
    assert_eq!(db.find_page("/nowhere"), None);
    let (section, name, step) = db.load_content("pages/intro", &hl).unwrap();
    assert_eq!((section.as_str(), name.as_str()), ("/pages", "Intro"));
    assert_eq!(step, ContentStep::ReadStore("/pages-Intro".to_string()));
    assert!(matches!(db.load_content("/nowhere", &hl), Err(DataError::PageNotFound)));
}

#[test]
fn download_url_uses_file_when_section_is_route() {
    let m = Manifest { root: Some(dir("Guide", "Guide/intro", vec![page("Intro", "Guide", Some("a.md"), None)])) };
    let db = JsonDb::from_json(&m).unwrap();
    assert_eq!(db.get_page_path("Guide/intro", "Intro").unwrap(), "Guide/intro");
    assert_eq!(
        db.get_download_url("Guide/intro", "Intro").unwrap(),
        format!("{}/Guide/intro/a.md", BASE_URL)
    );
}

#[test]
fn page_without_file_cannot_be_downloaded() {
    let m = Manifest { root: Some(dir("d", "x", vec![page("P", "x", None, None)])) };
    let hl = Highlighter::with_defaults();
    let mut db = JsonDb::from_json(&m).unwrap();
    assert!(matches!(db.get_download_url("x", "P"), Err(DataError::PageNotFound)));
    assert!(matches!(db.resume_from_store("x", "P", None, &hl), Err(DataError::PageNotFound)));
}

#[test]
fn unknown_page_is_not_found() {
    let hl = Highlighter::with_defaults();
    let mut db = JsonDb::from_json(&docs_manifest()).unwrap();
    assert!(matches!(db.get_page_path("", "Nope"), Err(DataError::PageNotFound)));
    assert!(matches!(db.get_html_content("", "Nope", &hl), Err(DataError::PageNotFound)));
    assert!(matches!(db.finish_download("", "Nope", None, &hl), Err(DataError::PageNotFound)));
}

#[test]
fn missing_root_gives_empty_tree() {
    let db = JsonDb::from_json(&Manifest { root: None }).unwrap();
    assert_eq!(db.get_nav_tree(), vec![]);
    assert_eq!(db.page_count(), 0);
}

#[test]
fn missing_field_is_invalid_structure() {
    let mut bad = page("Intro", "pages", None, None);
    bad.path = None;
    let m = Manifest { root: Some(dir("docs", "", vec![page("A", "a", None, None), bad])) };
    assert!(matches!(JsonDb::from_json(&m), Err(DataError::InvalidStructure)));
}

#[test]
fn unknown_type_is_invalid_structure() {
    let mut odd = page("Intro", "pages", None, None);
    odd.kind = s("file");
    let m = Manifest { root: Some(odd) };
    assert!(matches!(JsonDb::from_json(&m), Err(DataError::InvalidStructure)));
}

#[test]
fn route_keeps_path_that_ends_with_name() {
    let m = Manifest { root: Some(dir("d", "docs", vec![page("Setup", "docs/setup", None, None)])) };
    let db = JsonDb::from_json(&m).unwrap();
    assert_eq!(db.get_page_path("docs", "Setup").unwrap(), "docs/setup");
}

#[test]
fn build_is_deterministic_and_counts_pages() {
    let m = Manifest {
        root: Some(dir(
            "docs",
            "",
            vec![
                page("A", "a", None, None),
                dir("Sub", "sub", vec![page("B", "sub", None, None), page("C", "sub", None, None)]),
            ],
        )),
    };
    let a = JsonDb::from_json(&m).unwrap();
    let b = JsonDb::from_json(&m).unwrap();
    assert_eq!(a.get_nav_tree(), b.get_nav_tree());
    assert_eq!(a.page_count(), 3);
    assert_eq!(a.get_page_path("sub", "C").unwrap(), "sub/c");
    assert_eq!(a.get_page_path("", "A").unwrap(), "a");
}

#[test]
fn same_key_twice_keeps_the_later_page() {
    let m = Manifest {
        root: Some(dir("d", "s", vec![page("A", "one", None, None), page("A", "two", None, None)])),
    };
    let db = JsonDb::from_json(&m).unwrap();
    assert_eq!(db.page_count(), 1);
    assert_eq!(db.get_page_path("s", "A").unwrap(), "two/a");
}

#[test]
fn manifest_date_is_parsed() {
    let m = Manifest {
        root: Some(dir(
            "d",
            "s",
            vec![page("A", "a", None, Some("2024-03-05 07:09")), page("B", "b", None, Some("yesterday"))],
        )),
    };
    let db = JsonDb::from_json(&m).unwrap();
    let t = db.page_data("s", "A").unwrap().last_updated.unwrap();
    assert_eq!((t.year, t.month, t.day, t.hour, t.minute), (2024, 3, 5, 7, 9));
    assert_eq!(db.page_data("s", "B").unwrap().last_updated, None);
}

#[test]
fn storage_key_joins_with_dash() {
    assert_eq!(storage_key("guide", "Intro"), "guide-Intro");
}

#[test]
fn stale_revision_clears_before_fetch() {
    assert_eq!(plan_load(Some("abc"), "abc", true), vec![LoadOp::ParseCached]);
    assert_eq!(plan_load(Some(" abc\n"), "abc", true), vec![LoadOp::ParseCached]);
    assert_eq!(
        plan_load(Some("abc"), "def ", true),
        vec![LoadOp::ClearStorage, LoadOp::StoreRevision("def".to_string()), LoadOp::FetchManifest]
    );
    assert_eq!(
        plan_load(None, "def", true),
        vec![LoadOp::ClearStorage, LoadOp::StoreRevision("def".to_string()), LoadOp::FetchManifest]
    );
    assert_eq!(
        plan_load(Some("abc"), "abc", false),
        vec![LoadOp::ClearStorage, LoadOp::StoreRevision("abc".to_string()), LoadOp::FetchManifest]
    );
}

#[test]
fn nav_paths_become_route_segments() {
    assert_eq!(path_to_route("/pages/intro"), Some(vec!["pages".to_string(), "intro".to_string()]));
    assert_eq!(path_to_route("a//b/"), Some(vec!["a".to_string(), "b".to_string()]));
    assert_eq!(path_to_route("/"), Some(vec!["pages".to_string(), "home".to_string()]));
    assert_eq!(path_to_route(""), Some(vec!["pages".to_string(), "home".to_string()]));
}

#[test]
fn error_messages() {
    assert_eq!(DataError::PageNotFound.message(), "Page not found");
    assert_eq!(DataError::InvalidStructure.message(), "Invalid data structure");
    assert_eq!(DataError::Network("down".to_string()).message(), "Network error: down");
    assert_eq!(DataError::Json("eof".to_string()).message(), "JSON error: eof");
    assert_eq!(DataError::Storage("full".to_string()).message(), "Storage error: full");
}

#[test]
fn example_manifest_route_is_found_without_slash() {
    let hl = Highlighter::with_defaults();
    let mut db = JsonDb::from_json(&docs_manifest()).unwrap();
    let (section, name, step) = db.load_content("pages/intro", &hl).unwrap();
    assert_eq!((section.as_str(), name.as_str()), ("", "Intro"));
    assert_eq!(step, ContentStep::ReadStore("-Intro".to_string()));
    let (section, name, _) = db.load_content("/pages/intro", &hl).unwrap();
    assert_eq!((section.as_str(), name.as_str()), ("", "Intro"));
    assert_eq!(db.find_page("pages"), None);
}

#[test]
fn normalized_route_adds_one_slash() {
    assert_eq!(normalized_route("pages/intro"), "/pages/intro");
    assert_eq!(normalized_route("/pages/intro"), "/pages/intro");
    assert_eq!(normalized_route(""), "/");
}

#[test]
fn route_with_lowered_name() {
    assert_eq!(route_with("pages", "intro"), "pages/intro");
    assert_eq!(route_with("docs/setup", "setup"), "docs/setup");
    assert_eq!(route_with("", "intro"), "/intro");
}

#[test]
fn download_url_from_lowered_parts() {
    assert_eq!(
        download_url_lowered("guide/intro", "guide/intro", "Guide/intro", "a.md"),
        format!("{}/Guide/intro/a.md", BASE_URL)
    );
    assert_eq!(
        download_url_lowered("", "pages/intro", "pages/intro", "intro.md"),
        format!("{}/pages/intro.md", BASE_URL)
    );
    assert_eq!(download_url("GUIDE", "guide", "x.md"), format!("{}/guide/x.md", BASE_URL));
}

#[test]
fn revision_ignores_unicode_white_space() {
    assert_eq!(plan_load(Some("\u{3000}abc\u{a0}"), "\tabc ", true), vec![LoadOp::ParseCached]);
    assert_eq!(
        plan_load(Some("ab c"), "abc", true),
        vec![LoadOp::ClearStorage, LoadOp::StoreRevision("abc".to_string()), LoadOp::FetchManifest]
    );
}
