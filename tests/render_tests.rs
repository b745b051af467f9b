use blogy::{code_blocks, html_escape, markdown_to_html, rewrite_events, Emit, Highlighter, MdEvent, BASE_URL};

fn t(x: &str) -> String {
    x.to_string()
}

#[test]
fn escapes_the_four_characters() {
    assert_eq!(html_escape("<script>&\""), "&lt;script&gt;&amp;&quot;");
    assert_eq!(html_escape("a &amp; b"), "a &amp;amp; b");
    assert_eq!(html_escape(""), "");
    assert_eq!(html_escape("plain"), "plain");
}

#[test]
fn title_is_escaped_in_alt_and_caption() {
    let hl = Highlighter::with_defaults();
    let html = markdown_to_html("![x](http://e.com/a.png '<script>&\"')", "/p", &hl);
    assert!(html.contains("alt=\"&lt;script&gt;&amp;&quot;\""));
    assert!(html.contains("<figcaption>&lt;script&gt;&amp;&quot;</figcaption>"));
}

#[test]
fn absolute_image_is_kept() {
    let hl = Highlighter::with_defaults();
    let html = markdown_to_html("![pic](https://e.com/a.png)", "/pages/intro", &hl);
    assert!(html.contains("<figure><img src=\"https://e.com/a.png\" alt=\"\" /></figure>"));
    assert!(!html.contains("figcaption"));
}

#[test]
fn relative_image_is_made_absolute() {
    let hl = Highlighter::with_defaults();
    let html = markdown_to_html("![pic](foo.png)", "/pages/intro", &hl);
    let want = format!("<img src=\"{}/pages/intro/foo.png\"", BASE_URL);
    assert!(html.contains(&want));
    // the image's own alt text is dropped with the rest of its events
    assert!(!html.contains("pic"));
}

#[test]
fn unknown_language_still_renders() {
    let hl = Highlighter::with_defaults();
    let html = markdown_to_html("```nosuchlang\nlet x = 1;\n```\n", "/p", &hl);
    assert!(html.contains("let x = 1;"));
    assert!(html.contains("<pre"));
    assert!(!html.contains("```"));
}

#[test]
fn known_language_is_highlighted() {
    let hl = Highlighter::with_defaults();
    let html = markdown_to_html("```rust\nfn main() {}\n```\n", "/p", &hl);
    assert!(html.contains("<span style="));
    assert!(html.contains("main"));
}

#[test]
fn rewrite_replaces_image_and_code() {
    let events = vec![
        MdEvent::Other,
        MdEvent::StartImage { dest: t("foo.png"), title: t("") },
        MdEvent::Text(t("alt")),
        MdEvent::EndImage,
        MdEvent::StartFence(t("rust")),
        MdEvent::Text(t("a<b")),
        MdEvent::Text(t("\n")),
        MdEvent::EndCodeBlock,
        MdEvent::Text(t("after")),
        MdEvent::StartFence(t("py")),
        MdEvent::Text(t("x")),
        MdEvent::EndCodeBlock,
    ];
    let highlighted = vec![None, Some(t("<pre>hl</pre>"))];
    let (out, blocks) = rewrite_events(&events, "/pages/intro", &highlighted);
    assert_eq!(
        out,
        vec![
            Emit::Pass(0),
            Emit::Html(format!("<figure><img src=\"{}/pages/intro/foo.png\" alt=\"\" /></figure>", BASE_URL)),
            Emit::Html(t("<pre><code>a&lt;b\n</code></pre>")),
            Emit::Pass(8),
            Emit::Html(t("<pre>hl</pre>")),
        ]
    );
    assert_eq!(blocks, vec![(t("rust"), t("a<b\n")), (t("py"), t("x"))]);
    assert_eq!(code_blocks(&events), blocks);
}

#[test]
fn image_with_title_gets_caption() {
    let events = vec![MdEvent::StartImage { dest: t("http://x/y.png"), title: t("A & B") }, MdEvent::EndImage];
    let (out, _) = rewrite_events(&events, "p", &vec![]);
    assert_eq!(
        out,
        vec![Emit::Html(t(
            "<figure><img src=\"http://x/y.png\" alt=\"A &amp; B\" /><figcaption>A &amp; B</figcaption></figure>"
        ))]
    );
}

#[test]
fn each_block_falls_back_to_plain_text_on_its_own() {
    let hl = Highlighter::with_defaults();
    let both = markdown_to_html("```rust\nfn f() {}\n```\n\n```nosuchlang\nfn f() {}\n```\n", "/p", &hl);
    let alone = markdown_to_html("```nosuchlang\nfn f() {}\n```\n", "/p", &hl);
    let plain = markdown_to_html("```\nfn f() {}\n```\n", "/p", &hl);
    assert!(both.ends_with(&alone));
    assert!(alone.starts_with("<pre style=\"background-color:#"));
    assert!(alone.ends_with("</pre>\n"));
    assert_ne!(&both[..both.len() - alone.len()], alone.as_str());
    assert!(plain.contains("fn f() {}"));
}

#[test]
fn rendering_is_repeatable() {
    let hl = Highlighter::with_defaults();
    let md = "# T\n\n```rust\nlet x = 1 < 2;\n```\n\n![i](a.png \"cap\")\n";
    assert_eq!(markdown_to_html(md, "/p", &hl), markdown_to_html(md, "/p", &hl));
}

#[test]
fn unknown_language_escapes_text() {
    let hl = Highlighter::with_defaults();
    let html = markdown_to_html("```nosuchlang\nlet x = 1 < 2;\n```\n", "/p", &hl);
    assert!(html.contains("&lt;"));
    assert!(!html.contains("1 < 2"));
}
