use vstd::prelude::*;
use pulldown_cmark::{CodeBlockKind, Event, Parser, Tag, TagEnd};
use crate::db::{base_url, BASE_URL};
use crate::registry::opt_text;
use crate::text::{ends_with_spec, escape_spec, html_escape, starts_with, starts_with_spec, trimmed};
use syntect::parsing::SyntaxReference;

verus! {

#[verifier::external_type_specification]
#[verifier::external_body]
pub struct ExSyntaxSet(syntect::parsing::SyntaxSet);

#[verifier::external_type_specification]
#[verifier::external_body]
pub struct ExTheme(syntect::highlighting::Theme);

#[verifier::external_type_specification]
#[verifier::external_body]
pub struct ExSyntaxReference(syntect::parsing::SyntaxReference);

/// The events that pulldown-cmark's parser yields for a document, as the
/// renderer tells them apart.
pub uninterp spec fn md_events_of(markdown: Seq<char>) -> Seq<MdEventView>;

/// What pulldown-cmark's HTML writer makes of a document's events when they
/// are fed in the order that `plan` gives.
pub uninterp spec fn html_of(markdown: Seq<char>, plan: Seq<EmitView>) -> Seq<char>;

/// One event of a Markdown document, as far as the renderer tells events apart.
#[derive(Debug, Clone, PartialEq)]
pub enum MdEvent {
    /// The start of a fenced code block, with the language token of its fence.
    StartFence(String),
    /// The end of a code block, fenced or indented.
    EndCodeBlock,
    /// A text node.
    Text(String),
    /// The start of an image: its destination and its title.
    StartImage { dest: String, title: String },
    /// The end of an image.
    EndImage,
    /// Any other event.
    Other,
}

pub enum MdEventView {
    StartFence(Seq<char>),
    EndCodeBlock,
    Text(Seq<char>),
    StartImage { dest: Seq<char>, title: Seq<char> },
    EndImage,
    Other,
}

impl MdEvent {
    pub open spec fn view(self) -> MdEventView {
        match self {
            MdEvent::StartFence(l) => MdEventView::StartFence(l@),
            MdEvent::EndCodeBlock => MdEventView::EndCodeBlock,
            MdEvent::Text(t) => MdEventView::Text(t@),
            MdEvent::StartImage { dest, title } => MdEventView::StartImage { dest: dest@, title: title@ },
            MdEvent::EndImage => MdEventView::EndImage,
            MdEvent::Other => MdEventView::Other,
        }
    }
}

pub open spec fn events_view(s: Seq<MdEvent>) -> Seq<MdEventView> {
    s.map_values(|e: MdEvent| e.view())
}

/// One event of the rendered stream: the source event at an index, passed
/// through, or a piece of raw HTML put in its place.
#[derive(Debug, Clone, PartialEq)]
pub enum Emit {
    Pass(usize),
    Html(String),
}

pub enum EmitView {
    Pass(int),
    Html(Seq<char>),
}

impl Emit {
    pub open spec fn view(self) -> EmitView {
        match self {
            Emit::Pass(i) => EmitView::Pass(i as int),
            Emit::Html(s) => EmitView::Html(s@),
        }
    }
}

pub open spec fn emits_view(s: Seq<Emit>) -> Seq<EmitView> {
    s.map_values(|e: Emit| e.view())
}

pub open spec fn texts_view(s: Seq<Option<String>>) -> Seq<Option<Seq<char>>> {
    s.map_values(|o: Option<String>| opt_text(o))
}

pub open spec fn pair_view(p: (String, String)) -> (Seq<char>, Seq<char>) {
    (p.0@, p.1@)
}

pub open spec fn pairs_view(s: Seq<(String, String)>) -> Seq<(Seq<char>, Seq<char>)> {
    s.map_values(|p: (String, String)| pair_view(p))
}

/// Where the renderer stands between two events: inside a fenced code block
/// (with its language and the text gathered so far), how deep inside an
/// image whose events are being dropped, and the code blocks already closed.
pub struct RenderState {
    pub in_code: bool,
    pub lang: Seq<char>,
    pub buf: Seq<char>,
    pub skip: nat,
    pub blocks: Seq<(Seq<char>, Seq<char>)>,
}

pub open spec fn initial_state() -> RenderState {
    RenderState { in_code: false, lang: Seq::empty(), buf: Seq::empty(), skip: 0, blocks: Seq::empty() }
}

/// `p` without its leading `/`, if it has one.
pub open spec fn strip_slash(p: Seq<char>) -> Seq<char> {
    if starts_with_spec(p, "/"@) {
        p.subrange(1, p.len() as int)
    } else {
        p
    }
}

/// The source address of an image: kept when it starts with `http`, else
/// made absolute under the document's route.
pub open spec fn image_src(dest: Seq<char>, doc_path: Seq<char>) -> Seq<char> {
    if starts_with_spec(dest, "http"@) {
        dest
    } else {
        base_url() + "/"@ + strip_slash(doc_path) + "/"@ + dest
    }
}

/// The figure that stands for an image: the escaped source, the escaped title
/// as `alt`, and a caption when the title is not empty.
pub open spec fn figure_spec(src: Seq<char>, title: Seq<char>) -> Seq<char> {
    "<figure><img src=\""@ + escape_spec(src) + "\" alt=\""@ + escape_spec(title) + "\" />"@ + (if title.len()
        > 0 {
        "<figcaption>"@ + escape_spec(title) + "</figcaption>"@
    } else {
        Seq::empty()
    }) + "</figure>"@
}

/// The HTML of the `k`-th code block: its highlighted form when one was
/// given, else its text escaped inside `<pre><code>`.
pub open spec fn block_spec(hl: Seq<Option<Seq<char>>>, k: int, code: Seq<char>) -> Seq<char> {
    if 0 <= k < hl.len() && hl[k] is Some {
        hl[k]->0
    } else {
        "<pre><code>"@ + escape_spec(code) + "</code></pre>"@
    }
}

/// What the renderer does with event `e`, found at index `i`.
pub open spec fn step(
    st: RenderState,
    i: int,
    e: MdEvent,
    doc_path: Seq<char>,
    hl: Seq<Option<Seq<char>>>,
) -> (RenderState, Seq<EmitView>) {
    if st.skip > 0 {
        match e {
            MdEvent::StartImage { .. } => (RenderState { skip: st.skip + 1, ..st }, Seq::empty()),
            MdEvent::EndImage => (RenderState { skip: (st.skip - 1) as nat, ..st }, Seq::empty()),
            _ => (st, Seq::empty()),
        }
    } else if st.in_code {
        match e {
            MdEvent::Text(t) => (RenderState { buf: st.buf + t@, ..st }, Seq::empty()),
            MdEvent::EndCodeBlock => (
                RenderState {
                    in_code: false,
                    lang: Seq::empty(),
                    buf: Seq::empty(),
                    skip: 0,
                    blocks: st.blocks.push((st.lang, st.buf)),
                },
                seq![EmitView::Html(block_spec(hl, st.blocks.len() as int, st.buf))],
            ),
            _ => (st, seq![EmitView::Pass(i)]),
        }
    } else {
        match e {
            MdEvent::StartFence(l) => (
                RenderState { in_code: true, lang: l@, buf: Seq::empty(), ..st },
                Seq::empty(),
            ),
            MdEvent::StartImage { dest, title } => (
                RenderState { skip: 1, ..st },
                seq![EmitView::Html(figure_spec(image_src(dest@, doc_path), title@))],
            ),
            _ => (st, seq![EmitView::Pass(i)]),
        }
    }
}

/// The renderer run over a whole event stream: the state it ends in, and the
/// rendered stream.
pub open spec fn run(events: Seq<MdEvent>, doc_path: Seq<char>, hl: Seq<Option<Seq<char>>>) -> (
    RenderState,
    Seq<EmitView>,
)
    decreases events.len(),
{
    if events.len() == 0 {
        (initial_state(), Seq::empty())
    } else {
        let prev = run(events.drop_last(), doc_path, hl);
        let next = step(prev.0, events.len() - 1, events.last(), doc_path, hl);
        (next.0, prev.1 + next.1)
    }
}

/// The fenced code blocks of an event stream, as (language, text) pairs, in order.
pub open spec fn blocks_spec(events: Seq<MdEvent>) -> Seq<(Seq<char>, Seq<char>)> {
    run(events, Seq::empty(), Seq::empty()).0.blocks
}

/// Whether `h` has the shape of syntect's highlighted HTML: a `<pre>` element
/// with the theme's background color, closed by `</pre>` and a newline.
pub open spec fn highlight_shaped(h: Seq<char>) -> bool {
    starts_with_spec(h, "<pre style=\"background-color:#"@) && ends_with_spec(h, "</pre>\n"@)
}

/// Whether `html` is a rendering of the Markdown document `md` whose route is
/// `path`: the HTML writer's output for the rewritten event stream, where
/// each fenced code block is either highlighted (HTML of syntect's shape) or
/// escaped.
pub open spec fn rendered(md: Seq<char>, path: Seq<char>, html: Seq<char>) -> bool {
    exists|events: Seq<MdEvent>, hl: Seq<Option<Seq<char>>>|
        {
            &&& events_view(events) == md_events_of(md)
            &&& hl.len() == blocks_spec(events).len()
            &&& forall|k: int| 0 <= k < hl.len() && (#[trigger] hl[k]) is Some ==> highlight_shaped(hl[k]->0)
            &&& html == html_of(md, #[trigger] run(events, path, hl).1)
        }
}

/// The figure for an image with destination `dest` and title `title` in the
/// document whose route is `doc_path`.
pub fn figure_html(dest: &str, title: &str, doc_path: &str) -> (r: String)
    ensures
        r@ == figure_spec(image_src(dest@, doc_path@), title@),
{
    let src = if starts_with(dest, "http") {
        String::from_str(dest)
    } else {
        let n = doc_path.unicode_len();
        let rel = if starts_with(doc_path, "/") {
            proof {
                reveal_strlit("/");
            }
            doc_path.substring_char(1, n)
        } else {
            doc_path
        };
        String::from_str(BASE_URL).concat("/").concat(rel).concat("/").concat(dest)
    };
    let esc_src = html_escape(src.as_str());
    let esc_title = html_escape(title);
    let mut html = String::from_str("<figure><img src=\"").concat(esc_src.as_str()).concat(
        "\" alt=\"",
    ).concat(esc_title.as_str()).concat("\" />");
    if title.unicode_len() > 0 {
        html = html.concat("<figcaption>").concat(esc_title.as_str()).concat("</figcaption>");
    }
    html = html.concat("</figure>");
    assert(html@ =~= figure_spec(src@, title@));
    html
}

/// The HTML of the `k`-th code block; see `block_spec`.
pub fn block_html(highlighted: &Vec<Option<String>>, k: usize, code: &str) -> (r: String)
    ensures
        r@ == block_spec(texts_view(highlighted@), k as int, code@),
{
    if k < highlighted.len() {
        if let Some(h) = &highlighted[k] {
            return h.clone();
        }
    }
    String::from_str("<pre><code>").concat(html_escape(code).as_str()).concat("</code></pre>")
}

/// Rewrites an event stream: the text of each fenced code block is gathered
/// and replaced by one piece of HTML (the `k`-th block by `highlighted[k]` when
/// that is present, else by its escaped text); each image, with everything
/// inside it, is replaced by a figure; every other event passes through.
/// Also returns the fenced blocks as (language, text) pairs.
pub fn rewrite_events(
    events: &Vec<MdEvent>,
    doc_path: &str,
    highlighted: &Vec<Option<String>>,
) -> (r: (Vec<Emit>, Vec<(String, String)>))
    ensures
        emits_view(r.0@) == run(events@, doc_path@, texts_view(highlighted@)).1,
        pairs_view(r.1@) == run(events@, doc_path@, texts_view(highlighted@)).0.blocks,
        forall|j: int|
            0 <= j < r.0.len() && (#[trigger] r.0@[j]) is Pass ==> r.0@[j]->Pass_0 < events.len(),
{
    let ghost hl = texts_view(highlighted@);
    let mut out: Vec<Emit> = Vec::new();
    let mut blocks: Vec<(String, String)> = Vec::new();
    let mut in_code = false;
    let mut lang = String::new();
    let mut buf = String::new();
    let mut skip: usize = 0;
    let mut i: usize = 0;
    assert(events@.subrange(0, 0) =~= Seq::<MdEvent>::empty());
    assert(emits_view(out@) =~= Seq::<EmitView>::empty());
    assert(pairs_view(blocks@) =~= Seq::<(Seq<char>, Seq<char>)>::empty());
    while i < events.len()
        invariant
            i <= events.len(),
            skip <= i,
            hl == texts_view(highlighted@),
            run(events@.subrange(0, i as int), doc_path@, hl).0 == (RenderState {
                in_code,
                lang: lang@,
                buf: buf@,
                skip: skip as nat,
                blocks: pairs_view(blocks@),
            }),
            run(events@.subrange(0, i as int), doc_path@, hl).1 == emits_view(out@),
            forall|j: int| 0 <= j < out.len() && (#[trigger] out@[j]) is Pass ==> out@[j]->Pass_0 < i,
        decreases events.len() - i,
    {
        let ghost pre = events@.subrange(0, i as int);
        let ghost out0 = out@;
        let ghost blocks0 = blocks@;
        assert(events@.subrange(0, i + 1).drop_last() =~= pre);
        let e = &events[i];
        if skip > 0 {
            match e {
                MdEvent::StartImage { .. } => {
                    skip = skip + 1;
                },
                MdEvent::EndImage => {
                    skip = skip - 1;
                },
                _ => {},
            }
            assert(emits_view(out@) =~= emits_view(out0) + Seq::<EmitView>::empty());
        } else if in_code {
            match e {
                MdEvent::Text(t) => {
                    buf.append(t.as_str());
                    assert(emits_view(out@) =~= emits_view(out0) + Seq::<EmitView>::empty());
                },
                MdEvent::EndCodeBlock => {
                    let html = block_html(highlighted, blocks.len(), buf.as_str());
                    out.push(Emit::Html(html));
                    blocks.push((lang, buf));
                    lang = String::new();
                    buf = String::new();
                    in_code = false;
                    assert(pairs_view(blocks@) =~= pairs_view(blocks0).push(pair_view(blocks@.last())));
                    assert(emits_view(out@) =~= emits_view(out0) + seq![out@.last().view()]);
                },
                _ => {
                    out.push(Emit::Pass(i));
                    assert(emits_view(out@) =~= emits_view(out0) + seq![out@.last().view()]);
                },
            }
        } else {
            match e {
                MdEvent::StartFence(l) => {
                    in_code = true;
                    lang = l.clone();
                    buf = String::new();
                    assert(emits_view(out@) =~= emits_view(out0) + Seq::<EmitView>::empty());
                },
                MdEvent::StartImage { dest, title } => {
                    out.push(Emit::Html(figure_html(dest.as_str(), title.as_str(), doc_path)));
                    skip = 1;
                    assert(emits_view(out@) =~= emits_view(out0) + seq![out@.last().view()]);
                },
                _ => {
                    out.push(Emit::Pass(i));
                    assert(emits_view(out@) =~= emits_view(out0) + seq![out@.last().view()]);
                },
            }
        }
        i = i + 1;
    }
    assert(events@.subrange(0, events.len() as int) =~= events@);
    (out, blocks)
}

/// The fenced code blocks of an event stream, as (language, text) pairs.
pub fn code_blocks(events: &Vec<MdEvent>) -> (r: Vec<(String, String)>)
    ensures
        pairs_view(r@) == blocks_spec(events@),
{
    let none: Vec<Option<String>> = Vec::new();
    proof {
        reveal_strlit("");
        assert(""@ =~= Seq::<char>::empty());
        assert(texts_view(none@) =~= Seq::<Option<Seq<char>>>::empty());
    }
    let (_, blocks) = rewrite_events(events, "", &none);
    blocks
}

/// The syntax definitions and the color theme that code blocks are highlighted with.
pub struct Highlighter {
    syntaxes: syntect::parsing::SyntaxSet,
    theme: syntect::highlighting::Theme,
}

/// Relies on `syntect::parsing::SyntaxSet::load_defaults_newlines`: the syntaxes bundled with syntect.
#[verifier::external_body]
fn default_syntaxes() -> syntect::parsing::SyntaxSet {
    syntect::parsing::SyntaxSet::load_defaults_newlines()
}

/// Relies on `syntect::highlighting::ThemeSet::load_defaults`, which bundles `base16-ocean.dark`.
#[verifier::external_body]
fn default_theme() -> syntect::highlighting::Theme {
    syntect::highlighting::ThemeSet::load_defaults().themes["base16-ocean.dark"].clone()
}

impl Highlighter {
    /// Highlights with these syntaxes and this theme.
    pub fn new(syntaxes: syntect::parsing::SyntaxSet, theme: syntect::highlighting::Theme) -> (r: Highlighter) {
        Highlighter { syntaxes, theme }
    }

    /// syntect's bundled syntaxes with the `base16-ocean.dark` theme.
    pub fn with_defaults() -> (r: Highlighter) {
        Highlighter { syntaxes: default_syntaxes(), theme: default_theme() }
    }
}

/// Relies on `syntect::parsing::SyntaxSet::find_syntax_by_token`: the syntax
/// whose name or file extension is `token`, if one is loaded.
#[verifier::external_body]
fn syntax_by_token<'a>(h: &'a Highlighter, token: &str) -> (r: Option<&'a SyntaxReference>) {
    h.syntaxes.find_syntax_by_token(token)
}

/// Relies on `syntect::parsing::SyntaxSet::find_syntax_by_name`: the plain-text
/// syntax, if one is loaded.
#[verifier::external_body]
fn plain_text_syntax<'a>(h: &'a Highlighter) -> (r: Option<&'a SyntaxReference>) {
    h.syntaxes.find_syntax_by_name("Plain Text")
}

/// Relies on `syntect::html::highlighted_html_for_string`: the code rendered
/// as HTML with the theme's colors, inside a `<pre>` element that opens with
/// the theme's background color and is followed by a newline; `None` when
/// that fails.
#[verifier::external_body]
fn highlighted_html(h: &Highlighter, code: &str, syntax: &SyntaxReference) -> (r: Option<String>)
    ensures
        r matches Some(x) ==> highlight_shaped(x@),
{
    syntect::html::highlighted_html_for_string(code, &h.syntaxes, syntax, &h.theme).ok()
}

/// Highlights `code` with the syntax that the fence's language token names,
/// or with the plain-text syntax when the token names none; `None` when no
/// syntax applies or highlighting fails.
fn highlight(h: &Highlighter, code: &str, lang: &str) -> (r: Option<String>)
    ensures
        r matches Some(x) ==> highlight_shaped(x@),
{
    let token = trimmed(lang);
    let syntax = match syntax_by_token(h, token.as_str()) {
        Some(sr) => sr,
        None => match plain_text_syntax(h) {
            Some(sr) => sr,
            None => {
                return None;
            },
        },
    };
    highlighted_html(h, code, syntax)
}

/// Relies on `pulldown_cmark::Parser`: one event here for each event it
/// yields, of the same kind and with the same text.
#[verifier::external_body]
fn md_events(markdown: &str) -> (r: Vec<MdEvent>)
    ensures
        events_view(r@) == md_events_of(markdown@),
{
    let mut out = Vec::new();
    for e in Parser::new(markdown) {
        out.push(match e {
            Event::Start(Tag::CodeBlock(CodeBlockKind::Fenced(l))) => MdEvent::StartFence(l.to_string()),
            Event::End(TagEnd::CodeBlock) => MdEvent::EndCodeBlock,
            Event::Text(t) => MdEvent::Text(t.to_string()),
            Event::Start(Tag::Image { dest_url: d, title: t, .. }) => MdEvent::StartImage { dest: d.to_string(), title: t.to_string() },
            Event::End(TagEnd::Image) => MdEvent::EndImage,
            _ => MdEvent::Other,
        });
    }
    out
}

/// Relies on `pulldown_cmark::html::push_html`, fed the parser's events as
/// `plan` orders them (`Pass(i)` is the parser's `i`-th event) and each `Html`
/// as a raw-HTML event.
#[verifier::external_body]
fn push_html(markdown: &str, plan: &Vec<Emit>) -> (r: String)
    requires
        forall|j: int| 0 <= j < plan.len() && (#[trigger] plan@[j]) is Pass ==> plan@[j]->Pass_0 < md_events_of(markdown@).len(),
    ensures
        r@ == html_of(markdown@, emits_view(plan@)),
{
    let src: Vec<Event> = Parser::new(markdown).collect();
    let mut html = String::new();
    pulldown_cmark::html::push_html(&mut html, plan.iter().map(|p| match p {
        Emit::Pass(i) => src[*i].clone(),
        Emit::Html(h) => Event::Html(h.clone().into()),
    }));
    html
}

/// Renders a Markdown document whose route is `path` to HTML: fenced code
/// blocks are highlighted with `hl` (or escaped when that fails) and images
/// become figures with absolute sources; see `rewrite_events`. Which
/// highlighting each block gets depends on the syntaxes that `hl` holds.
pub fn markdown_to_html(markdown: &str, path: &str, hl: &Highlighter) -> (r: String)
    ensures
        rendered(markdown@, path@, r@),
{
    let events = md_events(markdown);
    assert(events_view(events@).len() == events@.len());
    let blocks = code_blocks(&events);
    let mut highlighted: Vec<Option<String>> = Vec::new();
    let mut k: usize = 0;
    while k < blocks.len()
        invariant
            k <= blocks.len(),
            highlighted.len() == k,
            forall|j: int|
                0 <= j < k && (#[trigger] highlighted@[j]) is Some ==> highlight_shaped(
                    highlighted@[j]->0@,
                ),
        decreases blocks.len() - k,
    {
        highlighted.push(highlight(hl, blocks[k].1.as_str(), blocks[k].0.as_str()));
        k = k + 1;
    }
    let (plan, _) = rewrite_events(&events, path, &highlighted);
    let html = push_html(markdown, &plan);
    proof {
        let hv = texts_view(highlighted@);
        assert(pairs_view(blocks@).len() == blocks@.len());
        assert(hv.len() == highlighted@.len());
        assert forall|j: int| 0 <= j < hv.len() && (#[trigger] hv[j]) is Some implies highlight_shaped(hv[j]->0) by {
            assert(highlighted@[j] is Some);
        }
        assert(html@ == html_of(markdown@, run(events@, path@, hv).1));
    }
    html
}

} // verus!
