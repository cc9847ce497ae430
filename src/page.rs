//! Extraction of a fetched page's metadata, text and outbound links.
use vstd::prelude::*;
use crate::text::{same_text, trim, trimmed};
use crate::urls::{followed_link, follow_link, text_opt};

verus! {

/// The host suffix that links must carry unless a caller names another.
pub const DEFAULT_ALLOWED_DOMAIN: &'static str = "wikipedia.org";

/// A `<meta name=… content=…>` pair.
#[derive(Clone, Debug)]
pub struct MetaTag {
    pub name: String,
    pub content: String,
}

/// What the crawler records of a fetched page.
#[derive(Clone, Debug)]
pub struct ParsedHtml {
    /// The URL the page was requested at, as requested.
    pub url: String,
    pub language: Option<String>,
    pub title: Option<String>,
    pub meta_tags: Vec<MetaTag>,
    /// The raw `href` of the page's canonical link.
    pub canonical_url: Option<String>,
    /// The page's body text, each trimmed piece separated by one space.
    pub content_text: String,
    /// Outbound links, normalised and accepted by the link filter.
    pub links: Vec<String>,
}

pub struct ParsedHtmlView {
    pub url: Seq<char>,
    pub language: Option<Seq<char>>,
    pub title: Option<Seq<char>>,
    pub meta_tags: Seq<(Seq<char>, Seq<char>)>,
    pub canonical_url: Option<Seq<char>>,
    pub content_text: Seq<char>,
    pub links: Seq<Seq<char>>,
}

pub open spec fn texts_view(v: Seq<String>) -> Seq<Seq<char>> {
    v.map_values(|s: String| s@)
}

pub open spec fn metas_view(v: Seq<MetaTag>) -> Seq<(Seq<char>, Seq<char>)> {
    v.map_values(|m: MetaTag| (m.name@, m.content@))
}

impl View for ParsedHtml {
    type V = ParsedHtmlView;

    open spec fn view(&self) -> ParsedHtmlView {
        ParsedHtmlView {
            url: self.url@,
            language: text_opt(self.language),
            title: text_opt(self.title),
            meta_tags: metas_view(self.meta_tags@),
            canonical_url: text_opt(self.canonical_url),
            content_text: self.content_text@,
            links: texts_view(self.links@),
        }
    }
}

/// The name of the values of attribute `attr` on the elements of `html` that
/// `selector` matches, in document order.
pub uninterp spec fn selected_attribute(html: Seq<char>, selector: Seq<char>, attr: Seq<char>) -> Seq<
    Seq<char>,
>;

/// The name of the values of attributes `first` and `second` on the elements
/// of `html` that `selector` matches and that carry both, in document order.
pub uninterp spec fn selected_attribute_pairs(
    html: Seq<char>,
    selector: Seq<char>,
    first: Seq<char>,
    second: Seq<char>,
) -> Seq<(Seq<char>, Seq<char>)>;

/// The name of what `html` holds inside the elements that `selector`
/// matches, in document order: `None` where such an element starts, and each
/// text chunk inside one with whether it ends its text node.
pub uninterp spec fn selected_content(html: Seq<char>, selector: Seq<char>) -> Seq<
    Option<(Seq<char>, bool)>,
>;

pub open spec fn events_view(v: Seq<Option<(String, bool)>>) -> Seq<Option<(Seq<char>, bool)>> {
    v.map_values(
        |e: Option<(String, bool)>|
            match e {
                Some(c) => Some((c.0@, c.1)),
                None => None,
            },
    )
}

/// Relies on `lol_html::rewrite_str` with one element handler that reads
/// `Element::get_attribute`; a selector that does not parse matches nothing.
#[verifier::external_body]
fn attribute_values(html: &str, selector: &str, attr: &str) -> (r: Vec<String>)
    ensures
        texts_view(r@) == selected_attribute(html@, selector@, attr@),
{
    let mut found: Vec<String> = Vec::new();
    if let Ok(sel) = selector.parse::<lol_html::Selector>() {
        let on_element = |el: &mut lol_html::html_content::Element| {
            found.extend(el.get_attribute(attr));
            Ok(())
        };
        let handlers = lol_html::ElementContentHandlers::default().element(on_element);
        let settings = lol_html::RewriteStrSettings {
            element_content_handlers: vec![(std::borrow::Cow::Owned(sel), handlers)],
            ..lol_html::RewriteStrSettings::new()
        };
        let _ = lol_html::rewrite_str(html, settings);
    }
    found
}

/// Relies on `lol_html::rewrite_str` with one element handler that reads two
/// attributes through `Element::get_attribute`.
#[verifier::external_body]
fn attribute_pairs(html: &str, selector: &str, first: &str, second: &str) -> (r: Vec<
    (String, String),
>)
    ensures
        r@.map_values(|p: (String, String)| (p.0@, p.1@)) == selected_attribute_pairs(
            html@,
            selector@,
            first@,
            second@,
        ),
{
    let mut found: Vec<(String, String)> = Vec::new();
    if let Ok(sel) = selector.parse::<lol_html::Selector>() {
        let on_element = |el: &mut lol_html::html_content::Element| {
            found.extend(el.get_attribute(first).zip(el.get_attribute(second)));
            Ok(())
        };
        let handlers = lol_html::ElementContentHandlers::default().element(on_element);
        let settings = lol_html::RewriteStrSettings {
            element_content_handlers: vec![(std::borrow::Cow::Owned(sel), handlers)],
            ..lol_html::RewriteStrSettings::new()
        };
        let _ = lol_html::rewrite_str(html, settings);
    }
    found
}

/// Relies on `lol_html::rewrite_str` with an element handler that marks
/// each matched element's start and a text handler that reads
/// `TextChunk::as_str` and `TextChunk::last_in_text_node`.
#[verifier::external_body]
fn content_events(html: &str, selector: &str) -> (r: Vec<Option<(String, bool)>>)
    ensures
        events_view(r@) == selected_content(html@, selector@),
{
    let events = std::cell::RefCell::new(Vec::new());
    if let Ok(sel) = selector.parse::<lol_html::Selector>() {
        let handlers = lol_html::ElementContentHandlers::default()
            .element(|_: &mut lol_html::html_content::Element| Ok(events.borrow_mut().push(None)))
            .text(|t: &mut lol_html::html_content::TextChunk| {
                Ok(events.borrow_mut().push(Some((t.as_str().to_string(), t.last_in_text_node()))))
            });
        let settings = lol_html::RewriteStrSettings {
            element_content_handlers: vec![(std::borrow::Cow::Owned(sel), handlers)],
            ..lol_html::RewriteStrSettings::new()
        };
        let _ = lol_html::rewrite_str(html, settings);
    }
    events.into_inner()
}

/// The text chunks before the next element start, joined.
pub open spec fn text_until_start(ev: Seq<Option<(Seq<char>, bool)>>) -> Seq<char>
    decreases ev.len(),
{
    if ev.len() == 0 {
        Seq::empty()
    } else {
        match ev[0] {
            None => Seq::empty(),
            Some(c) => c.0 + text_until_start(ev.drop_first()),
        }
    }
}

/// The text of the first element that starts in `ev`, or `None` when none does.
pub open spec fn first_element_text(ev: Seq<Option<(Seq<char>, bool)>>) -> Option<Seq<char>>
    decreases ev.len(),
{
    if ev.len() == 0 {
        None
    } else {
        match ev[0] {
            None => Some(text_until_start(ev.drop_first())),
            Some(_) => first_element_text(ev.drop_first()),
        }
    }
}

/// The text nodes that the chunks of `ev` make, and the node still open at
/// the end.
pub open spec fn split_nodes(ev: Seq<Option<(Seq<char>, bool)>>) -> (Seq<Seq<char>>, Seq<char>)
    decreases ev.len(),
{
    if ev.len() == 0 {
        (Seq::empty(), Seq::empty())
    } else {
        let (done, open) = split_nodes(ev.drop_last());
        match ev.last() {
            None => (done, open),
            Some(c) => if c.1 {
                (done.push(open + c.0), Seq::empty())
            } else {
                (done, open + c.0)
            },
        }
    }
}

/// The text nodes of `ev`, each joined from its chunks, a node left open at
/// the end included.
pub open spec fn text_nodes(ev: Seq<Option<(Seq<char>, bool)>>) -> Seq<Seq<char>> {
    split_nodes(ev).0.push(split_nodes(ev).1)
}

/// The trimmed texts that are not empty, separated by single spaces.
pub open spec fn body_text(cs: Seq<Seq<char>>) -> Seq<char>
    decreases cs.len(),
{
    if cs.len() == 0 {
        Seq::empty()
    } else {
        let prev = body_text(cs.drop_last());
        let t = trim(cs.last());
        if t.len() == 0 {
            prev
        } else if prev.len() == 0 {
            t
        } else {
            prev + " "@ + t
        }
    }
}

/// The links that a page at `base` with anchors `hrefs` contributes, in order.
pub open spec fn links_of(base: Seq<char>, hrefs: Seq<Seq<char>>, allowed_suffix: Seq<char>) -> Seq<
    Seq<char>,
>
    decreases hrefs.len(),
{
    if hrefs.len() == 0 {
        Seq::empty()
    } else {
        let prev = links_of(base, hrefs.drop_last(), allowed_suffix);
        match followed_link(base, hrefs.last(), allowed_suffix) {
            Some(l) => prev.push(l),
            None => prev,
        }
    }
}

pub open spec fn first_of(s: Seq<Seq<char>>) -> Option<Seq<char>> {
    if s.len() == 0 {
        None
    } else {
        Some(s[0])
    }
}

pub open spec fn last_of(s: Seq<Seq<char>>) -> Option<Seq<char>> {
    if s.len() == 0 {
        None
    } else {
        Some(s.last())
    }
}

/// The page record that `html`, fetched from `base`, yields.
pub open spec fn page_of(html: Seq<char>, base: Seq<char>, allowed_suffix: Seq<char>) -> ParsedHtmlView {
    ParsedHtmlView {
        url: base,
        language: first_of(selected_attribute(html, "html[lang]"@, "lang"@)),
        title: first_element_text(selected_content(html, "title"@)),
        meta_tags: selected_attribute_pairs(html, "meta[name][content]"@, "name"@, "content"@),
        canonical_url: last_of(selected_attribute(html, "link[rel=canonical]"@, "href"@)),
        content_text: body_text(text_nodes(selected_content(html, "body"@))),
        links: links_of(base, selected_attribute(html, "a[href]"@, "href"@), allowed_suffix),
    }
}

proof fn lemma_events_skip(v: Seq<Option<(String, bool)>>, i: int)
    requires
        0 <= i < v.len(),
    ensures
        events_view(v).skip(i)[0] == events_view(v)[i],
        events_view(v).skip(i).drop_first() == events_view(v).skip(i + 1),
        events_view(v).skip(i).len() > 0,
{
    assert(events_view(v).skip(i).drop_first() =~= events_view(v).skip(i + 1));
}

fn text_until_start_from(ev: &Vec<Option<(String, bool)>>, i: usize) -> (r: String)
    requires
        i <= ev@.len(),
    ensures
        r@ == text_until_start(events_view(ev@).skip(i as int)),
    decreases ev@.len() - i,
{
    if i == ev.len() {
        assert(events_view(ev@).skip(i as int) =~= Seq::<Option<(Seq<char>, bool)>>::empty());
        return String::new();
    }
    proof {
        lemma_events_skip(ev@, i as int);
    }
    match &ev[i] {
        None => String::new(),
        Some(c) => {
            let rest = text_until_start_from(ev, i + 1);
            let mut out = c.0.clone();
            out.append(rest.as_str());
            out
        },
    }
}

fn first_element_text_from(ev: &Vec<Option<(String, bool)>>, i: usize) -> (r: Option<String>)
    requires
        i <= ev@.len(),
    ensures
        text_opt(r) == first_element_text(events_view(ev@).skip(i as int)),
    decreases ev@.len() - i,
{
    if i == ev.len() {
        assert(events_view(ev@).skip(i as int) =~= Seq::<Option<(Seq<char>, bool)>>::empty());
        return None;
    }
    proof {
        lemma_events_skip(ev@, i as int);
    }
    match &ev[i] {
        None => Some(text_until_start_from(ev, i + 1)),
        Some(_) => first_element_text_from(ev, i + 1),
    }
}

/// The text of the first element that starts among `events`: its chunks up
/// to the next element start, joined; `None` when no element starts.
pub fn first_element_text_of(events: &Vec<Option<(String, bool)>>) -> (r: Option<String>)
    ensures
        text_opt(r) == first_element_text(events_view(events@)),
{
    assert(events_view(events@).skip(0) =~= events_view(events@));
    first_element_text_from(events, 0)
}

/// The text nodes that the chunks among `events` make, each joined from its
/// chunks; the last entry is the node still open at the end (empty if none).
pub fn text_nodes_of(events: &Vec<Option<(String, bool)>>) -> (r: Vec<String>)
    ensures
        texts_view(r@) == text_nodes(events_view(events@)),
{
    let mut done: Vec<String> = Vec::new();
    let mut open = String::new();
    let mut i: usize = 0;
    while i < events.len()
        invariant
            i <= events@.len(),
            (texts_view(done@), open@) == split_nodes(events_view(events@.take(i as int))),
        decreases events@.len() - i,
    {
        proof {
            assert(events_view(events@.take(i + 1)).drop_last() =~= events_view(events@.take(i as int)));
            assert(events_view(events@.take(i + 1)).last() == events_view(events@)[i as int]);
        }
        match &events[i] {
            None => {},
            Some(c) => {
                open.append(c.0.as_str());
                if c.1 {
                    let ghost before = done@;
                    let mut node = String::new();
                    std::mem::swap(&mut node, &mut open);
                    done.push(node);
                    assert(texts_view(done@) =~= texts_view(before).push(node@));
                }
            },
        }
        i = i + 1;
    }
    assert(events@.take(i as int) =~= events@);
    let ghost before = done@;
    done.push(open);
    assert(texts_view(done@) =~= texts_view(before).push(open@));
    done
}

/// The body text: each text node trimmed, the empty ones left out, the
/// rest separated by single spaces.
pub fn collect_body_text(chunks: &Vec<String>) -> (r: String)
    ensures
        r@ == body_text(texts_view(chunks@)),
{
    let mut out = String::new();
    let mut i: usize = 0;
    while i < chunks.len()
        invariant
            i <= chunks@.len(),
            out@ == body_text(texts_view(chunks@.take(i as int))),
        decreases chunks@.len() - i,
    {
        assert(texts_view(chunks@.take(i + 1)).drop_last() =~= texts_view(chunks@.take(i as int)));
        let t = trimmed(chunks[i].as_str());
        if !t.as_str().is_empty() {
            if !out.as_str().is_empty() {
                out.append(" ");
            }
            out.append(t.as_str());
        }
        i = i + 1;
    }
    assert(chunks@.take(i as int) =~= chunks@);
    out
}

/// The accepted, normalised links of anchors `hrefs` on the page at `base`.
pub fn collect_links(base: &str, hrefs: &Vec<String>, allowed_suffix: &str) -> (r: Vec<String>)
    ensures
        texts_view(r@) == links_of(base@, texts_view(hrefs@), allowed_suffix@),
{
    let mut out: Vec<String> = Vec::new();
    let mut i: usize = 0;
    while i < hrefs.len()
        invariant
            i <= hrefs@.len(),
            texts_view(out@) == links_of(base@, texts_view(hrefs@.take(i as int)), allowed_suffix@),
        decreases hrefs@.len() - i,
    {
        assert(texts_view(hrefs@.take(i + 1)).drop_last() =~= texts_view(hrefs@.take(i as int)));
        match follow_link(base, hrefs[i].as_str(), allowed_suffix) {
            Some(l) => {
                let ghost before = out@;
                out.push(l);
                assert(texts_view(out@) =~= texts_view(before).push(l@));
            },
            None => {},
        }
        i = i + 1;
    }
    assert(hrefs@.take(i as int) =~= hrefs@);
    out
}

fn meta_tags_of(pairs: Vec<(String, String)>) -> (r: Vec<MetaTag>)
    ensures
        metas_view(r@) == pairs@.map_values(|p: (String, String)| (p.0@, p.1@)),
{
    let mut out: Vec<MetaTag> = Vec::new();
    let mut i: usize = 0;
    while i < pairs.len()
        invariant
            i <= pairs@.len(),
            metas_view(out@) == pairs@.take(i as int).map_values(
                |p: (String, String)| (p.0@, p.1@),
            ),
        decreases pairs@.len() - i,
    {
        let m = MetaTag { name: pairs[i].0.clone(), content: pairs[i].1.clone() };
        let ghost before = out@;
        out.push(m);
        proof {
            let f = |p: (String, String)| (p.0@, p.1@);
            assert(metas_view(out@) =~= metas_view(before).push((m.name@, m.content@)));
            assert(pairs@.take(i + 1).map_values(f) =~= pairs@.take(i as int).map_values(f).push(
                f(pairs@[i as int]),
            ));
        }
        i = i + 1;
    }
    assert(pairs@.take(i as int) =~= pairs@);
    out
}

fn first_text(v: Vec<String>) -> (r: Option<String>)
    ensures
        text_opt(r) == first_of(texts_view(v@)),
{
    if v.len() == 0 {
        None
    } else {
        Some(v[0].clone())
    }
}

fn last_text(v: Vec<String>) -> (r: Option<String>)
    ensures
        text_opt(r) == last_of(texts_view(v@)),
{
    if v.len() == 0 {
        None
    } else {
        Some(v[v.len() - 1].clone())
    }
}

/// Extracts what the crawler records of the page `input` fetched from
/// `base_url`, following links only into domains that end with
/// `allowed_suffix`.
pub fn parse_html_with(input: &str, base_url: &str, allowed_suffix: &str) -> (r: ParsedHtml)
    ensures
        r@ == page_of(input@, base_url@, allowed_suffix@),
{
    let langs = attribute_values(input, "html[lang]", "lang");
    let titles = content_events(input, "title");
    let metas = attribute_pairs(input, "meta[name][content]", "name", "content");
    let canonicals = attribute_values(input, "link[rel=canonical]", "href");
    let anchors = attribute_values(input, "a[href]", "href");
    let body = content_events(input, "body");
    let r = ParsedHtml {
        url: base_url.to_owned(),
        language: first_text(langs),
        title: first_element_text_of(&titles),
        meta_tags: meta_tags_of(metas),
        canonical_url: last_text(canonicals),
        content_text: collect_body_text(&text_nodes_of(&body)),
        links: collect_links(base_url, &anchors, allowed_suffix),
    };
    r
}

/// Extracts what the crawler records of the page `input` fetched from
/// `base_url`, following links into the default allowed domain.
pub fn parse_html(input: String, base_url: &str) -> (r: ParsedHtml)
    ensures
        r@ == page_of(input@, base_url@, DEFAULT_ALLOWED_DOMAIN@),
{
    parse_html_with(input.as_str(), base_url, DEFAULT_ALLOWED_DOMAIN)
}

/// The canonical URL that a fetched page asks to mark visited: its canonical
/// link, when it has one that differs from the URL it was fetched at.
pub fn canonical_to_mark(page: &ParsedHtml) -> (r: Option<String>)
    ensures
        r is Some <==> (page.canonical_url is Some && page.canonical_url->0@ != page.url@),
        r matches Some(c) ==> c@ == page.canonical_url->0@,
{
    match &page.canonical_url {
        Some(c) => if same_text(c.as_str(), page.url.as_str()) {
            None
        } else {
            Some(c.clone())
        },
        None => None,
    }
}

} // verus!
