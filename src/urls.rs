//! URL canonicalisation for deduplication, and the filter that decides which
//! links the crawler follows.
use vstd::prelude::*;
use crate::text::{
    chars_before, chars_end_with, chars_in_order, chars_le, chars_of, count_char, count_of,
    ends_with, before_char, lower_of, lowercase, same_text, string_of, text_ends_with,
};

verus! {

/// What the crawler reads of a parsed URL, held as plain values.
pub struct UrlParts {
    /// The serialisation of the URL.
    pub href: String,
    pub scheme: String,
    /// The host as text, absent for URLs such as `mailto:`.
    pub host: Option<String>,
    /// The host when it is a domain name rather than an IP address.
    pub domain: Option<String>,
    /// The query, decoded as `application/x-www-form-urlencoded` pairs.
    pub query_pairs: Vec<(String, String)>,
}

pub struct UrlPartsView {
    pub href: Seq<char>,
    pub scheme: Seq<char>,
    pub host: Option<Seq<char>>,
    pub domain: Option<Seq<char>>,
    pub query_pairs: Seq<(Seq<char>, Seq<char>)>,
}

pub open spec fn text_opt(o: Option<String>) -> Option<Seq<char>> {
    match o {
        Some(s) => Some(s@),
        None => None,
    }
}

pub open spec fn pairs_view(ps: Seq<(String, String)>) -> Seq<(Seq<char>, Seq<char>)> {
    ps.map_values(|p: (String, String)| (p.0@, p.1@))
}

impl View for UrlParts {
    type V = UrlPartsView;

    open spec fn view(&self) -> UrlPartsView {
        UrlPartsView {
            href: self.href@,
            scheme: self.scheme@,
            host: text_opt(self.host),
            domain: text_opt(self.domain),
            query_pairs: pairs_view(self.query_pairs@),
        }
    }
}

pub open spec fn parts_opt(o: Option<UrlParts>) -> Option<UrlPartsView> {
    match o {
        Some(p) => Some(p@),
        None => None,
    }
}

/// The name of what `url::Url::parse` makes of a text, read back as parts.
pub uninterp spec fn url_parse_result(text: Seq<char>) -> Option<UrlPartsView>;

/// The name of what `url::Url::join` makes of a reference against the URL
/// that `base` parses to, read back as parts.
pub uninterp spec fn url_join_result(base: Seq<char>, reference: Seq<char>) -> Option<
    UrlPartsView,
>;

/// The name of the serialisation of the URL that `href` parses to, once its
/// fragment is removed and its query replaced by `query`.
pub uninterp spec fn url_with_query(href: Seq<char>, query: Option<Seq<char>>) -> Seq<char>;

/// Relies on `url::Url::parse`, read back through `as_str`, `scheme`,
/// `host_str`, `domain` and `query_pairs`.
#[verifier::external_body]
pub(crate) fn parse_url(text: &str) -> (r: Option<UrlParts>)
    ensures
        parts_opt(r) == url_parse_result(text@),
{
    url::Url::parse(text).ok().map(|u| UrlParts {
        href: u.as_str().to_string(),
        scheme: u.scheme().to_string(),
        host: u.host_str().map(|h| h.to_string()),
        domain: u.domain().map(|d| d.to_string()),
        query_pairs: u.query_pairs().into_owned().collect(),
    })
}

/// Relies on `url::Url::join` on the URL that `base` parses to, read back as
/// `parse_url` reads a URL.
#[verifier::external_body]
pub(crate) fn join_url(base: &str, reference: &str) -> (r: Option<UrlParts>)
    ensures
        parts_opt(r) == url_join_result(base@, reference@),
{
    url::Url::parse(base).and_then(|b| b.join(reference)).ok().map(|u| UrlParts {
        href: u.as_str().to_string(),
        scheme: u.scheme().to_string(),
        host: u.host_str().map(|h| h.to_string()),
        domain: u.domain().map(|d| d.to_string()),
        query_pairs: u.query_pairs().into_owned().collect(),
    })
}

/// Relies on `url::Url::set_fragment` and `url::Url::set_query`, which
/// percent-encode the new query as the URL standard asks.
#[verifier::external_body]
pub(crate) fn replace_query(href: &str, query: Option<&str>) -> (r: String)
    ensures
        r@ == url_with_query(href@, opt_str(query)),
{
    match url::Url::parse(href) {
        Ok(mut u) => {
            u.set_fragment(None);
            u.set_query(query);
            u.to_string()
        },
        Err(_) => href.to_string(),
    }
}

pub open spec fn opt_str(o: Option<&str>) -> Option<Seq<char>> {
    match o {
        Some(s) => Some(s@),
        None => None,
    }
}

// ---------------------------------------------------------------------------
// Query cleaning
/// Query keys that only track campaigns and clicks.
pub open spec fn is_tracking_key(k: Seq<char>) -> bool {
    k == "utm_source"@ || k == "utm_medium"@ || k == "utm_campaign"@ || k == "utm_term"@ || k
        == "utm_content"@ || k == "fbclid"@ || k == "gclid"@ || k == "msclkid"@ || k == "mc_cid"@
        || k == "mc_eid"@
}

pub open spec fn keeps_pair() -> spec_fn((Seq<char>, Seq<char>)) -> bool {
    |p: (Seq<char>, Seq<char>)| !is_tracking_key(p.0)
}

pub open spec fn key_at_most(k: Seq<char>) -> spec_fn((Seq<char>, Seq<char>)) -> bool {
    |p: (Seq<char>, Seq<char>)| chars_le(p.0, k)
}

pub open spec fn key_above(k: Seq<char>) -> spec_fn((Seq<char>, Seq<char>)) -> bool {
    |p: (Seq<char>, Seq<char>)| !chars_le(p.0, k)
}

/// `p` placed into `sorted` after every pair whose key is not above its own.
pub open spec fn insert_by_key(sorted: Seq<(Seq<char>, Seq<char>)>, p: (Seq<char>, Seq<char>)) -> Seq<
    (Seq<char>, Seq<char>),
> {
    sorted.filter(key_at_most(p.0)) + seq![p] + sorted.filter(key_above(p.0))
}

/// The pairs sorted by key, pairs with equal keys kept in their order.
pub open spec fn sort_by_key(ps: Seq<(Seq<char>, Seq<char>)>) -> Seq<(Seq<char>, Seq<char>)>
    decreases ps.len(),
{
    if ps.len() == 0 {
        ps
    } else {
        insert_by_key(sort_by_key(ps.drop_last()), ps.last())
    }
}

/// The query pairs that a normalised URL keeps, in the order it keeps them.
pub open spec fn cleaned_pairs(ps: Seq<(Seq<char>, Seq<char>)>) -> Seq<(Seq<char>, Seq<char>)> {
    sort_by_key(ps.filter(keeps_pair()))
}

pub open spec fn pair_text(p: (Seq<char>, Seq<char>)) -> Seq<char> {
    p.0 + "="@ + p.1
}

/// `k=v` for each pair, joined by `&`.
pub open spec fn query_text(ps: Seq<(Seq<char>, Seq<char>)>) -> Seq<char>
    decreases ps.len(),
{
    if ps.len() == 0 {
        Seq::empty()
    } else if ps.len() == 1 {
        pair_text(ps[0])
    } else {
        query_text(ps.drop_last()) + "&"@ + pair_text(ps.last())
    }
}

/// The query of a normalised URL: none when no pair is kept.
pub open spec fn cleaned_query(ps: Seq<(Seq<char>, Seq<char>)>) -> Option<Seq<char>> {
    let kept = cleaned_pairs(ps);
    if kept.len() == 0 {
        None
    } else {
        Some(query_text(kept))
    }
}

/// `s` without its final `/`s, removed one by one while `s` ends with `/`
/// and holds more than three of them, that is while the slash ends a path
/// below the root.
pub open spec fn strip_trailing_slash(s: Seq<char>) -> Seq<char>
    decreases s.len(),
{
    if s.len() > 0 && s.last() == '/' && count_char(s, '/') > 3 {
        strip_trailing_slash(s.drop_last())
    } else {
        s
    }
}

/// The normalised form of a URL text: unchanged when it does not parse.
pub open spec fn normalized(raw: Seq<char>) -> Seq<char> {
    match url_parse_result(raw) {
        None => raw,
        Some(p) => strip_trailing_slash(url_with_query(p.href, cleaned_query(p.query_pairs))),
    }
}

/// Whether `key` is one of the tracking parameters that normalisation drops.
pub fn is_tracking_param(key: &str) -> (r: bool)
    ensures
        r == is_tracking_key(key@),
{
    same_text(key, "utm_source") || same_text(key, "utm_medium") || same_text(key, "utm_campaign")
        || same_text(key, "utm_term") || same_text(key, "utm_content") || same_text(key, "fbclid")
        || same_text(key, "gclid") || same_text(key, "msclkid") || same_text(key, "mc_cid")
        || same_text(key, "mc_eid")
}

proof fn lemma_pairs_view_take(ps: Seq<(String, String)>, i: int)
    requires
        0 <= i < ps.len(),
    ensures
        pairs_view(ps.take(i + 1)) == pairs_view(ps.take(i)).push((ps[i].0@, ps[i].1@)),
        pairs_view(ps.take(i + 1)).drop_last() == pairs_view(ps.take(i)),
        pairs_view(ps.take(i + 1)).last() == (ps[i].0@, ps[i].1@),
{
    assert(pairs_view(ps.take(i + 1)) =~= pairs_view(ps.take(i)).push((ps[i].0@, ps[i].1@)));
    assert(pairs_view(ps.take(i + 1)).drop_last() =~= pairs_view(ps.take(i)));
}

proof fn lemma_filter_push<A>(s: Seq<A>, x: A, f: spec_fn(A) -> bool)
    ensures
        s.push(x).filter(f) == if f(x) {
            s.filter(f).push(x)
        } else {
            s.filter(f)
        },
{
    reveal(Seq::filter);
    assert(s.push(x).drop_last() =~= s);
}

fn clone_pair(p: &(String, String)) -> (r: (String, String))
    ensures
        r.0@ == p.0@,
        r.1@ == p.1@,
{
    (p.0.clone(), p.1.clone())
}

/// The pairs whose key is not a tracking parameter, in their order.
pub fn without_tracking(pairs: &Vec<(String, String)>) -> (r: Vec<(String, String)>)
    ensures
        pairs_view(r@) == pairs_view(pairs@).filter(keeps_pair()),
{
    let mut out: Vec<(String, String)> = Vec::new();
    let mut i: usize = 0;
    while i < pairs.len()
        invariant
            i <= pairs@.len(),
            pairs_view(out@) == pairs_view(pairs@.take(i as int)).filter(keeps_pair()),
        decreases pairs@.len() - i,
    {
        proof {
            lemma_pairs_view_take(pairs@, i as int);
            lemma_filter_push(
                pairs_view(pairs@.take(i as int)),
                (pairs@[i as int].0@, pairs@[i as int].1@),
                keeps_pair(),
            );
        }
        if !is_tracking_param(pairs[i].0.as_str()) {
            let p = clone_pair(&pairs[i]);
            out.push(p);
            assert(pairs_view(out@) =~= pairs_view(pairs@.take(i as int)).filter(keeps_pair()).push(
                (p.0@, p.1@),
            ));
        }
        i = i + 1;
    }
    assert(pairs@.take(i as int) =~= pairs@);
    out
}

/// Whether the key of `a` comes no later than `key` in code-point order.
fn key_in_order(a: &str, key: &[char]) -> (r: bool)
    ensures
        r == chars_le(a@, key@),
{
    let x = chars_of(a);
    chars_in_order(x.as_slice(), key)
}

/// `p` inserted into `sorted` after every pair whose key is not above its own.
pub fn insert_pair(sorted: &Vec<(String, String)>, p: (String, String)) -> (r: Vec<
    (String, String),
>)
    ensures
        pairs_view(r@) == insert_by_key(pairs_view(sorted@), (p.0@, p.1@)),
{
    let key = chars_of(p.0.as_str());
    let mut low: Vec<(String, String)> = Vec::new();
    let mut high: Vec<(String, String)> = Vec::new();
    let mut i: usize = 0;
    while i < sorted.len()
        invariant
            i <= sorted@.len(),
            key@ == p.0@,
            pairs_view(low@) == pairs_view(sorted@.take(i as int)).filter(key_at_most(p.0@)),
            pairs_view(high@) == pairs_view(sorted@.take(i as int)).filter(key_above(p.0@)),
        decreases sorted@.len() - i,
    {
        proof {
            lemma_pairs_view_take(sorted@, i as int);
            let qv = (sorted@[i as int].0@, sorted@[i as int].1@);
            lemma_filter_push(pairs_view(sorted@.take(i as int)), qv, key_at_most(p.0@));
            lemma_filter_push(pairs_view(sorted@.take(i as int)), qv, key_above(p.0@));
        }
        let q = clone_pair(&sorted[i]);
        if key_in_order(sorted[i].0.as_str(), key.as_slice()) {
            low.push(q);
            assert(pairs_view(low@) =~= pairs_view(sorted@.take(i as int)).filter(
                key_at_most(p.0@),
            ).push((q.0@, q.1@)));
        } else {
            high.push(q);
            assert(pairs_view(high@) =~= pairs_view(sorted@.take(i as int)).filter(
                key_above(p.0@),
            ).push((q.0@, q.1@)));
        }
        i = i + 1;
    }
    assert(sorted@.take(i as int) =~= sorted@);
    let ghost lv = pairs_view(low@);
    let ghost hv = pairs_view(high@);
    let ghost pv = (p.0@, p.1@);
    low.push(p);
    assert(pairs_view(low@) =~= lv.push(pv));
    let ghost mid = low@;
    let ghost hi = high@;
    let mut high = high;
    low.append(&mut high);
    assert(low@ =~= mid + hi);
    assert(pairs_view(mid + hi) =~= pairs_view(mid) + pairs_view(hi));
    assert(pairs_view(low@) =~= lv + seq![pv] + hv);
    low
}

/// The pairs sorted by key; pairs with equal keys keep their order.
pub fn sort_pairs(pairs: &Vec<(String, String)>) -> (r: Vec<(String, String)>)
    ensures
        pairs_view(r@) == sort_by_key(pairs_view(pairs@)),
{
    let mut out: Vec<(String, String)> = Vec::new();
    let mut i: usize = 0;
    while i < pairs.len()
        invariant
            i <= pairs@.len(),
            pairs_view(out@) == sort_by_key(pairs_view(pairs@.take(i as int))),
        decreases pairs@.len() - i,
    {
        proof {
            lemma_pairs_view_take(pairs@, i as int);
        }
        let p = clone_pair(&pairs[i]);
        out = insert_pair(&out, p);
        i = i + 1;
    }
    assert(pairs@.take(i as int) =~= pairs@);
    out
}

/// `k=v` for each pair, joined by `&`.
pub fn join_query(pairs: &Vec<(String, String)>) -> (r: String)
    ensures
        r@ == query_text(pairs_view(pairs@)),
{
    let mut out = String::new();
    let mut i: usize = 0;
    while i < pairs.len()
        invariant
            i <= pairs@.len(),
            out@ == query_text(pairs_view(pairs@.take(i as int))),
        decreases pairs@.len() - i,
    {
        proof {
            lemma_pairs_view_take(pairs@, i as int);
        }
        let ghost before = out@;
        if i > 0 {
            out.append("&");
        }
        out.append(pairs[i].0.as_str());
        out.append("=");
        out.append(pairs[i].1.as_str());
        proof {
            let pv = pairs_view(pairs@.take(i + 1));
            if i == 0 {
                assert(out@ =~= pair_text(pv[0]));
            } else {
                assert(out@ =~= before + "&"@ + pair_text(pv.last()));
            }
        }
        i = i + 1;
    }
    assert(pairs@.take(i as int) =~= pairs@);
    out
}

/// The query that a normalised URL carries, from its decoded pairs: tracking
/// pairs dropped, the rest sorted by key, none when nothing is left.
pub fn clean_query(pairs: &Vec<(String, String)>) -> (r: Option<String>)
    ensures
        text_opt(r) == cleaned_query(pairs_view(pairs@)),
{
    let kept = without_tracking(pairs);
    let sorted = sort_pairs(&kept);
    if sorted.len() == 0 {
        None
    } else {
        Some(join_query(&sorted))
    }
}

/// Drops final `/`s while they end a path below the root.
pub fn strip_slash(s: &str) -> (r: String)
    ensures
        r@ == strip_trailing_slash(s@),
{
    let cs = chars_of(s);
    let mut n = cs.len();
    let mut slashes = count_of(cs.as_slice(), '/');
    proof {
        assert(cs@.take(n as int) =~= cs@);
    }
    while n > 0 && cs[n - 1] == '/' && slashes > 3
        invariant
            n <= cs@.len(),
            slashes == count_char(cs@.take(n as int), '/'),
            strip_trailing_slash(cs@.take(n as int)) == strip_trailing_slash(cs@),
        decreases n,
    {
        proof {
            assert(cs@.take(n as int).drop_last() =~= cs@.take(n - 1));
        }
        n = n - 1;
        slashes = slashes - 1;
    }
    string_of(slice_prefix(&cs, n))
}

fn slice_prefix(v: &Vec<char>, n: usize) -> (r: &[char])
    requires
        n <= v@.len(),
    ensures
        r@ == v@.take(n as int),
{
    let s = v.as_slice();
    let (a, _b) = s.split_at(n);
    a
}

/// The canonical form of a URL, the key under which the crawler remembers it.
///
/// A text that does not parse as a URL comes back unchanged. Otherwise the
/// fragment goes, tracking parameters leave the query, the other pairs are
/// sorted by key (stably) and written back as `k=v&...`, or the query goes
/// when none is left; a final `/` below the root is dropped.
pub fn normalize_url(url: &str) -> (r: String)
    ensures
        r@ == normalized(url@),
{
    match parse_url(url) {
        None => string_of(chars_of(url).as_slice()),
        Some(parts) => {
            let query = clean_query(&parts.query_pairs);
            let rebuilt = match &query {
                Some(q) => replace_query(parts.href.as_str(), Some(q.as_str())),
                None => replace_query(parts.href.as_str(), None),
            };
            strip_slash(rebuilt.as_str())
        },
    }
}


// ---------------------------------------------------------------------------
// Link filter
/// File extensions of documents that the crawler does not fetch.
pub open spec fn media_extensions() -> Seq<Seq<char>> {
    seq![
        ".jpg"@, ".jpeg"@, ".png"@, ".gif"@, ".bmp"@, ".svg"@,
        ".webp"@, ".ico"@, ".tiff"@, ".mp4"@, ".avi"@, ".mov"@,
        ".wmv"@, ".flv"@, ".webm"@, ".mkv"@, ".m4v"@, ".mp3"@,
        ".wav"@, ".ogg"@, ".m4a"@, ".flac"@, ".aac"@, ".pdf"@,
        ".doc"@, ".docx"@, ".xls"@, ".xlsx"@, ".ppt"@, ".pptx"@,
        ".xml"@, ".zip"@, ".rar"@, ".tar"@, ".gz"@, ".7z"@,
        ".exe"@, ".dmg"@, ".pkg"@, ".deb"@, ".rpm"@,
    ]
}

/// The part of a URL that the extension check reads: lower-cased, before any `?`.
pub open spec fn media_path(url: Seq<char>) -> Seq<char> {
    before_char(lower_of(url), '?')
}

/// The URL names an image, video, audio file, document, archive or executable.
pub open spec fn is_media(url: Seq<char>) -> bool {
    exists|i: int| 0 <= i < media_extensions().len() && ends_with(media_path(url), #[trigger] media_extensions()[i])
}

fn media_extension_list() -> (r: Vec<&'static str>)
    ensures
        r@.len() == media_extensions().len(),
        forall|i: int| 0 <= i < r@.len() ==> (#[trigger] r@[i])@ == media_extensions()[i],
{
    let v: Vec<&'static str> = vec![
        ".jpg", ".jpeg", ".png", ".gif", ".bmp", ".svg",
        ".webp", ".ico", ".tiff", ".mp4", ".avi", ".mov",
        ".wmv", ".flv", ".webm", ".mkv", ".m4v", ".mp3",
        ".wav", ".ogg", ".m4a", ".flac", ".aac", ".pdf",
        ".doc", ".docx", ".xls", ".xlsx", ".ppt", ".pptx",
        ".xml", ".zip", ".rar", ".tar", ".gz", ".7z",
        ".exe", ".dmg", ".pkg", ".deb", ".rpm",
    ];
    v
}

/// Whether `url` points to a media file that the crawler should not fetch:
/// its lower-cased text before any `?` ends with one of the known extensions.
pub fn is_media_file(url: &str) -> (r: bool)
    ensures
        r == is_media(url@),
{
    let lower = lowercase(url);
    let cs = chars_of(lower.as_str());
    let path = chars_before(cs.as_slice(), '?');
    let exts = media_extension_list();
    let mut i: usize = 0;
    while i < exts.len()
        invariant
            i <= exts@.len(),
            path@ == media_path(url@),
            exts@.len() == media_extensions().len(),
            forall|k: int| 0 <= k < exts@.len() ==> (#[trigger] exts@[k])@ == media_extensions()[k],
            forall|k: int| 0 <= k < i ==> !ends_with(path@, #[trigger] media_extensions()[k]),
        decreases exts@.len() - i,
    {
        let e = chars_of(exts[i]);
        if chars_end_with(path.as_slice(), e.as_slice()) {
            return true;
        }
        i = i + 1;
    }
    false
}

/// Whether the crawler follows a link to `url`: an `http` or `https` URL
/// with a host, not a media file, whose host is a domain name ending with
/// `allowed_suffix` (an IP-address host matches no allow-list).
pub open spec fn accepted(url: UrlPartsView, allowed_suffix: Seq<char>) -> bool {
    &&& !is_media(url.href)
    &&& url.domain is Some
    &&& ends_with(url.domain->0, allowed_suffix)
    &&& (url.scheme == "http"@ || url.scheme == "https"@)
    &&& url.host is Some
}

/// The link filter: see `accepted`.
pub fn url_validation(url: &UrlParts, allowed_suffix: &str) -> (r: bool)
    ensures
        r == accepted(url@, allowed_suffix@),
{
    if is_media_file(url.href.as_str()) {
        return false;
    }
    match &url.domain {
        Some(d) => if !text_ends_with(d.as_str(), allowed_suffix) {
            return false;
        },
        None => return false,
    }
    (same_text(url.scheme.as_str(), "http") || same_text(url.scheme.as_str(), "https"))
        && url.host.is_some()
}

/// An `href` as the page means it: an absolute URL as it stands, else a
/// reference resolved against the page's URL.
pub open spec fn resolved_link(base: Seq<char>, href: Seq<char>) -> Option<UrlPartsView> {
    match url_parse_result(href) {
        Some(p) => Some(p),
        None => url_join_result(base, href),
    }
}

/// The normalised link that an `href` on the page at `base` contributes, if
/// the filter accepts it.
pub open spec fn followed_link(base: Seq<char>, href: Seq<char>, allowed_suffix: Seq<char>) -> Option<
    Seq<char>,
> {
    match resolved_link(base, href) {
        Some(p) => if accepted(p, allowed_suffix) {
            Some(normalized(p.href))
        } else {
            None
        },
        None => None,
    }
}

/// The link that an `href` found on the page at `base` leads to, normalised,
/// or `None` when it does not resolve or the filter refuses it.
pub fn follow_link(base: &str, href: &str, allowed_suffix: &str) -> (r: Option<String>)
    ensures
        text_opt(r) == followed_link(base@, href@, allowed_suffix@),
{
    let target = match parse_url(href) {
        Some(p) => Some(p),
        None => join_url(base, href),
    };
    match target {
        Some(p) => if url_validation(&p, allowed_suffix) {
            Some(normalize_url(p.href.as_str()))
        } else {
            None
        },
        None => None,
    }
}

/// The host of a URL, when it parses and has one: the key of the rate limiter
/// and of the dashboard's per-host counts.
pub fn extract_domain(url: &str) -> (r: Option<String>)
    ensures
        text_opt(r) == match url_parse_result(url@) {
            Some(p) => p.host,
            None => None,
        },
{
    match parse_url(url) {
        Some(p) => p.host,
        None => None,
    }
}

// ---------------------------------------------------------------------------
// Idempotence of query cleaning
proof fn lemma_chars_le_reflexive(a: Seq<char>)
    ensures
        chars_le(a, a),
    decreases a.len(),
{
    if a.len() > 0 {
        lemma_chars_le_reflexive(a.drop_first());
    }
}

proof fn lemma_chars_le_total(a: Seq<char>, b: Seq<char>)
    ensures
        chars_le(a, b) || chars_le(b, a),
    decreases a.len(),
{
    if a.len() > 0 && b.len() > 0 && a[0] == b[0] {
        lemma_chars_le_total(a.drop_first(), b.drop_first());
    }
}

proof fn lemma_chars_le_transitive(a: Seq<char>, b: Seq<char>, c: Seq<char>)
    requires
        chars_le(a, b),
        chars_le(b, c),
    ensures
        chars_le(a, c),
    decreases a.len(),
{
    if a.len() > 0 && b.len() > 0 && c.len() > 0 && a[0] == b[0] && b[0] == c[0] {
        lemma_chars_le_transitive(a.drop_first(), b.drop_first(), c.drop_first());
    }
}

/// Keys never decrease along `s`.
pub open spec fn keys_sorted(s: Seq<(Seq<char>, Seq<char>)>) -> bool {
    forall|i: int, j: int| 0 <= i < j < s.len() ==> chars_le(#[trigger] s[i].0, #[trigger] s[j].0)
}

proof fn lemma_filter_all_pass<A>(s: Seq<A>, f: spec_fn(A) -> bool)
    requires
        forall|i: int| 0 <= i < s.len() ==> f(#[trigger] s[i]),
    ensures
        s.filter(f) == s,
    decreases s.len(),
{
    reveal(Seq::filter);
    if s.len() > 0 {
        lemma_filter_all_pass(s.drop_last(), f);
        assert(s.drop_last().push(s.last()) =~= s);
    }
}

proof fn lemma_filter_none_pass<A>(s: Seq<A>, f: spec_fn(A) -> bool)
    requires
        forall|i: int| 0 <= i < s.len() ==> !f(#[trigger] s[i]),
    ensures
        s.filter(f) == Seq::<A>::empty(),
    decreases s.len(),
{
    reveal(Seq::filter);
    if s.len() > 0 {
        lemma_filter_none_pass(s.drop_last(), f);
    }
}

proof fn lemma_filter_sorted(s: Seq<(Seq<char>, Seq<char>)>, f: spec_fn((Seq<char>, Seq<char>)) -> bool)
    requires
        keys_sorted(s),
    ensures
        keys_sorted(s.filter(f)),
        forall|x: (Seq<char>, Seq<char>)| s.filter(f).contains(x) ==> s.contains(x),
    decreases s.len(),
{
    reveal(Seq::filter);
    if s.len() > 0 {
        let d = s.drop_last();
        assert(keys_sorted(d));
        lemma_filter_sorted(d, f);
        let fd = d.filter(f);
        if f(s.last()) {
            let r = fd.push(s.last());
            assert forall|i: int, j: int| 0 <= i < j < r.len() implies chars_le(#[trigger] r[i].0, #[trigger] r[j].0) by {
                if j == r.len() - 1 {
                    assert(r[i] == fd[i]);
                    assert(fd.contains(fd[i]));
                    assert(d.contains(r[i]));
                    let k = choose|k: int| 0 <= k < d.len() && d[k] == r[i];
                    assert(s[k] == d[k]);
                    assert(r[j] == s[s.len() - 1]);
                    assert(chars_le(s[k].0, s[s.len() - 1].0));
                } else {
                    assert(r[i] == fd[i] && r[j] == fd[j]);
                }
            }
            assert forall|x: (Seq<char>, Seq<char>)| r.contains(x) implies s.contains(x) by {
                if x != s.last() {
                    let k = choose|k: int| 0 <= k < r.len() && r[k] == x;
                    assert(fd[k] == x);
                    assert(fd.contains(x));
                    assert(d.contains(x));
                    let m = choose|m: int| 0 <= m < d.len() && d[m] == x;
                    assert(s[m] == x);
                } else {
                    assert(s[s.len() - 1] == x);
                }
            }
        } else {
            assert forall|x: (Seq<char>, Seq<char>)| fd.contains(x) implies s.contains(x) by {
                assert(d.contains(x));
                let m = choose|m: int| 0 <= m < d.len() && d[m] == x;
                assert(s[m] == x);
            }
        }
    }
}

proof fn lemma_sort_sorted_and_from_input(ps: Seq<(Seq<char>, Seq<char>)>)
    ensures
        keys_sorted(sort_by_key(ps)),
        forall|x: (Seq<char>, Seq<char>)| sort_by_key(ps).contains(x) ==> ps.contains(x),
    decreases ps.len(),
{
    if ps.len() > 0 {
        let d = ps.drop_last();
        let p = ps.last();
        lemma_sort_sorted_and_from_input(d);
        let r = sort_by_key(d);
        lemma_filter_sorted(r, key_at_most(p.0));
        lemma_filter_sorted(r, key_above(p.0));
        let lo = r.filter(key_at_most(p.0));
        let hi = r.filter(key_above(p.0));
        let out = lo + seq![p] + hi;
        assert(out == sort_by_key(ps));
        assert forall|x: (Seq<char>, Seq<char>)| lo.contains(x) implies chars_le(x.0, p.0) by {
            let k = choose|k: int| 0 <= k < lo.len() && lo[k] == x;
            r.lemma_filter_pred(key_at_most(p.0), k);
        }
        assert forall|x: (Seq<char>, Seq<char>)| hi.contains(x) implies chars_le(p.0, x.0) by {
            let k = choose|k: int| 0 <= k < hi.len() && hi[k] == x;
            r.lemma_filter_pred(key_above(p.0), k);
            lemma_chars_le_total(x.0, p.0);
        }
        assert forall|i: int, j: int| 0 <= i < j < out.len() implies chars_le(#[trigger] out[i].0, #[trigger] out[j].0) by {
            let a = lo.len() as int;
            if j < a {
                assert(out[i] == lo[i] && out[j] == lo[j]);
            } else if i > a {
                assert(out[i] == hi[i - a - 1] && out[j] == hi[j - a - 1]);
            } else if i == a {
                assert(out[i] == p);
                assert(hi.contains(out[j])) by {
                    assert(out[j] == hi[j - a - 1]);
                }
            } else if j == a {
                assert(out[j] == p);
                assert(lo.contains(out[i])) by {
                    assert(out[i] == lo[i]);
                }
            } else {
                assert(lo.contains(out[i])) by {
                    assert(out[i] == lo[i]);
                }
                assert(hi.contains(out[j])) by {
                    assert(out[j] == hi[j - a - 1]);
                }
                lemma_chars_le_transitive(out[i].0, p.0, out[j].0);
            }
        }
        assert forall|x: (Seq<char>, Seq<char>)| out.contains(x) implies ps.contains(x) by {
            let k = choose|k: int| 0 <= k < out.len() && out[k] == x;
            let a = lo.len() as int;
            if k < a {
                assert(lo.contains(x)) by {
                    assert(lo[k] == x);
                }
                assert(r.contains(x));
                assert(d.contains(x));
                let m = choose|m: int| 0 <= m < d.len() && d[m] == x;
                assert(ps[m] == x);
            } else if k == a {
                assert(ps[ps.len() - 1] == x);
            } else {
                assert(hi.contains(x)) by {
                    assert(hi[k - a - 1] == x);
                }
                assert(r.contains(x));
                assert(d.contains(x));
                let m = choose|m: int| 0 <= m < d.len() && d[m] == x;
                assert(ps[m] == x);
            }
        }
    }
}

proof fn lemma_insert_after_all(r: Seq<(Seq<char>, Seq<char>)>, p: (Seq<char>, Seq<char>))
    requires
        forall|i: int| 0 <= i < r.len() ==> chars_le(#[trigger] r[i].0, p.0),
    ensures
        insert_by_key(r, p) == r.push(p),
{
    let lo_f = key_at_most(p.0);
    let hi_f = key_above(p.0);
    assert forall|i: int| 0 <= i < r.len() implies #[trigger] lo_f(r[i]) by {}
    assert forall|i: int| 0 <= i < r.len() implies !#[trigger] hi_f(r[i]) by {}
    lemma_filter_all_pass(r, lo_f);
    lemma_filter_none_pass(r, hi_f);
    assert(r + seq![p] + Seq::<(Seq<char>, Seq<char>)>::empty() =~= r.push(p));
}

proof fn lemma_sort_of_sorted(s: Seq<(Seq<char>, Seq<char>)>)
    requires
        keys_sorted(s),
    ensures
        sort_by_key(s) == s,
    decreases s.len(),
{
    if s.len() > 0 {
        let d = s.drop_last();
        let p = s.last();
        assert forall|i: int, j: int| 0 <= i < j < d.len() implies chars_le(#[trigger] d[i].0, #[trigger] d[j].0) by {
            assert(d[i] == s[i] && d[j] == s[j]);
        }
        lemma_sort_of_sorted(d);
        assert forall|i: int| 0 <= i < d.len() implies chars_le(#[trigger] d[i].0, p.0) by {
            assert(d[i] == s[i]);
            assert(chars_le(s[i].0, s[s.len() - 1].0));
        }
        lemma_insert_after_all(d, p);
        assert(d.push(p) =~= s);
    }
}

/// Cleaning the query pairs of a normalised URL again changes nothing: no
/// tracking pair is left to drop and the pairs are already in key order.
pub proof fn lemma_cleaned_pairs_idempotent(ps: Seq<(Seq<char>, Seq<char>)>)
    ensures
        cleaned_pairs(cleaned_pairs(ps)) == cleaned_pairs(ps),
{
    let kept = ps.filter(keeps_pair());
    let once = sort_by_key(kept);
    lemma_sort_sorted_and_from_input(kept);
    assert forall|i: int| 0 <= i < once.len() implies (#[trigger] keeps_pair()(once[i])) by {
        assert(once.contains(once[i]));
        assert(kept.contains(once[i]));
        let k = choose|k: int| 0 <= k < kept.len() && kept[k] == once[i];
        ps.lemma_filter_pred(keeps_pair(), k);
    }
    lemma_filter_all_pass(once, keeps_pair());
    lemma_sort_of_sorted(once);
}

/// The query pairs that a normalised URL keeps hold no tracking key and come
/// in key order.
pub proof fn lemma_cleaned_pairs_shape(ps: Seq<(Seq<char>, Seq<char>)>)
    ensures
        keys_sorted(cleaned_pairs(ps)),
        forall|i: int| 0 <= i < cleaned_pairs(ps).len() ==> !is_tracking_key(#[trigger] cleaned_pairs(ps)[i].0),
{
    let kept = ps.filter(keeps_pair());
    lemma_sort_sorted_and_from_input(kept);
    assert forall|i: int| 0 <= i < cleaned_pairs(ps).len() implies !is_tracking_key(#[trigger] cleaned_pairs(ps)[i].0) by {
        let x = cleaned_pairs(ps)[i];
        assert(cleaned_pairs(ps).contains(x));
        assert(kept.contains(x));
        let k = choose|k: int| 0 <= k < kept.len() && kept[k] == x;
        ps.lemma_filter_pred(keeps_pair(), k);
    }
}

} // verus!
