//! Content extraction: from fetched HTML to a bounded plain-text excerpt and
//! a map from each outbound link's normalized URL to its visible anchor text.
//!
//! DOM parsing and selector matching are the `scraper` crate's work and stand
//! behind trusted wrappers whose results are named functions of the HTML
//! text; which container wins (a primary-content container first, the
//! document body last), the raw-byte ceiling, whitespace normalization, the
//! character ceilings, and first-seen-wins anchor recording are all verified
//! here.

use vstd::prelude::*;

use crate::text::{
    chars_of, normalize_text, normalize_text_spec, push_range, str_eq, string_from_chars,
    strip_tag_blocks, strip_tag_blocks_spec, take_chars, truncate_chars,
};
use crate::urls::{is_http_scheme, resolve_url, url_resolve_of, ParsedUrl};

verus! {

/// The raw bytes an excerpt accumulates before it is cut off.
pub const MAX_EXCERPT_RAW_BYTES: usize = 32768;

/// The character ceiling of an excerpt.
pub const MAX_EXCERPT_CHARS: usize = 600;

/// The character ceiling of one anchor text.
pub const MAX_ANCHOR_CHARS: usize = 120;

/// One hyperlink found inside the content root: its raw `href` and the text
/// nodes under it.
#[derive(Debug)]
pub struct Anchor {
    pub href: String,
    pub text_pieces: Vec<String>,
}

impl DeepView for Anchor {
    type V = (Seq<char>, Seq<Seq<char>>);

    open spec fn deep_view(&self) -> (Seq<char>, Seq<Seq<char>>) {
        (self.href@, self.text_pieces.deep_view())
    }
}

/// What the first element matching `selector` in the parsed document holds as
/// text nodes, in order: a function of the HTML text alone, computed by the
/// `scraper` crate; nothing when no element matches.
pub uninterp spec fn sel_first_text_of(html: Seq<char>, selector: Seq<char>) -> Option<
    Seq<Seq<char>>,
>;

/// What hyperlinks stand under the first element matching `selector`: each
/// `a[href]` descendant's `href` value and text nodes, in document order; a
/// function of the HTML text alone, computed by the `scraper` crate.
pub uninterp spec fn sel_anchors_of(html: Seq<char>, selector: Seq<char>) -> Option<
    Seq<(Seq<char>, Seq<Seq<char>>)>,
>;

/// Relies on scraper's `Html::parse_document`, `Selector::parse` and the
/// `select` iterator: hands back the text nodes, in order, of the first
/// element matching `selector`, or nothing when no element matches or the
/// selector does not parse.
#[verifier::external_body]
fn dom_first_text(html: &str, selector: &str) -> (r: Option<Vec<String>>)
    ensures
        r.deep_view() == sel_first_text_of(html@, selector@),
{
    let doc = scraper::Html::parse_document(html);
    let sel = scraper::Selector::parse(selector).ok()?;
    let root = doc.select(&sel).next()?;
    Some(root.text().map(|t| t.to_owned()).collect())
}

/// Relies on scraper's `Html::parse_document`, `Selector::parse` and the
/// `select` iterator: hands back, for each `a[href]` element under the first
/// element matching `selector`, the `href` value and the text nodes, in
/// document order.
#[verifier::external_body]
fn dom_first_anchors(html: &str, selector: &str) -> (r: Option<Vec<Anchor>>)
    ensures
        r.deep_view() == sel_anchors_of(html@, selector@),
{
    let doc = scraper::Html::parse_document(html);
    let sel = scraper::Selector::parse(selector).ok()?;
    let asel = scraper::Selector::parse("a[href]").ok()?;
    let root = doc.select(&sel).next()?;
    let anchors = root.select(&asel).filter_map(|node| {
        let href = node.attr("href")?.to_owned();
        Some(Anchor { href, text_pieces: node.text().map(|t| t.to_owned()).collect() })
    });
    Some(anchors.collect())
}

/// The byte length of a piece of text under UTF-8, as `str::len` reports it.
pub open spec fn byte_len(s: Seq<char>) -> int {
    (vstd::utf8::encode_utf8(s).len() as usize) as int
}

/// The raw text gathered from the content root's text nodes: each piece
/// followed by one space, cut off once the accumulated byte count reaches the
/// raw ceiling.
pub open spec fn gather_rec(pieces: Seq<Seq<char>>, bytes: int) -> Seq<char>
    decreases pieces.len(),
{
    if pieces.len() == 0 {
        Seq::empty()
    } else {
        let chunk = pieces[0].push(' ');
        if bytes + byte_len(pieces[0]) + 1 >= MAX_EXCERPT_RAW_BYTES as int {
            chunk
        } else {
            chunk + gather_rec(pieces.skip(1), bytes + byte_len(pieces[0]) + 1)
        }
    }
}

/// The excerpt an extraction produces from the content root's text pieces:
/// the gathered raw text, whitespace-normalized, cut to the character
/// ceiling.
pub open spec fn excerpt_spec(pieces: Seq<Seq<char>>) -> Seq<char> {
    take_chars(normalize_text_spec(gather_rec(pieces, 0)), MAX_EXCERPT_CHARS as int)
}

/// Gathers the text pieces into the raw excerpt text, stopping at the byte
/// ceiling.
fn gather_pieces(pieces: &Vec<String>) -> (r: Vec<char>)
    ensures
        r@ == gather_rec(pieces.deep_view(), 0),
{
    let n: usize = pieces.len();
    let mut out: Vec<char> = Vec::new();
    let mut bytes: u128 = 0;
    let mut i: usize = 0;
    proof {
        assert(pieces.deep_view().skip(0) =~= pieces.deep_view());
        assert(Seq::<char>::empty() + gather_rec(pieces.deep_view(), 0) =~= gather_rec(
            pieces.deep_view(),
            0,
        ));
    }
    loop
        invariant_except_break
            i <= n,
            n == pieces.deep_view().len(),
            bytes < MAX_EXCERPT_RAW_BYTES as u128,
            gather_rec(pieces.deep_view(), 0) == out@ + gather_rec(
                pieces.deep_view().skip(i as int),
                bytes as int,
            ),
        ensures
            out@ == gather_rec(pieces.deep_view(), 0),
        decreases n - i,
    {
        if i >= n {
            proof {
                assert(pieces.deep_view().skip(i as int) =~= Seq::<Seq<char>>::empty());
                assert(out@ + Seq::<char>::empty() =~= out@);
            }
            break ;
        }
        let ghost rest = pieces.deep_view().skip(i as int);
        let ghost out_old = out@;
        let ghost bytes_old = bytes as int;
        proof {
            assert(rest[0] == pieces.deep_view()[i as int]);
            assert(rest.skip(1) =~= pieces.deep_view().skip(i + 1));
        }
        let piece = &pieces[i];
        let pc = chars_of(piece.as_str());
        push_range(&mut out, &pc, 0, pc.len());
        out.push(' ');
        proof {
            assert(pc@.subrange(0, pc@.len() as int) =~= pc@);
            assert(out_old + pc@.push(' ') =~= out@);
        }
        let plen: u128 = piece.as_str().len() as u128;
        proof {
            assert(pieces.deep_view()[i as int] == pieces@[i as int]@);
            assert(plen as int == byte_len(rest[0]));
        }
        bytes = bytes + plen + 1;
        if bytes >= MAX_EXCERPT_RAW_BYTES as u128 {
            proof {
                assert(gather_rec(rest, bytes_old) == rest[0].push(' '));
            }
            break ;
        }
        proof {
            assert(gather_rec(rest, bytes_old) == rest[0].push(' ') + gather_rec(
                rest.skip(1),
                bytes as int,
            ));
            assert(out_old + (rest[0].push(' ') + gather_rec(rest.skip(1), bytes as int)) =~= out@
                + gather_rec(rest.skip(1), bytes as int));
        }
        i = i + 1;
    }
    out
}

/// The pieces joined with single spaces, as an anchor's visible text is
/// assembled from its text nodes.
pub open spec fn join_spaces(ps: Seq<Seq<char>>) -> Seq<char>
    decreases ps.len(),
{
    if ps.len() == 0 {
        Seq::empty()
    } else if ps.len() == 1 {
        ps[0]
    } else {
        join_spaces(ps.drop_last()) + seq![' '] + ps.last()
    }
}

/// Joins text pieces with single spaces.
fn join_pieces(ps: &Vec<String>) -> (r: Vec<char>)
    ensures
        r@ == join_spaces(ps.deep_view()),
{
    let n: usize = ps.len();
    let mut out: Vec<char> = Vec::new();
    let mut i: usize = 0;
    while i < n
        invariant
            n == ps.deep_view().len(),
            i <= n,
            out@ == join_spaces(ps.deep_view().take(i as int)),
        decreases n - i,
    {
        proof {
            assert(ps.deep_view().take(i + 1).drop_last() =~= ps.deep_view().take(i as int));
            assert(ps.deep_view().take(i + 1).last() == ps.deep_view()[i as int]);
        }
        if i > 0 {
            out.push(' ');
        }
        let pc = chars_of(ps[i].as_str());
        push_range(&mut out, &pc, 0, pc.len());
        proof {
            assert(pc@.subrange(0, pc@.len() as int) =~= pc@);
            if i == 0 {
                assert(out@ =~= join_spaces(ps.deep_view().take(1)));
            } else {
                assert(out@ =~= join_spaces(ps.deep_view().take(i as int)) + seq![' ']
                    + ps.deep_view()[i as int]);
            }
        }
        i = i + 1;
    }
    proof {
        assert(ps.deep_view().take(n as int) =~= ps.deep_view());
    }
    out
}

/// Whether `k` is already a key of the anchor map under construction.
pub open spec fn keys_contain(entries: Seq<(Seq<char>, Seq<char>)>, k: Seq<char>) -> bool {
    exists|j: int| 0 <= j < entries.len() && entries[j].0 == k
}

/// The anchor map an extraction produces: each anchor's `href` resolved
/// against the base URL and fragment-stripped, kept when it is `http`/`https`
/// and its normalized visible text (cut to the anchor ceiling) is non-empty;
/// the first anchor text seen for a normalized URL wins.
pub open spec fn amap_rec(
    anchors: Seq<(Seq<char>, Seq<Seq<char>>)>,
    base: Seq<char>,
    have: Seq<(Seq<char>, Seq<char>)>,
) -> Seq<(Seq<char>, Seq<char>)>
    decreases anchors.len(),
{
    if anchors.len() == 0 {
        have
    } else {
        let href = anchors[0].0;
        let text = take_chars(
            normalize_text_spec(join_spaces(anchors[0].1)),
            MAX_ANCHOR_CHARS as int,
        );
        match url_resolve_of(base, href) {
            Some(u) => if is_http_scheme(u.scheme) && text.len() > 0 && !keys_contain(
                have,
                u.normalized,
            ) {
                amap_rec(anchors.skip(1), base, have.push((u.normalized, text)))
            } else {
                amap_rec(anchors.skip(1), base, have)
            },
            None => amap_rec(anchors.skip(1), base, have),
        }
    }
}

/// Anchor text by normalized URL, in first-seen order with distinct keys.
#[derive(Debug)]
pub struct AnchorMap {
    pub entries: Vec<(String, String)>,
}

/// The mathematical shape of an anchor map: key-value pairs in order.
pub open spec fn amap_view(entries: Seq<(String, String)>) -> Seq<(Seq<char>, Seq<char>)> {
    entries.map_values(|p: (String, String)| (p.0@, p.1@))
}

impl View for AnchorMap {
    type V = Seq<(Seq<char>, Seq<char>)>;

    open spec fn view(&self) -> Seq<(Seq<char>, Seq<char>)> {
        amap_view(self.entries@)
    }
}

/// The first value recorded under `k`, or empty text when none is.
pub open spec fn amap_lookup(entries: Seq<(Seq<char>, Seq<char>)>, k: Seq<char>) -> Seq<char>
    decreases entries.len(),
{
    if entries.len() == 0 {
        Seq::empty()
    } else if entries[0].0 == k {
        entries[0].1
    } else {
        amap_lookup(entries.skip(1), k)
    }
}

/// Whether `k` occurs among the keys of the entry list.
fn entries_have_key(v: &Vec<(String, String)>, k: &str) -> (r: bool)
    ensures
        r == keys_contain(amap_view(v@), k@),
{
    let n: usize = v.len();
    let mut i: usize = 0;
    while i < n
        invariant
            n == v@.len(),
            i <= n,
            forall|j: int| 0 <= j < i ==> amap_view(v@)[j].0 != k@,
        decreases n - i,
    {
        if str_eq(v[i].0.as_str(), k) {
            proof {
                assert(amap_view(v@)[i as int].0 == k@);
            }
            return true;
        }
        i = i + 1;
    }
    false
}

impl AnchorMap {
    /// The anchor text recorded for a normalized URL, or the empty string.
    pub fn lookup(&self, k: &str) -> (r: String)
        ensures
            r@ == amap_lookup(self@, k@),
    {
        let n: usize = self.entries.len();
        let mut i: usize = 0;
        proof {
            assert(self@.skip(0) =~= self@);
        }
        while i < n
            invariant
                n == self.entries@.len(),
                i <= n,
                amap_lookup(self@, k@) == amap_lookup(self@.skip(i as int), k@),
            decreases n - i,
        {
            proof {
                assert(self@.skip(i as int)[0] == self@[i as int]);
                assert(self@.skip(i as int).skip(1) =~= self@.skip(i + 1));
            }
            if str_eq(self.entries[i].0.as_str(), k) {
                return self.entries[i].1.clone();
            }
            i = i + 1;
        }
        proof {
            assert(self@.skip(n as int) =~= Seq::<(Seq<char>, Seq<char>)>::empty());
        }
        String::new()
    }

    /// Whether `k` is a recorded key.
    pub fn has_key(&self, k: &str) -> (r: bool)
        ensures
            r == keys_contain(self@, k@),
    {
        entries_have_key(&self.entries, k)
    }
}

/// Which content-root selector wins for this document, with its text pieces:
/// a primary-content container first, an article container, an explicit
/// main-role container, the document body last.
pub open spec fn root_choice(cleaned: Seq<char>) -> Option<(Seq<char>, Seq<Seq<char>>)> {
    if sel_first_text_of(cleaned, "main"@) is Some {
        Some(("main"@, sel_first_text_of(cleaned, "main"@)->Some_0))
    } else if sel_first_text_of(cleaned, "article"@) is Some {
        Some(("article"@, sel_first_text_of(cleaned, "article"@)->Some_0))
    } else if sel_first_text_of(cleaned, "[role=main]"@) is Some {
        Some(("[role=main]"@, sel_first_text_of(cleaned, "[role=main]"@)->Some_0))
    } else if sel_first_text_of(cleaned, "body"@) is Some {
        Some(("body"@, sel_first_text_of(cleaned, "body"@)->Some_0))
    } else {
        None
    }
}

/// What extraction yields for a page: nothing when no content root exists,
/// otherwise the bounded excerpt and the anchor map, both functions of the
/// base URL and the HTML text.
pub open spec fn extract_spec(base: Seq<char>, html: Seq<char>) -> Option<
    (Seq<char>, Seq<(Seq<char>, Seq<char>)>),
> {
    let cleaned = strip_tag_blocks_spec(html, "noscript"@);
    match root_choice(cleaned) {
        None => None,
        Some((sel, pieces)) => {
            let anchors = match sel_anchors_of(cleaned, sel) {
                Some(a) => a,
                None => Seq::empty(),
            };
            Some((excerpt_spec(pieces), amap_rec(anchors, base, Seq::empty())))
        },
    }
}

/// Extracts the excerpt and the anchor map from fetched HTML: strips
/// non-rendering `noscript` blocks, picks the content root by priority, and
/// fails only when no root (not even a body) exists.
pub fn extract_excerpt_and_anchor_map(base: &ParsedUrl, html: &str) -> (r: Option<
    (String, AnchorMap),
>)
    ensures
        match r {
            Some(p) => extract_spec(base@.normalized, html@) == Some((p.0@, p.1@)),
            None => extract_spec(base@.normalized, html@) is None,
        },
{
    let cleaned = strip_tag_blocks(html, "noscript");
    let chosen: Option<(&'static str, Vec<String>)> = match dom_first_text(
        cleaned.as_str(),
        "main",
    ) {
        Some(p) => Some(("main", p)),
        None => match dom_first_text(cleaned.as_str(), "article") {
            Some(p) => Some(("article", p)),
            None => match dom_first_text(cleaned.as_str(), "[role=main]") {
                Some(p) => Some(("[role=main]", p)),
                None => match dom_first_text(cleaned.as_str(), "body") {
                    Some(p) => Some(("body", p)),
                    None => None,
                },
            },
        },
    };
    let (sel, pieces) = match chosen {
        Some(sp) => sp,
        None => {
            return None;
        },
    };
    let raw = gather_pieces(&pieces);
    let raw_s = string_from_chars(&raw);
    let normalized = normalize_text(raw_s.as_str());
    let excerpt = truncate_chars(normalized.as_str(), MAX_EXCERPT_CHARS);
    let anchors: Vec<Anchor> = match dom_first_anchors(cleaned.as_str(), sel) {
        Some(a) => a,
        None => Vec::new(),
    };
    let ghost cleaned_v = cleaned@;
    let ghost anchors_v = anchors.deep_view();
    let mut entries: Vec<(String, String)> = Vec::new();
    let n: usize = anchors.len();
    let mut i: usize = 0;
    proof {
        assert(anchors_v.skip(0) =~= anchors_v);
        assert(amap_view(entries@) =~= Seq::<(Seq<char>, Seq<char>)>::empty());
    }
    while i < n
        invariant
            n == anchors_v.len(),
            anchors_v == anchors.deep_view(),
            i <= n,
            base@.normalized == base.normalized@,
            amap_rec(anchors_v, base.normalized@, Seq::empty()) == amap_rec(
                anchors_v.skip(i as int),
                base.normalized@,
                amap_view(entries@),
            ),
        decreases n - i,
    {
        let ghost rest = anchors_v.skip(i as int);
        let ghost have_old = amap_view(entries@);
        proof {
            assert(rest[0] == anchors_v[i as int]);
            assert(rest.skip(1) =~= anchors_v.skip(i + 1));
        }
        let joined = join_pieces(&anchors[i].text_pieces);
        let joined_s = string_from_chars(&joined);
        let text_n = normalize_text(joined_s.as_str());
        let text = truncate_chars(text_n.as_str(), MAX_ANCHOR_CHARS);
        let nonempty = !text.as_str().is_empty();
        match resolve_url(base.normalized.as_str(), anchors[i].href.as_str()) {
            Some(u) => {
                let ghost u_m = u@;
                let ghost text_v = text@;
                let dup = entries_have_key(&entries, u.normalized.as_str());
                if crate::urls::has_http_scheme(&u) && nonempty && !dup {
                    entries.push((u.normalized, text));
                    proof {
                        assert(amap_view(entries@) =~= have_old.push((u_m.normalized, text_v)));
                    }
                }
            },
            None => {},
        }
        i = i + 1;
    }
    proof {
        assert(anchors_v.skip(n as int) =~= Seq::<(Seq<char>, Seq<Seq<char>>)>::empty());
    }
    Some((excerpt, AnchorMap { entries }))
}

} // verus!
