//! What a web search found, as numbered lines of text.

use vstd::prelude::*;
use vstd::slice::slice_subrange;
use vstd::string::*;
use vstd::utf8::{encode_utf8, is_ascii_chars};
use crate::decimal::{decimal, natural_text};
use crate::html::{lowercase, stripped, try_strip_html};
use crate::json::{json_document, read_json, text_or_empty, trees, Json, JsonTree};
use crate::percent::{decoded, encoded, encoded_is_safe, encoding_is_undone, text_in, try_percent_decode};
use crate::text::{cat, chars_of, extend, find, find_char, find_char_from, find_char_is_first, find_from, find_is_first, find_text, matches_at, matches_here, part, text_of, trim_text, trimmed};

verus! {

/// A page that a search found.
#[derive(Debug)]
pub struct SearchHit {
    pub title: String,
    pub url: String,
    pub snippet: String,
}

/// What a [`SearchHit`] says.
pub struct Hit {
    pub title: Seq<char>,
    pub url: Seq<char>,
    pub snippet: Seq<char>,
}

impl View for SearchHit {
    type V = Hit;

    open spec fn view(&self) -> Hit {
        Hit { title: self.title@, url: self.url@, snippet: self.snippet@ }
    }
}

pub open spec fn hit_views(v: Seq<SearchHit>) -> Seq<Hit> {
    v.map_values(|h: SearchHit| h@)
}

/// The readable text of a piece of a page.
pub open spec fn plain(s: Seq<char>) -> Option<Seq<char>> {
    stripped(s, lowercase(s))
}

/// `s` with `by` in place of each `pat`, found from the left.
pub open spec fn replaced(s: Seq<char>, pat: Seq<char>, by: Seq<char>) -> Seq<char>
    decreases s.len(),
{
    match find(s, pat, 0) {
        Some(i) => if pat.len() > 0 && 0 <= i && i + pat.len() <= s.len() {
            s.take(i) + by + replaced(s.skip(i + pat.len()), pat, by)
        } else {
            s
        },
        None => s,
    }
}

/// The text of the link whose tag ends behind character `q` of `chunk`: what stands between
/// the end of the tag and the closing tag.
pub open spec fn link_text(chunk: Seq<char>, q: int) -> Option<Seq<char>> {
    match find_char(chunk, '>', q) {
        Some(te) => match find(chunk, "</a>"@, te + 1) {
            Some(ae) => plain(chunk.subrange(te + 1, ae)),
            None => Some(Seq::empty()),
        },
        None => Some(Seq::empty()),
    }
}

/// The description that goes with a hit.
pub open spec fn snippet_text(chunk: Seq<char>) -> Option<Seq<char>> {
    match find(chunk, "result__snippet"@, 0) {
        Some(sp) => link_text(chunk.skip(sp), 0),
        None => Some(Seq::empty()),
    }
}

/// The address behind `uddg=`, up to the next parameter, decoded; any other address as it is.
pub open spec fn target(url: Seq<char>) -> Option<Seq<char>> {
    match find(url, "uddg="@, 0) {
        Some(u) => {
            let tail = url.skip(u + 5);
            let value = match find_char(tail, '&', 0) {
                Some(e) => tail.take(e),
                None => tail,
            };
            match decoded(encode_utf8(value)) {
                Some(b) => Some(text_in(b)),
                None => None,
            }
        },
        None => Some(url),
    }
}

/// An address without a scheme gets one.
pub open spec fn with_scheme(url: Seq<char>) -> Seq<char> {
    if matches_at(url, 0, "//"@) {
        "https:"@ + url
    } else {
        url
    }
}

/// The address that a link of the result page leads to.
pub open spec fn link_target(href: Seq<char>) -> Option<Seq<char>> {
    match target(replaced(href, "&amp;"@, "&"@)) {
        Some(u) => Some(with_scheme(u)),
        None => None,
    }
}

/// `rest` from 10 bytes behind `pos` on, where the mark `result__a` stands; `None` where no
/// character starts there.
pub open spec fn past_mark(rest: Seq<char>, pos: int) -> Option<Seq<char>> {
    if pos + 9 < rest.len() && (rest[pos + 9] as u32) < 128 {
        Some(rest.skip(pos + 10))
    } else {
        None
    }
}

/// `more` with `h` before it.
pub open spec fn with_hit(h: Hit, more: Option<Seq<Hit>>) -> Option<Seq<Hit>> {
    match more {
        Some(s) => Some(seq![h] + s),
        None => None,
    }
}

/// The first `room` hits of a result page. `None` where the page cannot be taken apart: a
/// piece of it cannot be read, or is cut in the middle of a character.
pub open spec fn hits(rest: Seq<char>, room: int) -> Option<Seq<Hit>>
    decreases rest.len(),
{
    if room <= 0 {
        Some(Seq::empty())
    } else {
        match find(rest, "result__a"@, 0) {
            None => Some(Seq::empty()),
            Some(pos) => {
                let chunk = rest.skip(pos);
                proof {
                    find_is_first(rest, "result__a"@, 0);
                }
                match find(chunk, "href=\""@, 0) {
                    None => match past_mark(rest, pos) {
                        Some(next) => hits(next, room),
                        None => None,
                    },
                    Some(hpos) => match find_char(chunk, '"', hpos + 6) {
                        None => Some(Seq::empty()),
                        Some(q) => match (
                            link_text(chunk, q),
                            snippet_text(chunk),
                            link_target(chunk.subrange(hpos + 6, q)),
                            past_mark(rest, pos),
                        ) {
                            (Some(title), Some(snippet), Some(url), Some(next)) => if url.len() > 0
                                && title.len() > 0 {
                                with_hit(Hit { title, url, snippet }, hits(next, room - 1))
                            } else {
                                hits(next, room)
                            },
                            _ => None,
                        },
                    },
                }
            },
        }
    }
}

/// A hit as it is shown.
pub open spec fn hit_lines(number: nat, h: Hit) -> Seq<char> {
    decimal(number) + ". "@ + h.title + " — "@ + h.url + "\n   "@ + h.snippet + "\n"@
}

/// The hits as they are shown, numbered from 1.
pub open spec fn listing(h: Seq<Hit>) -> Seq<char>
    decreases h.len(),
{
    if h.len() == 0 {
        Seq::empty()
    } else {
        listing(h.drop_last()) + hit_lines(h.len(), h.last())
    }
}

/// What is shown where nothing was found.
pub open spec fn nothing_found() -> Seq<char> {
    "(no results parsed — try web_fetch on a known URL)"@
}

/// A result page as it is shown.
pub open spec fn page_listing(body: Seq<char>) -> Option<Seq<char>> {
    match hits(body, 6) {
        Some(h) => Some(
            "Web search results:\n"@ + if h.len() == 0 {
                nothing_found()
            } else {
                listing(h)
            },
        ),
        None => None,
    }
}

fn replace_all(s: &[char], pat: &str, by: &str) -> (r: Vec<char>)
    requires
        pat@.len() > 0,
    ensures
        r@ == replaced(s@, pat@, by@),
{
    let n: usize = s.len();
    let p = chars_of(pat);
    let b = chars_of(by);
    let mut out: Vec<char> = Vec::new();
    let mut start: usize = 0;
    assert(s@.skip(0) =~= s@);
    assert(out@ + replaced(s@, pat@, by@) =~= replaced(s@, pat@, by@));
    loop
        invariant
            n == s@.len(),
            start <= n,
            p@ == pat@,
            b@ == by@,
            pat@.len() > 0,
            replaced(s@, pat@, by@) == out@ + replaced(s@.skip(start as int), pat@, by@),
        decreases n - start,
    {
        let rest = slice_subrange(s, start, n);
        assert(rest@ =~= s@.skip(start as int));
        let ghost prior = out@;
        match find_from(rest, p.as_slice(), 0) {
            Some(i) => {
                let head = slice_subrange(rest, 0, i);
                assert(head@ =~= rest@.take(i as int));
                extend(&mut out, head);
                extend(&mut out, b.as_slice());
                assert(rest@.skip(i + p@.len()) =~= s@.skip(start + i + p@.len()));
                assert(prior + (head@ + by@ + replaced(rest@.skip(i + p@.len()), pat@, by@)) =~= out@
                    + replaced(rest@.skip(i + p@.len()), pat@, by@));
                start = start + i + p.len();
            },
            None => {
                extend(&mut out, rest);
                return out;
            },
        }
    }
}

proof fn replaced_is_ascii(s: Seq<char>, pat: Seq<char>, by: Seq<char>)
    requires
        is_ascii_chars(s),
        is_ascii_chars(by),
    ensures
        is_ascii_chars(replaced(s, pat, by)),
    decreases s.len(),
{
    if let Some(i) = find(s, pat, 0) {
        if pat.len() > 0 && 0 <= i && i + pat.len() <= s.len() {
            let rest = replaced(s.skip(i + pat.len()), pat, by);
            replaced_is_ascii(s.skip(i + pat.len()), pat, by);
            let all = s.take(i) + by + rest;
            assert forall|k: int| 0 <= k < all.len() implies '\0' <= #[trigger] all[k] <= '\u{7f}' by {
                if k < i {
                    assert(all[k] == s[k]);
                } else if k < i + by.len() {
                    assert(all[k] == by[k - i]);
                } else {
                    assert(all[k] == rest[k - i - by.len()]);
                }
            }
        }
    }
}

fn link_text_of(chunk: &[char], q: usize) -> (r: Option<String>)
    ensures
        is_ascii_chars(chunk@) ==> r is Some,
        r is Some == link_text(chunk@, q as int) is Some,
        r matches Some(t) ==> link_text(chunk@, q as int) == Some(t@),
{
    match find_char_from(chunk, '>', q) {
        Some(te) => match find_text(chunk, "</a>", te + 1) {
            Some(ae) => {
                let piece = part(chunk, te + 1, ae);
                try_strip_html(text_of(piece.as_slice()).as_str())
            },
            None => Some(String::new()),
        },
        None => Some(String::new()),
    }
}

fn snippet_text_of(chunk: &[char]) -> (r: Option<String>)
    ensures
        is_ascii_chars(chunk@) ==> r is Some,
        r is Some == snippet_text(chunk@) is Some,
        r matches Some(t) ==> snippet_text(chunk@) == Some(t@),
{
    match find_text(chunk, "result__snippet", 0) {
        Some(sp) => {
            let s = slice_subrange(chunk, sp, chunk.len());
            assert(s@ =~= chunk@.skip(sp as int));
            link_text_of(s, 0)
        },
        None => Some(String::new()),
    }
}

fn link_target_of(href: &[char]) -> (r: Option<String>)
    ensures
        is_ascii_chars(href@) ==> r is Some,
        r is Some == link_target(href@) is Some,
        r matches Some(t) ==> link_target(href@) == Some(t@),
{
    proof {
        reveal_strlit("&amp;");
        reveal_strlit("uddg=");
        reveal_strlit("&");
        if is_ascii_chars(href@) {
            replaced_is_ascii(href@, "&amp;"@, "&"@);
        }
    }
    let url = replace_all(href, "&amp;", "&");
    let u = url.as_slice();
    let found = match find_text(u, "uddg=", 0) {
        Some(i) => {
            let tail = slice_subrange(u, i + 5, u.len());
            assert(tail@ =~= url@.skip(i + 5));
            let end: usize = match find_char_from(tail, '&', 0) {
                Some(e) => e,
                None => tail.len(),
            };
            let value = part(tail, 0, end);
            assert(value@ =~= match find_char(tail@, '&', 0) {
                Some(e) => tail@.take(e),
                None => tail@,
            });
            match try_percent_decode(text_of(value.as_slice()).as_str()) {
                Some(t) => t,
                None => {
                    return None;
                },
            }
        },
        None => text_of(u),
    };
    let f = chars_of(found.as_str());
    if matches_here(f.as_slice(), 0, chars_of("//").as_slice()) {
        Some(cat("https:", found.as_str()))
    } else {
        Some(found)
    }
}

fn read_hit(chunk: &[char], hpos: usize, q: usize) -> (r: Option<SearchHit>)
    requires
        hpos + 6 <= q <= chunk@.len() <= usize::MAX,
    ensures
        is_ascii_chars(chunk@) ==> r is Some,
        match (
            link_text(chunk@, q as int),
            snippet_text(chunk@),
            link_target(chunk@.subrange(hpos + 6, q as int)),
        ) {
            (Some(title), Some(snippet), Some(url)) => r matches Some(h) && h@ == (Hit { title, url, snippet }),
            _ => r is None,
        },
{
    let href = slice_subrange(chunk, hpos + 6, q);
    match link_text_of(chunk, q) {
        Some(title) => match snippet_text_of(chunk) {
            Some(snippet) => match link_target_of(href) {
                Some(url) => Some(SearchHit { title, url, snippet }),
                None => None,
            },
            None => None,
        },
        None => None,
    }
}

/// A page ends in the mark `result__a`.
pub open spec fn ends_in_mark(body: Seq<char>) -> bool {
    matches_at(body, body.len() - 9, "result__a"@)
}

/// A page is ASCII and does not end in the mark of a hit.
#[verifier::opaque]
spec fn whole_page(body: Seq<char>) -> bool {
    is_ascii_chars(body) && !ends_in_mark(body)
}

proof fn whole_page_is_read(body: Seq<char>, start: int, pos: int)
    requires
        whole_page(body),
        0 <= start <= body.len(),
        matches_at(body.skip(start), pos, "result__a"@),
    ensures
        is_ascii_chars(body.skip(start).skip(pos)),
        past_mark(body.skip(start), pos) is Some,
{
    reveal(whole_page);
    reveal_strlit("result__a");
    let rest = body.skip(start);
    if pos + 9 == rest.len() {
        assert(rest.subrange(pos, pos + 9) =~= body.subrange(body.len() - 9, body.len() as int));
    } else {
        assert(rest[pos + 9] == body[start + pos + 9]);
    }
}

/// The first `room` hits of a result page; `None` where the page cannot be taken apart. An ASCII
/// page can be, unless it ends in the mark.
#[verifier::rlimit(40)]
pub fn find_hits(body: &str, room: usize) -> (r: Option<Vec<SearchHit>>)
    ensures
        is_ascii_chars(body@) && !ends_in_mark(body@) ==> r is Some,
        r is Some == hits(body@, room as int) is Some,
        r matches Some(v) ==> hits(body@, room as int) == Some(hit_views(v@)) && v@.len() <= room,
{
    proof {
        reveal(whole_page);
        reveal_strlit("result__a");
        reveal_strlit("href=\"");
    }
    let all = chars_of(body);
    let n: usize = all.len();
    let mut out: Vec<SearchHit> = Vec::new();
    let mut start: usize = 0;
    let ghost whole = hits(body@, room as int);
    assert(all@.skip(0) =~= all@);
    proof {
        if whole is Some {
            assert(hit_views(out@) + whole->0 =~= whole->0);
        }
    }
    while out.len() < room
        invariant
            n == all@.len(),
            start <= n,
            all@ == body@,
            is_ascii_chars(body@) && !ends_in_mark(body@) ==> whole_page(body@),
            "result__a"@.len() == 9,
            "href=\""@.len() == 6,
            whole == hits(body@, room as int),
            out@.len() <= room,
            match hits(all@.skip(start as int), room - out@.len()) {
                Some(more) => whole == Some(hit_views(out@) + more),
                None => whole is None,
            },
        ensures
            whole == Some(hit_views(out@)),
            out@.len() <= room,
        decreases n - start,
    {
        let rest = slice_subrange(all.as_slice(), start, n);
        assert(rest@ =~= all@.skip(start as int));
        let ghost prior = hit_views(out@);
        assert(prior + Seq::<Hit>::empty() =~= prior);
        let pos: usize = match find_text(rest, "result__a", 0) {
            Some(p) => p,
            None => {
                break;
            },
        };
        let chunk = slice_subrange(rest, pos, rest.len());
        assert(chunk@ =~= rest@.skip(pos as int));
        let next_ok = pos + 9 < rest.len() && (rest[pos + 9] as u32) < 128;
        proof {
            if whole_page(body@) {
                whole_page_is_read(body@, start as int, pos as int);
            }
        }
        match find_text(chunk, "href=\"", 0) {
            None => {
                if !next_ok {
                    return None;
                }
                assert(rest@.skip(pos + 10) =~= all@.skip(start + pos + 10));
            },
            Some(hpos) => {
                let q: usize = match find_char_from(chunk, '"', hpos + 6) {
                    Some(q) => q,
                    None => {
                        break;
                    },
                };
                let h = match read_hit(chunk, hpos, q) {
                    Some(h) => h,
                    None => {
                        return None;
                    },
                };
                if !next_ok {
                    return None;
                }
                assert(rest@.skip(pos + 10) =~= all@.skip(start + pos + 10));
                if !h.url.as_str().is_empty() && !h.title.as_str().is_empty() {
                    out.push(h);
                    assert(hit_views(out@) =~= prior.push(h@));
                    proof {
                        let more = hits(all@.skip(start + pos + 10), room - out@.len());
                        if more is Some {
                            assert(prior + (seq![h@] + more->0) =~= hit_views(out@) + more->0);
                        }
                    }
                }
            },
        }
        start = start + pos + 10;
    }
    Some(out)
}

fn push_hit(out: &mut String, number: u64, title: &str, url: &str, snippet: &str)
    ensures
        final(out)@ == old(out)@ + hit_lines(number as nat, Hit { title: title@, url: url@, snippet: snippet@ }),
{
    let ghost start = out@;
    out.append(natural_text(number).as_str());
    out.append(". ");
    out.append(title);
    out.append(" — ");
    out.append(url);
    out.append("\n   ");
    out.append(snippet);
    out.append("\n");
    assert(out@ =~= start + hit_lines(number as nat, Hit { title: title@, url: url@, snippet: snippet@ }));
}

fn show_hits(h: &Vec<SearchHit>) -> (r: String)
    ensures
        r@ == listing(hit_views(h@)),
{
    let n: usize = h.len();
    let mut out = String::new();
    let ghost all = hit_views(h@);
    for i in 0..n
        invariant
            n == h@.len(),
            all == hit_views(h@),
            out@ == listing(all.take(i as int)),
    {
        push_hit(&mut out, i as u64 + 1, h[i].title.as_str(), h[i].url.as_str(), h[i].snippet.as_str());
        assert(all.take(i + 1).drop_last() =~= all.take(i as int));
        assert(all.take(i + 1).last() == h@[i as int]@);
    }
    assert(all.take(n as int) =~= all);
    out
}

fn show_page(h: &Vec<SearchHit>) -> (r: String)
    ensures
        r@ == "Web search results:\n"@ + if h@.len() == 0 {
            nothing_found()
        } else {
            listing(hit_views(h@))
        },
{
    if h.len() == 0 {
        cat("Web search results:\n", "(no results parsed — try web_fetch on a known URL)")
    } else {
        cat("Web search results:\n", show_hits(h).as_str())
    }
}

/// The hits of a result page of DuckDuckGo, as they are shown.
pub fn parse_ddg_results(body: &str) -> (r: String)
    requires
        page_listing(body@) is Some,
    ensures
        page_listing(body@) == Some(r@),
{
    match find_hits(body, 6) {
        Some(h) => show_page(&h),
        None => String::new(),
    }
}

/// The hits of a result page of DuckDuckGo, as they are shown; `None` where the page cannot be
/// taken apart. An ASCII page can be, unless it ends in the mark of a hit.
pub fn try_parse_ddg_results(body: &str) -> (r: Option<String>)
    ensures
        is_ascii_chars(body@) && !ends_in_mark(body@) ==> r is Some,
        r is Some == page_listing(body@) is Some,
        r matches Some(t) ==> page_listing(body@) == Some(t@),
{
    if find_hits(body, 6).is_some() {
        Some(parse_ddg_results(body))
    } else {
        None
    }
}

/// The `k`-th entry of an answer of Brave Search as it is shown, counted from 0: not at all
/// where it has no title or no address. `None` where its description cannot be read.
pub open spec fn brave_entry(entry: JsonTree, k: nat) -> Option<Seq<char>> {
    let title = trimmed(text_or_empty(entry.at("title"@)));
    let url = trimmed(text_or_empty(entry.at("url"@)));
    match plain(text_or_empty(entry.at("description"@))) {
        Some(d) => Some(
            if title.len() > 0 && url.len() > 0 {
                hit_lines(k + 1, Hit { title, url, snippet: trimmed(d) })
            } else {
                Seq::empty()
            },
        ),
        None => None,
    }
}

/// The entries of an answer as they are shown.
pub open spec fn brave_entries(entries: Seq<JsonTree>) -> Option<Seq<char>>
    decreases entries.len(),
{
    if entries.len() == 0 {
        Some(Seq::empty())
    } else {
        match (brave_entries(entries.drop_last()), brave_entry(entries.last(), (entries.len() - 1) as nat)) {
            (Some(a), Some(b)) => Some(a + b),
            _ => None,
        }
    }
}

/// An answer of Brave Search as it is shown.
pub open spec fn brave_listing(v: JsonTree) -> Option<Seq<char>> {
    let shown = match v.at("web"@).at("results"@).as_items() {
        Some(entries) => brave_entries(entries),
        None => Some(Seq::empty()),
    };
    match shown {
        Some(t) => Some(
            if t.len() == 0 {
                nothing_found()
            } else {
                t
            },
        ),
        None => None,
    }
}

/// The descriptions in an answer of Brave Search are ASCII.
pub open spec fn brave_is_ascii(v: JsonTree) -> bool {
    v.at("web"@).at("results"@).as_items() matches Some(entries) ==> forall|i: int|
        0 <= i < entries.len() ==> is_ascii_chars(text_or_empty(#[trigger] entries[i].at("description"@)))
}

/// The member of an object, and null where there is none.
fn at<'a>(v: &'a Json, key: &str, null: &'a Json) -> (r: &'a Json)
    requires
        null.tree() == JsonTree::Null,
    ensures
        r.tree() == v.tree().at(key@),
{
    match v.get(key) {
        Some(m) => m,
        None => null,
    }
}

proof fn brave_prefix_fails(entries: Seq<JsonTree>, k: int)
    requires
        0 <= k <= entries.len(),
        brave_entries(entries.take(k)) is None,
    ensures
        brave_entries(entries) is None,
    decreases entries.len() - k,
{
    if k < entries.len() {
        assert(entries.take(k + 1).drop_last() =~= entries.take(k));
        brave_prefix_fails(entries, k + 1);
    } else {
        assert(entries.take(k) =~= entries);
    }
}

/// An answer of Brave Search as it is shown; `None` where a description in it cannot be read. An
/// ASCII description can be.
pub fn show_brave_results(v: &Json) -> (r: Option<String>)
    ensures
        brave_is_ascii(v.tree()) ==> r is Some,
        r is Some == brave_listing(v.tree()) is Some,
        r matches Some(t) ==> brave_listing(v.tree()) == Some(t@),
{
    let mut out = String::new();
    let null = Json::Null;
    let web = at(v, "web", &null);
    let results = at(web, "results", &null);
    match results.as_items() {
        Some(entries) => {
            let n: usize = entries.len();
            let ghost all = trees(entries@);
            for i in 0..n
                invariant
                    n == entries@.len(),
                    all == trees(entries@),
                    v.tree().at("web"@).at("results"@).as_items() == Some(all),
                    brave_listing(v.tree()) is Some == brave_entries(all) is Some,
                    brave_entries(all.take(i as int)) == Some(out@),
            {
                assert(all.take(i + 1).drop_last() =~= all.take(i as int));
                assert(all.take(i + 1).last() == entries@[i as int].tree());
                let e = &entries[i];
                let title = trim_text(e.text_or_empty_at("title"));
                let link = trim_text(e.text_or_empty_at("url"));
                match try_strip_html(e.text_or_empty_at("description")) {
                    Some(d) => {
                        if !title.as_str().is_empty() && !link.as_str().is_empty() {
                            let desc = trim_text(d.as_str());
                            push_hit(&mut out, i as u64 + 1, title.as_str(), link.as_str(), desc.as_str());
                        } else {
                            assert(out@ + Seq::<char>::empty() =~= out@);
                        }
                    },
                    None => {
                        proof {
                            brave_prefix_fails(all, i + 1);
                        }
                        return None;
                    },
                }
            }
            assert(all.take(n as int) =~= all);
        },
        None => {},
    }
    if out.as_str().is_empty() {
        out.append("(no results parsed — try web_fetch on a known URL)");
        assert(out@ =~= nothing_found());
    }
    Some(out)
}

/// An answer of Brave Search as it is shown, or why it is no answer; `None` where a
/// description in it cannot be read.
pub fn read_brave_results(body: &str) -> (r: Option<Result<String, String>>)
    ensures
        match json_document(body@) {
            Ok(v) => {
                &&& brave_is_ascii(v) ==> r is Some
                &&& r is Some == brave_listing(v) is Some
                &&& r matches Some(shown) ==> shown is Ok && brave_listing(v) == Some(shown->Ok_0@)
            },
            Err(e) => r matches Some(Err(m)) && m@ == e,
        },
{
    match read_json(body) {
        Ok(v) => match show_brave_results(&v) {
            Some(t) => Some(Ok(t)),
            None => None,
        },
        Err(e) => Some(Err(e)),
    }
}

proof fn found_behind(p: Seq<char>, body: Seq<char>, pat: Seq<char>)
    requires
        forall|i: int| 0 <= i < p.len() ==> !#[trigger] matches_at(p + body, i, pat),
    ensures
        find(p + body, pat, 0) == (match find(body, pat, 0) {
            Some(i) => Some(i + p.len()),
            None => None,
        }),
{
    let all = p + body;
    assert forall|i: int| 0 <= i implies matches_at(all, i + p.len(), pat) == #[trigger] matches_at(body, i, pat) by {
        if i + pat.len() <= body.len() {
            assert(all.subrange(i + p.len(), i + p.len() + pat.len()) =~= body.subrange(i, i + pat.len()));
        }
    }
    find_is_first(all, pat, 0);
    find_is_first(body, pat, 0);
    match find(all, pat, 0) {
        Some(k) => {
            assert(k >= p.len());
            assert(matches_at(body, k - p.len(), pat));
            let i = find(body, pat, 0)->0;
            assert(matches_at(all, i + p.len(), pat));
        },
        None => {
            if let Some(i) = find(body, pat, 0) {
                assert(matches_at(all, i + p.len(), pat));
            }
        },
    }
}

/// What stands ahead of the first mark of a hit has no influence on the hits.
pub proof fn text_ahead_is_passed_over(p: Seq<char>, body: Seq<char>, room: int)
    requires
        forall|i: int| 0 <= i < p.len() ==> !#[trigger] matches_at(p + body, i, "result__a"@),
    ensures
        hits(p + body, room) == hits(body, room),
        page_listing(p + body) == page_listing(body),
{
    let all = p + body;
    found_behind(p, body, "result__a"@);
    if let Some(pos) = find(body, "result__a"@, 0) {
        find_is_first(body, "result__a"@, 0);
        assert(all.skip(pos + p.len()) =~= body.skip(pos));
        if past_mark(body, pos) is Some {
            assert(all.skip(pos + p.len() + 10) =~= body.skip(pos + 10));
        }
    }
}

/// Text without the letter with which the mark of a hit starts has no influence on the hits where
/// it stands ahead of a page.
pub proof fn text_without_mark_is_passed_over(p: Seq<char>, body: Seq<char>, room: int)
    requires
        !p.contains('r'),
    ensures
        hits(p + body, room) == hits(body, room),
        page_listing(p + body) == page_listing(body),
{
    reveal_strlit("result__a");
    let all = p + body;
    assert forall|i: int| 0 <= i < p.len() implies !#[trigger] matches_at(all, i, "result__a"@) by {
        if matches_at(all, i, "result__a"@) {
            assert(all.subrange(i, i + 9)[0] == 'r');
            assert(p[i] == 'r');
        }
    }
    text_ahead_is_passed_over(p, body, room);
}

/// There are never more hits than asked for.
pub proof fn hits_fit(rest: Seq<char>, room: int)
    requires
        0 <= room,
    ensures
        hits(rest, room) matches Some(h) ==> h.len() <= room,
    decreases rest.len(),
{
    if room > 0 {
        if let Some(pos) = find(rest, "result__a"@, 0) {
            find_is_first(rest, "result__a"@, 0);
            if let Some(next) = past_mark(rest, pos) {
                hits_fit(next, room);
                hits_fit(next, room - 1);
            }
        }
    }
}

/// Each hit that is shown has a title and an address.
pub proof fn hits_are_named(rest: Seq<char>, room: int, i: int)
    requires
        hits(rest, room) is Some,
        0 <= i < hits(rest, room)->0.len(),
    ensures
        hits(rest, room)->0[i].title.len() > 0,
        hits(rest, room)->0[i].url.len() > 0,
    decreases rest.len(),
{
    let pos = find(rest, "result__a"@, 0)->0;
    find_is_first(rest, "result__a"@, 0);
    let chunk = rest.skip(pos);
    let next = past_mark(rest, pos)->0;
    if find(chunk, "href=\""@, 0) is None {
        hits_are_named(next, room, i);
    } else {
        let hpos = find(chunk, "href=\""@, 0)->0;
        let q = find_char(chunk, '"', hpos + 6)->0;
        let title = link_text(chunk, q)->0;
        let url = link_target(chunk.subrange(hpos + 6, q))->0;
        if url.len() > 0 && title.len() > 0 {
            if i > 0 {
                hits_are_named(next, room - 1, i - 1);
            }
        } else {
            hits_are_named(next, room, i);
        }
    }
}

proof fn found_at(s: Seq<char>, pat: Seq<char>, i: int)
    requires
        matches_at(s, i, pat),
        forall|j: int| 0 <= j < i ==> !#[trigger] matches_at(s, j, pat),
    ensures
        find(s, pat, 0) == Some(i),
{
    find_is_first(s, pat, 0);
    if let Some(k) = find(s, pat, 0) {
        if k > i {
            assert(matches_at(s, i, pat));
        }
        if k < i {
            assert(matches_at(s, k, pat));
        }
    }
}

proof fn char_found_at(s: Seq<char>, c: char, i: int)
    requires
        0 <= i < s.len(),
        s[i] == c,
        forall|j: int| 0 <= j < i ==> #[trigger] s[j] != c,
    ensures
        find_char(s, c, 0) == Some(i),
{
    find_char_is_first(s, c, 0);
}

/// Where a text that holds no `pat` is followed by one that begins with the first character of
/// `pat`, no `pat` begins in the first text.
proof fn nothing_straddles(s: Seq<char>, t: Seq<char>, pat: Seq<char>, j: int)
    requires
        pat.len() > 0,
        0 <= j < s.len(),
        forall|i: int| !#[trigger] matches_at(s, i, pat),
        t.len() > 0,
        forall|i: int| 0 < i < pat.len() ==> #[trigger] pat[i] != t[0],
    ensures
        !matches_at(s + t, j, pat),
{
    let all = s + t;
    if matches_at(all, j, pat) {
        let sub = all.subrange(j, j + pat.len());
        if j + pat.len() <= s.len() {
            assert(s.subrange(j, j + pat.len()) =~= sub);
            assert(matches_at(s, j, pat));
        } else {
            let k = s.len() - j;
            assert(sub[k] == t[0]);
            assert(pat[k] == t[0]);
        }
    }
}

proof fn match_in_front(s: Seq<char>, t: Seq<char>, pat: Seq<char>, j: int)
    requires
        0 <= j,
        j + pat.len() <= s.len(),
    ensures
        matches_at(s + t, j, pat) == matches_at(s, j, pat),
{
    assert((s + t).subrange(j, j + pat.len()) =~= s.subrange(j, j + pat.len()));
}

proof fn match_behind(s: Seq<char>, t: Seq<char>, pat: Seq<char>, j: int)
    requires
        0 <= j,
    ensures
        matches_at(s + t, s.len() + j, pat) == matches_at(t, j, pat),
{
    if j + pat.len() <= t.len() {
        assert((s + t).subrange(s.len() + j, s.len() + j + pat.len()) =~= t.subrange(j, j + pat.len()));
    }
}

/// Replacing goes on apart in two texts where nothing that is replaced begins in the first and
/// ends in the second.
proof fn replaced_apart(s: Seq<char>, t: Seq<char>, pat: Seq<char>, by: Seq<char>)
    requires
        pat.len() > 0,
        t.len() > 0 ==> forall|i: int| 0 < i < pat.len() ==> #[trigger] pat[i] != t[0],
    ensures
        replaced(s + t, pat, by) == replaced(s, pat, by) + replaced(t, pat, by),
    decreases s.len(),
{
    let all = s + t;
    find_is_first(s, pat, 0);
    match find(s, pat, 0) {
        Some(i) => {
            match_in_front(s, t, pat, i);
            assert forall|j: int| 0 <= j < i implies !#[trigger] matches_at(all, j, pat) by {
                if j + pat.len() <= s.len() {
                    match_in_front(s, t, pat, j);
                }
            }
            found_at(all, pat, i);
            let rest = s.skip(i + pat.len());
            replaced_apart(rest, t, pat, by);
            assert(all.skip(i + pat.len()) =~= rest + t);
            assert(all.take(i) =~= s.take(i));
            assert(s.take(i) + by + (replaced(rest, pat, by) + replaced(t, pat, by)) =~= s.take(i) + by + replaced(
                rest,
                pat,
                by,
            ) + replaced(t, pat, by));
        },
        None => {
            if t.len() == 0 {
                assert(all =~= s);
                find_is_first(t, pat, 0);
                assert(replaced(t, pat, by) =~= Seq::<char>::empty());
                assert(replaced(s, pat, by) + replaced(t, pat, by) =~= s);
            } else {
                assert forall|i: int| !#[trigger] matches_at(s, i, pat) by {}
                assert forall|j: int| 0 <= j < s.len() implies !#[trigger] matches_at(all, j, pat) by {
                    nothing_straddles(s, t, pat, j);
                }
                found_behind(s, t, pat);
                if let Some(i) = find(t, pat, 0) {
                    find_is_first(t, pat, 0);
                    let rest = t.skip(i + pat.len());
                    assert(all.skip(s.len() + i + pat.len()) =~= rest);
                    assert(all.take(s.len() + i) =~= s + t.take(i));
                    assert(s + t.take(i) + by + replaced(rest, pat, by) =~= s + (t.take(i) + by + replaced(
                        rest,
                        pat,
                        by,
                    )));
                }
            }
        },
    }
}

/// A text that does not hold what is put in is found after replacing only where it was before.
proof fn found_before_replacing(s: Seq<char>, pat: Seq<char>, by: char, what: Seq<char>, j: int)
    requires
        pat.len() > 0,
        !what.contains(by),
        what.len() > 0,
        matches_at(replaced(s, pat, seq![by]), j, what),
    ensures
        exists|i: int| #[trigger] matches_at(s, i, what),
    decreases s.len(),
{
    find_is_first(s, pat, 0);
    match find(s, pat, 0) {
        Some(i) => {
            let rest = s.skip(i + pat.len());
            let front = s.take(i);
            let tail = replaced(rest, pat, seq![by]);
            let all = front + seq![by] + tail;
            let sub = all.subrange(j, j + what.len());
            if j + what.len() <= i {
                assert(s.subrange(j, j + what.len()) =~= sub);
                assert(matches_at(s, j, what));
            } else if j <= i {
                assert(sub[i - j] == by);
                assert(what.contains(what[i - j]));
            } else {
                let k = j - i - 1;
                assert(tail.subrange(k, k + what.len()) =~= sub);
                found_before_replacing(rest, pat, by, what, k);
                let m = choose|m: int| #[trigger] matches_at(rest, m, what);
                assert(s.subrange(i + pat.len() + m, i + pat.len() + m + what.len()) =~= rest.subrange(
                    m,
                    m + what.len(),
                ));
                assert(matches_at(s, i + pat.len() + m, what));
            }
        },
        None => {},
    }
}

/// A link through `uddg=` leads to the address that is written there, in full, with its own
/// parameters: what stands before it, and the further parameters of the link behind a `&` or a
/// `&amp;`, make no difference. An address without a scheme gets one.
pub proof fn redirect_leads_to_its_target(prefix: Seq<char>, t: Seq<char>, more: Seq<char>)
    requires
        forall|i: int| !#[trigger] matches_at(prefix, i, "uddg="@),
        more.len() > 0 ==> more[0] == '&',
    ensures
        link_target(prefix + "uddg="@ + encoded(encode_utf8(t)) + more) == Some(
            if t.len() >= 2 && t[0] == '/' && t[1] == '/' {
                "https:"@ + t
            } else {
                t
            },
        ),
{
    let amp = "&amp;"@;
    let mark = "uddg="@;
    let code = encoded(encode_utf8(t));
    reveal_strlit("&amp;");
    reveal_strlit("&");
    reveal_strlit("uddg=");
    reveal_strlit("//");
    assert("&"@ =~= seq!['&']);
    assert(amp.len() == 5 && mark.len() == 5);
    assert(amp[0] == '&' && amp[1] == 'a' && amp[2] == 'm' && amp[3] == 'p' && amp[4] == ';');
    assert(mark[0] == 'u' && mark[1] == 'd' && mark[2] == 'd' && mark[3] == 'g' && mark[4] == '=');
    let middle = mark + code;
    let href = prefix + mark + code + more;
    assert forall|i: int| 0 <= i < middle.len() implies #[trigger] middle[i] != '&' by {
        if i >= 5 {
            encoded_is_safe(encode_utf8(t), i - 5);
            assert(middle[i] == code[i - 5]);
        }
    }
    // The link with `&` for `&amp;`.
    let front = replaced(prefix, amp, "&"@);
    let behind = replaced(more, amp, "&"@);
    assert(href =~= prefix + (middle + more));
    replaced_apart(prefix, middle + more, amp, "&"@);
    replaced_apart(middle, more, amp, "&"@);
    find_is_first(middle, amp, 0);
    if let Some(i) = find(middle, amp, 0) {
        assert(middle.subrange(i, i + 5)[0] == '&');
    }
    assert(replaced(middle, amp, "&"@) == middle);
    let url = front + (middle + behind);
    assert(replaced(href, amp, "&"@) == url);
    find_is_first(more, amp, 0);
    if more.len() == 0 {
        assert(behind =~= Seq::<char>::empty());
    } else {
        assert(behind.len() > 0 && behind[0] == '&') by {
            if let Some(i) = find(more, amp, 0) {
                assert(behind == more.take(i) + "&"@ + replaced(more.skip(i + 5), amp, "&"@));
                if i > 0 {
                    assert(behind[0] == more[0]);
                }
            }
        }
    }
    // The mark is found behind the front.
    assert forall|i: int| !#[trigger] matches_at(front, i, mark) by {
        if matches_at(front, i, mark) {
            assert(!mark.contains('&'));
            found_before_replacing(prefix, amp, '&', mark, i);
        }
    }
    assert forall|j: int| 0 <= j < front.len() implies !#[trigger] matches_at(url, j, mark) by {
        nothing_straddles(front, middle + behind, mark, j);
    }
    assert(url.subrange(front.len() as int, front.len() as int + 5) =~= mark);
    assert(matches_at(url, front.len() as int, mark));
    found_at(url, mark, front.len() as int);
    let tail = url.skip(front.len() as int + 5);
    assert(tail =~= code + behind);
    assert forall|i: int| 0 <= i < code.len() implies #[trigger] tail[i] != '&' by {
        assert(tail[i] == code[i]);
        assert(middle[i + 5] == code[i]);
    }
    find_char_is_first(tail, '&', 0);
    if behind.len() > 0 {
        assert(tail[code.len() as int] == '&');
        char_found_at(tail, '&', code.len() as int);
        assert(tail.take(code.len() as int) =~= code);
    } else {
        if let Some(e) = find_char(tail, '&', 0) {
            assert(tail[e] != '&');
        }
        assert(tail =~= code);
    }
    encoding_is_undone(t);
    assert(target(url) == Some(t));
    assert("//"@.len() == 2 && "//"@[0] == '/' && "//"@[1] == '/');
    if t.len() >= 2 && t[0] == '/' && t[1] == '/' {
        assert(t.subrange(0, 2) =~= "//"@);
    } else if matches_at(t, 0, "//"@) {
        assert(t.subrange(0, 2)[0] == '/' && t.subrange(0, 2)[1] == '/');
    }
}

/// A link without `uddg=` leads where it says, with `&` for `&amp;`.
pub proof fn plain_link_leads_where_it_says(href: Seq<char>)
    requires
        forall|i: int| !#[trigger] matches_at(href, i, "uddg="@),
        !href.contains('&'),
        !(href.len() >= 2 && href[0] == '/' && href[1] == '/'),
    ensures
        link_target(href) == Some(href),
{
    reveal_strlit("&amp;");
    reveal_strlit("uddg=");
    reveal_strlit("//");
    assert("&amp;"@.len() == 5 && "&amp;"@[0] == '&');
    find_is_first(href, "&amp;"@, 0);
    if let Some(i) = find(href, "&amp;"@, 0) {
        assert(href.subrange(i, i + 5)[0] == '&');
        assert(href.contains(href[i]));
    }
    find_is_first(href, "uddg="@, 0);
    if matches_at(href, 0, "//"@) {
        assert(href.subrange(0, 2)[0] == '/' && href.subrange(0, 2)[1] == '/');
    }
}

proof fn found_from(s: Seq<char>, pat: Seq<char>, from: int, i: int)
    requires
        0 <= from <= i,
        matches_at(s, i, pat),
        forall|j: int| from <= j < i ==> !#[trigger] matches_at(s, j, pat),
    ensures
        find(s, pat, from) == Some(i),
{
    find_is_first(s, pat, from);
    if let Some(k) = find(s, pat, from) {
        if k < i {
            assert(matches_at(s, k, pat));
        }
    }
}

proof fn char_found_from(s: Seq<char>, c: char, from: int, i: int)
    requires
        0 <= from <= i < s.len(),
        s[i] == c,
        forall|j: int| from <= j < i ==> #[trigger] s[j] != c,
    ensures
        find_char(s, c, from) == Some(i),
{
    find_char_is_first(s, c, from);
}

/// A part of a page that links somewhere: up to the `>` of its tag, its text, and what follows the
/// closing tag. The text ends at the first closing tag.
pub open spec fn is_link(part: Seq<char>, attributes: Seq<char>, text: Seq<char>, behind: Seq<char>) -> bool {
    &&& part == attributes + seq!['>'] + text + "</a>"@ + behind
    &&& !attributes.contains('>')
    &&& forall|j: int| 0 <= j < text.len() ==> !#[trigger] matches_at(text + "</a>"@ + behind, j, "</a>"@)
}

proof fn link_is_read(front: Seq<char>, part: Seq<char>, attributes: Seq<char>, text: Seq<char>, behind: Seq<char>)
    requires
        is_link(part, attributes, text, behind),
    ensures
        link_text(front + part, front.len() as int) == plain(text),
{
    let chunk = front + part;
    let q = front.len() as int;
    let te = q + attributes.len();
    reveal_strlit("</a>");
    assert("</a>"@.len() == 4);
    assert(chunk[te] == '>');
    assert forall|j: int| q <= j < te implies #[trigger] chunk[j] != '>' by {
        assert(chunk[j] == attributes[j - q]);
        assert(attributes.contains(attributes[j - q]));
    }
    char_found_from(chunk, '>', q, te);
    let tail = text + "</a>"@ + behind;
    let head = front + attributes + seq!['>'];
    assert(chunk =~= head + tail);
    let ae = te + 1 + text.len();
    assert forall|j: int| te + 1 <= j < ae implies !#[trigger] matches_at(chunk, j, "</a>"@) by {
        match_behind(head, tail, "</a>"@, j - te - 1);
        assert(!matches_at(tail, j - te - 1, "</a>"@));
    }
    assert(tail.subrange(text.len() as int, text.len() as int + 4) =~= "</a>"@);
    match_behind(head, tail, "</a>"@, text.len() as int);
    assert(head.len() + text.len() == ae);
    found_from(chunk, "</a>"@, te + 1, ae);
    assert(chunk.subrange(te + 1, ae) =~= text);
}

/// A result of a page from its mark on, in parts: what stands behind the mark, the link, the rest of
/// the tag that holds it, the title, what stands up to the mark of the description, the rest of the
/// tag that this stands in, the description, and the rest of the page.
pub struct PageResult {
    pub first: Seq<char>,
    pub link: Seq<char>,
    pub named: Seq<char>,
    pub title: Seq<char>,
    pub between: Seq<char>,
    pub described: Seq<char>,
    pub snippet: Seq<char>,
    pub behind: Seq<char>,
}

impl PageResult {
    /// The description and what follows it.
    pub open spec fn note(self) -> Seq<char> {
        "result__snippet"@ + self.described + seq!['>'] + self.snippet + "</a>"@ + self.behind
    }

    /// The title and what follows it, from the end of the link on.
    pub open spec fn heading(self) -> Seq<char> {
        seq!['"'] + self.named + seq!['>'] + self.title + "</a>"@ + (self.between + self.note())
    }

    /// What stands behind the mark.
    pub open spec fn rest(self) -> Seq<char> {
        self.first + "href=\""@ + self.link + self.heading()
    }

    /// The page from the mark on.
    pub open spec fn page(self) -> Seq<char> {
        "result__a"@ + self.rest()
    }

    /// Each part ends where it does: the link is the first behind the mark, the tags end at their
    /// first `>`, the texts at their first closing tag, and the description is the first.
    pub open spec fn wf(self) -> bool {
        &&& self.first.len() > 0 && (self.first[0] as u32) < 128
        &&& forall|i: int| 0 <= i < 9 + self.first.len() ==> !#[trigger] matches_at(self.page(), i, "href=\""@)
        &&& !self.link.contains('"')
        &&& !self.named.contains('>')
        &&& forall|j: int|
            0 <= j < self.title.len() ==> !#[trigger] matches_at(
                self.title + "</a>"@ + (self.between + self.note()),
                j,
                "</a>"@,
            )
        &&& forall|i: int|
            0 <= i < self.page().len() - self.note().len() ==> !#[trigger] matches_at(
                self.page(),
                i,
                "result__snippet"@,
            )
        &&& !self.described.contains('>')
        &&& forall|j: int|
            0 <= j < self.snippet.len() ==> !#[trigger] matches_at(self.snippet + "</a>"@ + self.behind, j, "</a>"@)
    }

    proof fn link_is_found(self) -> (q: int)
        requires
            self.wf(),
        ensures
            ({
                let hpos = 9 + self.first.len() as int;
                &&& q == hpos + 6 + self.link.len()
                &&& find(self.page(), "href=\""@, 0) == Some(hpos)
                &&& find_char(self.page(), '"', hpos + 6) == Some(q)
                &&& self.page().subrange(hpos + 6, q) == self.link
            }),
    {
        reveal_strlit("result__a");
        reveal_strlit("href=\"");
        let href = "href=\""@;
        let page = self.page();
        assert("result__a"@.len() == 9 && href.len() == 6);
        let hpos = 9 + self.first.len() as int;
        let q = hpos + 6 + self.link.len();
        let front = "result__a"@ + self.first;
        let tail = self.link + self.heading();
        assert(page =~= front + href + tail);
        assert(page.subrange(hpos, hpos + 6) =~= href);
        assert(matches_at(page, hpos, href));
        found_at(page, href, hpos);
        assert(self.heading()[0] == '"');
        assert(page[q] == '"') by {
            assert(tail[self.link.len() as int] == '"');
        }
        assert forall|j: int| hpos + 6 <= j < q implies #[trigger] page[j] != '"' by {
            assert(page[j] == self.link[j - hpos - 6]);
            assert(self.link.contains(self.link[j - hpos - 6]));
        }
        char_found_from(page, '"', hpos + 6, q);
        assert(page.subrange(hpos + 6, q) =~= self.link);
        q
    }

    proof fn title_is_read(self, q: int)
        requires
            self.wf(),
            q == 15 + self.first.len() + self.link.len(),
        ensures
            link_text(self.page(), q) == plain(self.title),
    {
        reveal_strlit("result__a");
        reveal_strlit("href=\"");
        let front = "result__a"@ + self.first + "href=\""@ + self.link;
        let quoted = seq!['"'] + self.named;
        assert(self.page() =~= front + self.heading());
        assert(self.heading() == quoted + seq!['>'] + self.title + "</a>"@ + (self.between + self.note()));
        assert forall|k: int| 0 <= k < quoted.len() implies #[trigger] quoted[k] != '>' by {
            if k > 0 {
                assert(self.named.contains(self.named[k - 1]));
            }
        }
        link_is_read(front, self.heading(), quoted, self.title, self.between + self.note());
        assert(front.len() == q);
    }

    proof fn snippet_is_read(self)
        requires
            self.wf(),
        ensures
            snippet_text(self.page()) == plain(self.snippet),
    {
        reveal_strlit("result__snippet");
        let mark = "result__snippet"@;
        let page = self.page();
        let note = self.note();
        let front = "result__a"@ + self.first + "href=\""@ + self.link + seq!['"'] + self.named + seq!['>'] + self.title
            + "</a>"@ + self.between;
        let sp = front.len() as int;
        assert(mark.len() == 15);
        assert(page =~= front + note);
        assert(page.subrange(sp, sp + 15) =~= mark);
        assert(matches_at(page, sp, mark));
        found_at(page, mark, sp);
        let noted = mark + self.described;
        let none = Seq::<char>::empty();
        assert(page.skip(sp) =~= none + note);
        assert forall|k: int| 0 <= k < noted.len() implies #[trigger] noted[k] != '>' by {
            if k >= 15 {
                assert(self.described.contains(self.described[k - 15]));
            }
        }
        link_is_read(none, note, noted, self.snippet, self.behind);
    }
}

/// A result of a page is a hit: behind its mark stands its link, then its title in the tag that
/// holds the link, and its description in the first tag behind it that is marked as one. Each is
/// read as its own law says, and the search goes on 10 characters behind the mark.
#[verifier::rlimit(40)]
pub proof fn result_is_a_hit(p: PageResult, room: int)
    requires
        p.wf(),
        room > 0,
        plain(p.title) is Some,
        plain(p.snippet) is Some,
        link_target(p.link) is Some,
    ensures
        hits(p.page(), room) == (if plain(p.title)->0.len() > 0 && link_target(p.link)->0.len() > 0 {
            match hits(p.rest().skip(1), room - 1) {
                Some(more) => Some(
                    seq![Hit { title: plain(p.title)->0, url: link_target(p.link)->0, snippet: plain(p.snippet)->0 }]
                        + more,
                ),
                None => None,
            }
        } else {
            hits(p.rest().skip(1), room)
        }),
{
    let page = p.page();
    reveal_strlit("result__a");
    assert("result__a"@.len() == 9);
    assert(page.subrange(0, 9) =~= "result__a"@);
    assert(matches_at(page, 0, "result__a"@));
    found_at(page, "result__a"@, 0);
    assert(page.skip(0) =~= page);
    let q = p.link_is_found();
    p.title_is_read(q);
    p.snippet_is_read();
    assert(page[9] == p.first[0]);
    assert(page.skip(10) =~= p.rest().skip(1));
}

/// Hits are shown one behind the other, numbered from 1, with their title, their address and, on a
/// line of its own, their description.
pub proof fn hits_are_listed(h: Seq<Hit>, last: Hit)
    ensures
        listing(Seq::empty()) == Seq::<char>::empty(),
        listing(h.push(last)) == listing(h) + decimal((h.len() + 1) as nat) + ". "@ + last.title + " — "@ + last.url
            + "\n   "@ + last.snippet + "\n"@,
{
    assert(h.push(last).drop_last() =~= h);
    assert(listing(h.push(last)) =~= listing(h) + decimal((h.len() + 1) as nat) + ". "@ + last.title + " — "@
        + last.url + "\n   "@ + last.snippet + "\n"@);
}

/// A result page is shown as its first six hits behind a heading, and says so where there is none.
pub proof fn page_shows_its_first_hits(body: Seq<char>)
    ensures
        hits(body, 6) matches Some(h) ==> page_listing(body) == Some(
            "Web search results:\n"@ + (if h.len() == 0 {
                "(no results parsed — try web_fetch on a known URL)"@
            } else {
                listing(h)
            }),
        ),
        hits(body, 6) is None ==> page_listing(body) is None,
{
}

/// An entry of an answer of Brave Search is shown behind the others under the number of its place,
/// where it has a title and an address, and is passed over where it lacks one; its description is
/// shown as readable text.
pub proof fn brave_entry_is_listed(entries: Seq<JsonTree>, e: JsonTree)
    requires
        brave_entries(entries) is Some,
        plain(text_or_empty(e.at("description"@))) is Some,
    ensures
        brave_entries(Seq::empty()) == Some(Seq::<char>::empty()),
        ({
            let title = trimmed(text_or_empty(e.at("title"@)));
            let url = trimmed(text_or_empty(e.at("url"@)));
            let snippet = trimmed(plain(text_or_empty(e.at("description"@)))->0);
            let before = brave_entries(entries)->0;
            brave_entries(entries.push(e)) == Some(
                if title.len() == 0 || url.len() == 0 {
                    before
                } else {
                    before + decimal((entries.len() + 1) as nat) + ". "@ + title + " — "@ + url + "\n   "@ + snippet
                        + "\n"@
                },
            )
        }),
{
    let title = trimmed(text_or_empty(e.at("title"@)));
    let url = trimmed(text_or_empty(e.at("url"@)));
    let snippet = trimmed(plain(text_or_empty(e.at("description"@)))->0);
    let before = brave_entries(entries)->0;
    assert(entries.push(e).drop_last() =~= entries);
    let all = brave_entries(entries.push(e))->0;
    if title.len() == 0 || url.len() == 0 {
        assert(all =~= before);
    } else {
        assert(all =~= before + decimal((entries.len() + 1) as nat) + ". "@ + title + " — "@ + url + "\n   "@
            + snippet + "\n"@);
    }
}

/// An answer of Brave Search is shown as the entries of its web results, and says so where nothing
/// of them is shown.
pub proof fn brave_answer_shows_its_entries(v: JsonTree, entries: Seq<JsonTree>)
    requires
        v.at("web"@).at("results"@) == JsonTree::Array(entries),
    ensures
        brave_listing(v) == (match brave_entries(entries) {
            Some(t) => Some(
                if t.len() == 0 {
                    "(no results parsed — try web_fetch on a known URL)"@
                } else {
                    t
                },
            ),
            None => None,
        }),
{
}

/// Each `&amp;` of a link stands for a `&`, and the rest of it for itself.
pub proof fn ampersands_are_written_out(s: Seq<char>, t: Seq<char>)
    ensures
        replaced(s + "&amp;"@ + t, "&amp;"@, "&"@) == replaced(s, "&amp;"@, "&"@) + "&"@ + replaced(
            t,
            "&amp;"@,
            "&"@,
        ),
        !s.contains('&') ==> replaced(s, "&amp;"@, "&"@) == s,
{
    let amp = "&amp;"@;
    reveal_strlit("&amp;");
    assert(amp.len() == 5);
    assert(amp[0] == '&' && amp[1] == 'a' && amp[2] == 'm' && amp[3] == 'p' && amp[4] == ';');
    let tail = amp + t;
    assert(s + amp + t =~= s + tail);
    replaced_apart(s, tail, amp, "&"@);
    assert(tail.subrange(0, 5) =~= amp);
    assert(matches_at(tail, 0, amp));
    found_at(tail, amp, 0);
    assert(tail.skip(5) =~= t);
    assert(tail.take(0) =~= Seq::<char>::empty());
    assert(replaced(tail, amp, "&"@) =~= "&"@ + replaced(t, amp, "&"@));
    assert(replaced(s, amp, "&"@) + ("&"@ + replaced(t, amp, "&"@)) =~= replaced(s, amp, "&"@) + "&"@ + replaced(
        t,
        amp,
        "&"@,
    ));
    find_is_first(s, amp, 0);
    if let Some(i) = find(s, amp, 0) {
        assert(s.subrange(i, i + 5)[0] == '&');
        assert(s.contains(s[i]));
    }
}

} // verus!
