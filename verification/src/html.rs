//! The readable text of a web page: tags, scripts and style sheets are dropped, the common
//! entities are replaced, and each run of white space becomes one blank.
//!
//! Tags are recognised in a lower-case copy of the page. The page and its copy are walked in
//! step, by byte: a place is read in both only where a character starts in both.

use vstd::prelude::*;
use vstd::slice::slice_subrange;
use vstd::utf8::is_ascii_chars;
use crate::text::{chars_of, find_char, find_char_from, find_char_is_first, is_space, joined, joined_begins_with_the_first, matches_at, matches_here, same, space, text_of, trim, trimmed, trimmed_end, trimmed_keeps_words, trimmed_start, words, words_are_kept_apart, words_behind};
use crate::utf8::{at_byte, at_byte_finds, at_byte_is_there, counted_chars, offset, offset_grows, offset_of_prefix, seek, size, width, width_of};

verus! {

/// What the walk is in the middle of.
#[derive(Clone, Copy, PartialEq, Eq, Structural, Debug)]
pub enum Inside {
    Text,
    Script,
    Style,
}

/// An ASCII letter or digit.
pub open spec fn is_alnum(c: char) -> bool {
    ||| '0' <= c <= '9'
    ||| 'A' <= c <= 'Z'
    ||| 'a' <= c <= 'z'
}

/// Whether `c` is an ASCII letter or digit.
pub fn alnum(c: char) -> (r: bool)
    ensures
        r == is_alnum(c),
{
    ('0' <= c && c <= '9') || ('A' <= c && c <= 'Z') || ('a' <= c && c <= 'z')
}

/// The letters and digits at the start of a tag.
pub open spec fn tag_name(tag: Seq<char>) -> Seq<char>
    decreases tag.len(),
{
    if tag.len() > 0 && is_alnum(tag[0]) {
        seq![tag[0]] + tag_name(tag.skip(1))
    } else {
        Seq::empty()
    }
}

/// The tag that ends what the walk is in.
pub open spec fn closing(inside: Inside) -> Seq<char> {
    match inside {
        Inside::Text => ""@,
        Inside::Script => "</script>"@,
        Inside::Style => "</style>"@,
    }
}

/// What the walk is in behind the tag that stands in `l` from `lt` to `gt`.
pub open spec fn behind_tag(l: Seq<char>, lt: int, gt: int, inside: Inside) -> Inside {
    if inside == Inside::Text {
        let name = tag_name(l.subrange(lt + 1, gt));
        if name == "script"@ {
            Inside::Script
        } else if name == "style"@ {
            Inside::Style
        } else {
            Inside::Text
        }
    } else if matches_at(l, lt, closing(inside)) {
        Inside::Text
    } else {
        inside
    }
}

/// Where the entity that starts at character `k` of `h` ends: at the next semicolon, if that
/// is at most 8 bytes away.
pub open spec fn entity_end(h: Seq<char>, k: int) -> Option<int> {
    if h[k] == '&' {
        match find_char(h, ';', k) {
            Some(semi) => if offset(h, semi) - offset(h, k) <= 8 {
                Some(semi)
            } else {
                None
            },
            None => None,
        }
    } else {
        None
    }
}

/// What stands for an entity; nothing for one that is not known.
pub open spec fn replacement(name: Seq<char>) -> Seq<char> {
    if name == "amp"@ {
        seq!['&']
    } else if name == "lt"@ {
        seq!['<']
    } else if name == "gt"@ {
        seq!['>']
    } else if name == "quot"@ {
        seq!['"']
    } else if name == "apos"@ {
        seq!['\'']
    } else if name == "nbsp"@ {
        seq![' ']
    } else {
        Seq::empty()
    }
}

/// `rest` with `first` before it.
pub open spec fn before(first: Seq<char>, rest: Option<Seq<char>>) -> Option<Seq<char>> {
    match rest {
        Some(r) => Some(first + r),
        None => None,
    }
}

/// How many bytes of `h` stand at and behind byte `i`.
pub open spec fn bytes_left(h: Seq<char>, i: int) -> int {
    if i < size(h) {
        size(h) - i
    } else {
        0
    }
}

/// The text of the page `h`, with `l` its lower-case copy, from byte `i` on. `None` where the
/// walk comes to a byte at which a character starts in one of the two alone.
pub open spec fn scan(h: Seq<char>, l: Seq<char>, i: int, inside: Inside) -> Option<Seq<char>>
    decreases bytes_left(h, i),
{
    if i >= size(h) {
        Some(Seq::empty())
    } else {
        match (at_byte(h, i), at_byte(l, i)) {
            (Some(hk), Some(lk)) => {
                proof {
                    scan_moves(h, l, i);
                }
                if lk < l.len() && l[lk] == '<' {
                    match find_char(l, '>', lk) {
                        Some(gt) => scan(h, l, offset(l, gt + 1), behind_tag(l, lk, gt, inside)),
                        None => Some(Seq::empty()),
                    }
                } else if inside != Inside::Text {
                    scan(h, l, offset(h, hk + 1), inside)
                } else {
                    match entity_end(h, hk) {
                        Some(semi) => before(
                            replacement(h.subrange(hk + 1, semi)),
                            scan(h, l, offset(h, semi + 1), inside),
                        ),
                        None => before(seq![h[hk]], scan(h, l, offset(h, hk + 1), inside)),
                    }
                }
            },
            _ => None,
        }
    }
}

/// Each step of the walk leads further on.
pub proof fn scan_moves(h: Seq<char>, l: Seq<char>, i: int)
    requires
        i < size(h),
        at_byte(h, i) is Some,
        at_byte(l, i) is Some,
    ensures
        ({
            let hk = at_byte(h, i)->0;
            let lk = at_byte(l, i)->0;
            &&& 0 <= hk < h.len()
            &&& 0 <= lk <= l.len()
            &&& 0 <= i
            &&& offset(h, hk) == i
            &&& offset(l, lk) == i
            &&& i < offset(h, hk + 1)
            &&& find_char(l, '>', lk) matches Some(gt) ==> lk <= gt < l.len() && i < offset(l, gt + 1)
            &&& find_char(h, ';', hk) matches Some(semi) ==> hk <= semi < h.len() && i < offset(
                h,
                semi + 1,
            )
        }),
{
    at_byte_is_there(h, i);
    at_byte_is_there(l, i);
    let hk = at_byte(h, i)->0;
    let lk = at_byte(l, i)->0;
    offset_grows(h, hk, hk + 1);
    find_char_is_first(l, '>', lk);
    find_char_is_first(h, ';', hk);
    if find_char(l, '>', lk) is Some {
        offset_grows(l, lk, find_char(l, '>', lk)->0 + 1);
    }
    if find_char(h, ';', hk) is Some {
        offset_grows(h, hk, find_char(h, ';', hk)->0 + 1);
    }
}

/// `s` with one blank for each run of white space; `after_space` says that white space went
/// before.
pub open spec fn collapsed(s: Seq<char>, after_space: bool) -> Seq<char>
    decreases s.len(),
{
    if s.len() == 0 {
        Seq::empty()
    } else if is_space(s[0]) {
        if after_space {
            collapsed(s.skip(1), true)
        } else {
            seq![' '] + collapsed(s.skip(1), true)
        }
    } else {
        seq![s[0]] + collapsed(s.skip(1), false)
    }
}

/// The readable text of the page `h`, whose lower-case copy is `l`.
pub open spec fn stripped(h: Seq<char>, l: Seq<char>) -> Option<Seq<char>> {
    match scan(h, l, 0, Inside::Text) {
        Some(t) => Some(trimmed(collapsed(t, false))),
        None => None,
    }
}

/// `str::to_lowercase`, by name.
pub uninterp spec fn lowercase(s: Seq<char>) -> Seq<char>;

/// An ASCII capital as its small letter; any other character as it is.
pub open spec fn small(c: char) -> char {
    if 'A' <= c <= 'Z' {
        ((c as u32 + 32) as u32) as char
    } else {
        c
    }
}

/// ASCII text with small letters for its capitals.
pub open spec fn small_letters(s: Seq<char>) -> Seq<char> {
    s.map_values(|c: char| small(c))
}

/// `str::to_lowercase` maps text by the Unicode tables, the same at each call; in ASCII text
/// it makes small letters of the capitals and leaves the rest.
pub assume_specification[ str::to_lowercase ](s: &str) -> (r: String)
    ensures
        r@ == lowercase(s@),
        is_ascii_chars(s@) ==> r@ == small_letters(s@),
;

fn name_of(tag: &[char]) -> (r: Vec<char>)
    ensures
        r@ == tag_name(tag@),
{
    let n: usize = tag.len();
    let mut out: Vec<char> = Vec::new();
    let mut i: usize = 0;
    assert(tag@.skip(0) =~= tag@);
    assert(out@ + tag_name(tag@) =~= tag_name(tag@));
    while i < n && alnum(tag[i])
        invariant
            n == tag@.len(),
            i <= n,
            tag_name(tag@) == out@ + tag_name(tag@.skip(i as int)),
        decreases n - i,
    {
        let ghost rest = tag@.skip(i as int);
        assert(rest.skip(1) =~= tag@.skip(i + 1));
        assert(out@ + (seq![rest[0]] + tag_name(rest.skip(1))) =~= out@.push(rest[0]) + tag_name(
            rest.skip(1),
        ));
        out.push(tag[i]);
        i = i + 1;
    }
    assert(out@ + tag_name(tag@.skip(i as int)) =~= out@);
    out
}

fn leave_tag(l: &[char], lt: usize, gt: usize, inside: Inside) -> (r: Inside)
    requires
        lt < gt < l@.len(),
    ensures
        r == behind_tag(l@, lt as int, gt as int, inside),
{
    match inside {
        Inside::Text => {
            let name = name_of(slice_subrange(l, lt + 1, gt));
            if same(name.as_slice(), chars_of("script").as_slice()) {
                Inside::Script
            } else if same(name.as_slice(), chars_of("style").as_slice()) {
                Inside::Style
            } else {
                Inside::Text
            }
        },
        Inside::Script => {
            if matches_here(l, lt, chars_of("</script>").as_slice()) {
                Inside::Text
            } else {
                inside
            }
        },
        Inside::Style => {
            if matches_here(l, lt, chars_of("</style>").as_slice()) {
                Inside::Text
            } else {
                inside
            }
        },
    }
}

fn replace(name: &[char], out: &mut Vec<char>)
    ensures
        final(out)@ == old(out)@ + replacement(name@),
{
    let ghost start = out@;
    if same(name, chars_of("amp").as_slice()) {
        out.push('&');
    } else if same(name, chars_of("lt").as_slice()) {
        out.push('<');
    } else if same(name, chars_of("gt").as_slice()) {
        out.push('>');
    } else if same(name, chars_of("quot").as_slice()) {
        out.push('"');
    } else if same(name, chars_of("apos").as_slice()) {
        out.push('\'');
    } else if same(name, chars_of("nbsp").as_slice()) {
        out.push(' ');
    }
    assert(out@ =~= start + replacement(name@));
}

fn find_entity_end(h: &[char], k: usize) -> (r: Option<usize>)
    requires
        k < h@.len(),
        size(h@) <= usize::MAX,
    ensures
        r is Some == entity_end(h@, k as int) is Some,
        r matches Some(semi) ==> entity_end(h@, k as int) == Some(semi as int) && k < semi < h@.len(),
{
    if h[k] != '&' {
        return None;
    }
    match find_char_from(h, ';', k) {
        Some(semi) => {
            let mut j: usize = k;
            let mut dist: usize = 0;
            while j < semi
                invariant
                    k <= j <= semi < h@.len(),
                    dist == offset(h@, j as int) - offset(h@, k as int),
                    size(h@) <= usize::MAX,
                decreases semi - j,
            {
                proof {
                    offset_grows(h@, 0, k as int);
                    offset_grows(h@, j + 1, h@.len() as int);
                }
                dist = dist + width_of(h[j]);
                j = j + 1;
            }
            if dist <= 8 {
                Some(semi)
            } else {
                None
            }
        },
        None => None,
    }
}

fn walk(h: &[char], l: &[char]) -> (r: Option<Vec<char>>)
    requires
        size(h@) <= usize::MAX,
        size(l@) <= usize::MAX,
    ensures
        r is Some == scan(h@, l@, 0, Inside::Text) is Some,
        r matches Some(t) ==> scan(h@, l@, 0, Inside::Text) == Some(t@),
{
    let n: usize = h.len();
    let m: usize = l.len();
    let mut out: Vec<char> = Vec::new();
    let mut inside = Inside::Text;
    // `i` is the byte, `hk` and `lk` the characters that start at or before it.
    let mut i: usize = 0;
    let mut hk: usize = 0;
    let mut ho: usize = 0;
    let mut lk: usize = 0;
    let mut lo: usize = 0;
    let ghost whole = scan(h@, l@, 0, Inside::Text);
    assert(before(out@, whole) == whole) by {
        if whole is Some {
            assert(out@ + whole->0 =~= whole->0);
        }
    }
    loop
        invariant
            n == h@.len(),
            m == l@.len(),
            size(h@) <= usize::MAX,
            size(l@) <= usize::MAX,
            hk <= n,
            lk <= m,
            ho == offset(h@, hk as int),
            lo == offset(l@, lk as int),
            ho <= i,
            lo <= i,
            whole == scan(h@, l@, 0, Inside::Text),
            whole == before(out@, scan(h@, l@, i as int, inside)),
        decreases bytes_left(h@, i as int),
    {
        let at_h = seek(h, hk, ho, i);
        proof {
            at_byte_is_there(h@, i as int);
            at_byte_finds(h@, n as int);
            offset_grows(h@, 0, n as int);
        }
        match at_h {
            Some(k) => {
                hk = k;
                ho = i;
                if hk == n {
                    assert(out@ + Seq::<char>::empty() =~= out@);
                    return Some(out);
                }
                proof {
                    offset_grows(h@, hk as int, n as int);
                }
            },
            None => {
                // Either the walk has passed the end of the page, or no character starts here.
                let end = seek_end(h, hk, ho);
                if i >= end {
                    assert(out@ + Seq::<char>::empty() =~= out@);
                    return Some(out);
                }
                return None;
            },
        }
        let at_l = seek(l, lk, lo, i);
        match at_l {
            Some(k) => {
                lk = k;
                lo = i;
            },
            None => {
                return None;
            },
        }
        proof {
            scan_moves(h@, l@, i as int);
            offset_grows(h@, hk + 1, n as int);
        }
        let ghost i0 = i;
        if lk < m && l[lk] == '<' {
            match find_char_from(l, '>', lk) {
                Some(gt) => {
                    proof {
                        offset_grows(l@, gt + 1, m as int);
                    }
                    let mut j: usize = lk;
                    let mut o: usize = lo;
                    while j < gt + 1
                        invariant
                            lk <= j <= gt + 1 <= m,
                            m == l@.len(),
                            o == offset(l@, j as int),
                            size(l@) <= usize::MAX,
                        decreases gt + 1 - j,
                    {
                        proof {
                            offset_grows(l@, j + 1, m as int);
                        }
                        o = o + width_of(l[j]);
                        j = j + 1;
                    }
                    inside = leave_tag(l, lk, gt, inside);
                    i = o;
                    lk = gt + 1;
                    lo = o;
                },
                None => {
                    assert(out@ + Seq::<char>::empty() =~= out@);
                    return Some(out);
                },
            }
        } else if inside != Inside::Text {
            i = i + width_of(h[hk]);
        } else {
            let ghost rest = scan(h@, l@, i as int, inside);
            match find_entity_end(h, hk) {
                Some(semi) => {
                    let name = slice_subrange(h, hk + 1, semi);
                    let ghost prior = out@;
                    replace(name, &mut out);
                    let mut j: usize = hk;
                    let mut o: usize = ho;
                    while j < semi + 1
                        invariant
                            hk <= j <= semi + 1 <= n,
                            n == h@.len(),
                            o == offset(h@, j as int),
                            size(h@) <= usize::MAX,
                        decreases semi + 1 - j,
                    {
                        proof {
                            offset_grows(h@, j + 1, n as int);
                        }
                        o = o + width_of(h[j]);
                        j = j + 1;
                    }
                    i = o;
                    proof {
                        let tail = scan(h@, l@, i as int, inside);
                        if tail is Some {
                            assert(prior + (replacement(name@) + tail->0) =~= out@ + tail->0);
                        }
                    }
                },
                None => {
                    let ghost prior = out@;
                    out.push(h[hk]);
                    i = i + width_of(h[hk]);
                    proof {
                        let tail = scan(h@, l@, i as int, inside);
                        if tail is Some {
                            assert(prior + (seq![h@[hk as int]] + tail->0) =~= out@ + tail->0);
                        }
                    }
                },
            }
        }
    }
}

fn seek_end(s: &[char], k: usize, o: usize) -> (r: usize)
    requires
        k <= s@.len(),
        o == offset(s@, k as int),
        size(s@) <= usize::MAX,
    ensures
        r == size(s@),
{
    let n: usize = s.len();
    let mut k: usize = k;
    let mut o: usize = o;
    while k < n
        invariant
            n == s@.len(),
            k <= n,
            o == offset(s@, k as int),
            size(s@) <= usize::MAX,
        decreases n - k,
    {
        proof {
            offset_grows(s@, k + 1, n as int);
        }
        o = o + width_of(s[k]);
        k = k + 1;
    }
    o
}

fn collapse(s: &[char]) -> (r: Vec<char>)
    ensures
        r@ == collapsed(s@, false),
{
    let n: usize = s.len();
    let mut out: Vec<char> = Vec::new();
    let mut last_ws = false;
    let mut i: usize = 0;
    assert(s@.skip(0) =~= s@);
    assert(out@ + collapsed(s@, false) =~= collapsed(s@, false));
    while i < n
        invariant
            n == s@.len(),
            i <= n,
            collapsed(s@, false) == out@ + collapsed(s@.skip(i as int), last_ws),
        decreases n - i,
    {
        let c = s[i];
        let ghost rest = s@.skip(i as int);
        assert(rest[0] == c);
        assert(rest.skip(1) =~= s@.skip(i + 1));
        let ghost prior = out@;
        if space(c) {
            if !last_ws {
                out.push(' ');
                assert(prior + (seq![' '] + collapsed(rest.skip(1), true)) =~= out@ + collapsed(
                    rest.skip(1),
                    true,
                ));
            }
            last_ws = true;
        } else {
            out.push(c);
            assert(prior + (seq![c] + collapsed(rest.skip(1), false)) =~= out@ + collapsed(
                rest.skip(1),
                false,
            ));
            last_ws = false;
        }
        i = i + 1;
    }
    assert(out@ + collapsed(s@.skip(i as int), last_ws) =~= out@);
    out
}

/// The readable text of `html`, whose lower-case copy is `lower`. `None` where the walk comes
/// to a byte at which a character starts in one of the two alone.
pub fn strip_with(html: &str, lower: &str) -> (r: Option<String>)
    ensures
        r is Some == stripped(html@, lower@) is Some,
        r matches Some(t) ==> stripped(html@, lower@) == Some(t@),
{
    let h = counted_chars(html);
    let l = counted_chars(lower);
    match walk(h.as_slice(), l.as_slice()) {
        Some(t) => {
            let c = collapse(t.as_slice());
            Some(text_of(trim(c.as_slice())))
        },
        None => None,
    }
}

/// Whether the walk through `html` and its lower-case copy `lower` stays on the starts of
/// characters in both.
pub fn in_step(html: &str, lower: &str) -> (r: bool)
    ensures
        r == stripped(html@, lower@) is Some,
{
    let h = counted_chars(html);
    let l = counted_chars(lower);
    walk(h.as_slice(), l.as_slice()).is_some()
}

/// The readable text of `html`.
pub fn strip_html(html: &str) -> (r: String)
    requires
        stripped(html@, lowercase(html@)) is Some,
    ensures
        stripped(html@, lowercase(html@)) == Some(r@),
{
    let lower = html.to_lowercase();
    match strip_with(html, lower.as_str()) {
        Some(t) => t,
        None => String::new(),
    }
}

/// The readable text of `html`; `None` where its lower-case copy does not keep step with it.
/// An ASCII page always does.
pub fn try_strip_html(html: &str) -> (r: Option<String>)
    ensures
        r is Some == stripped(html@, lowercase(html@)) is Some,
        r matches Some(t) ==> stripped(html@, lowercase(html@)) == Some(t@),
        is_ascii_chars(html@) ==> (r matches Some(t) && stripped(html@, small_letters(html@)) == Some(t@)),
{
    let lower = html.to_lowercase();
    proof {
        if is_ascii_chars(html@) {
            assert forall|j: int| 0 <= j < html@.len() implies width(#[trigger] html@[j]) == width(
                lower@[j],
            ) by {
                assert(lower@[j] == small(html@[j]));
            }
            aligned_copy_is_enough(html@, lower@);
        }
    }
    if in_step(html, lower.as_str()) {
        Some(strip_html(html))
    } else {
        None
    }
}

/// Each character of `l` is as wide as the one of `h` in its place.
pub open spec fn aligned(h: Seq<char>, l: Seq<char>) -> bool {
    &&& h.len() == l.len()
    &&& forall|j: int| 0 <= j < h.len() ==> width(#[trigger] h[j]) == width(l[j])
}

proof fn aligned_offsets(h: Seq<char>, l: Seq<char>, k: int)
    requires
        aligned(h, l),
        0 <= k <= h.len(),
    ensures
        offset(h, k) == offset(l, k),
    decreases k,
{
    if k > 0 {
        aligned_offsets(h, l, k - 1);
        assert(width(h[k - 1]) == width(l[k - 1]));
    }
}

proof fn offset_behind(s: Seq<char>, k: int, j: int)
    requires
        0 <= k,
        0 <= j,
        k + j <= s.len(),
    ensures
        offset(s, k + j) == offset(s, k) + offset(s.skip(k), j),
    decreases j,
{
    if j > 0 {
        offset_behind(s, k, j - 1);
        assert(s.skip(k)[j - 1] == s[k + j - 1]);
    }
}

proof fn find_char_behind(s: Seq<char>, c: char, k: int, j: int)
    requires
        0 <= k,
        0 <= j,
        k + j <= s.len(),
    ensures
        find_char(s, c, k + j) == (match find_char(s.skip(k), c, j) {
            Some(i) => Some(i + k),
            None => None,
        }),
    decreases s.len() - k - j,
{
    if k + j < s.len() {
        assert(s.skip(k)[j] == s[k + j]);
        find_char_behind(s, c, k, j + 1);
    }
}

/// The text of a page from its start on, where the page and its lower-case copy keep step: tags
/// are left out, and so is what stands in scripts and style sheets.
pub open spec fn visible(h: Seq<char>, l: Seq<char>, inside: Inside) -> Seq<char>
    decreases h.len(),
{
    if h.len() == 0 {
        Seq::empty()
    } else if l[0] == '<' {
        match find_char(l, '>', 0) {
            Some(gt) => if 0 <= gt < h.len() {
                visible(h.skip(gt + 1), l.skip(gt + 1), behind_tag(l, 0, gt, inside))
            } else {
                Seq::empty()
            },
            None => Seq::empty(),
        }
    } else if inside != Inside::Text {
        visible(h.skip(1), l.skip(1), inside)
    } else {
        match entity_end(h, 0) {
            Some(semi) => if 0 <= semi < h.len() {
                replacement(h.subrange(1, semi)) + visible(h.skip(semi + 1), l.skip(semi + 1), inside)
            } else {
                Seq::empty()
            },
            None => seq![h[0]] + visible(h.skip(1), l.skip(1), inside),
        }
    }
}

proof fn tag_behind(l: Seq<char>, k: int, gt: int, inside: Inside)
    requires
        0 <= k <= gt < l.len(),
        find_char(l, '>', k) == Some(gt),
        l[k] == '<',
    ensures
        behind_tag(l, k, gt, inside) == behind_tag(l.skip(k), 0, gt - k, inside),
{
    let rest = l.skip(k);
    find_char_is_first(l, '>', k);
    assert(l.subrange(k + 1, gt) =~= rest.subrange(1, gt - k));
    let c = closing(inside);
    if k + c.len() <= l.len() {
        assert(l.subrange(k, k + c.len()) =~= rest.subrange(0, c.len() as int));
    }
}

proof fn entity_behind(h: Seq<char>, k: int)
    requires
        0 <= k < h.len(),
    ensures
        match entity_end(h, k) {
            Some(semi) => {
                &&& k < semi < h.len()
                &&& entity_end(h.skip(k), 0) == Some(semi - k)
                &&& h.subrange(k + 1, semi) == h.skip(k).subrange(1, semi - k)
            },
            None => entity_end(h.skip(k), 0) is None,
        },
{
    let hr = h.skip(k);
    assert(hr[0] == h[k]);
    find_char_behind(h, ';', k, 0);
    if let Some(semi) = find_char(h, ';', k) {
        find_char_is_first(h, ';', k);
        offset_behind(h, k, semi - k);
        if h[k] == '&' {
            assert(h.subrange(k + 1, semi) =~= hr.subrange(1, semi - k));
        }
    }
}

proof fn scan_is_visible(h: Seq<char>, l: Seq<char>, k: int, inside: Inside)
    requires
        aligned(h, l),
        0 <= k <= h.len(),
    ensures
        scan(h, l, offset(h, k), inside) == Some(visible(h.skip(k), l.skip(k), inside)),
    decreases h.len() - k,
{
    let i = offset(h, k);
    let hr = h.skip(k);
    let lr = l.skip(k);
    aligned_offsets(h, l, k);
    if k < h.len() {
        offset_grows(h, k, h.len() as int);
        at_byte_finds(h, k);
        at_byte_finds(l, k);
        scan_moves(h, l, i);
        assert(lr[0] == l[k] && hr[0] == h[k]);
        if l[k] == '<' {
            find_char_behind(l, '>', k, 0);
            if let Some(gt) = find_char(l, '>', k) {
                aligned_offsets(h, l, gt + 1);
                tag_behind(l, k, gt, inside);
                scan_is_visible(h, l, gt + 1, behind_tag(l, k, gt, inside));
                assert(hr.skip(gt - k + 1) =~= h.skip(gt + 1));
                assert(lr.skip(gt - k + 1) =~= l.skip(gt + 1));
            }
        } else {
            entity_behind(h, k);
            match entity_end(h, k) {
                Some(semi) => {
                    scan_is_visible(h, l, semi + 1, inside);
                    assert(hr.skip(semi - k + 1) =~= h.skip(semi + 1));
                    assert(lr.skip(semi - k + 1) =~= l.skip(semi + 1));
                },
                None => {},
            }
            scan_is_visible(h, l, k + 1, inside);
            assert(hr.skip(1) =~= h.skip(k + 1));
            assert(lr.skip(1) =~= l.skip(k + 1));
        }
    }
}

/// A page whose lower-case copy keeps the width of each character can be read to its end: its
/// readable text is what is visible of it, with white space tidied.
pub proof fn aligned_copy_is_enough(h: Seq<char>, l: Seq<char>)
    requires
        aligned(h, l),
    ensures
        stripped(h, l) == Some(trimmed(collapsed(visible(h, l, Inside::Text), false))),
{
    scan_is_visible(h, l, 0, Inside::Text);
    assert(h.skip(0) =~= h);
    assert(l.skip(0) =~= l);
}

/// No white space but single blanks between other characters.
pub open spec fn tidy(s: Seq<char>) -> bool {
    forall|i: int| #![trigger s[i]]
        0 <= i < s.len() && is_space(s[i]) ==> {
            &&& s[i] == ' '
            &&& 0 < i < s.len() - 1
            &&& !is_space(s[i + 1])
        }
}

/// No white space but single blanks, perhaps also at the two ends.
spec fn single_blanks(s: Seq<char>, after_space: bool) -> bool {
    &&& forall|i: int| #![trigger s[i]] 0 <= i < s.len() && is_space(s[i]) ==> s[i] == ' '
    &&& forall|i: int| #![trigger s[i]]
        0 <= i < s.len() - 1 && is_space(s[i]) ==> !is_space(s[i + 1])
    &&& after_space && s.len() > 0 ==> !is_space(s[0])
}

proof fn collapsed_single(s: Seq<char>, after_space: bool)
    ensures
        single_blanks(collapsed(s, after_space), after_space),
    decreases s.len(),
{
    if s.len() > 0 {
        collapsed_single(s.skip(1), is_space(s[0]));
        let rest = collapsed(s.skip(1), is_space(s[0]));
        let all = collapsed(s, after_space);
        if !(is_space(s[0]) && after_space) {
            assert(all.len() == rest.len() + 1);
            assert forall|i: int| #![trigger all[i]] 0 < i < all.len() implies all[i] == rest[i - 1] by {}
            assert forall|i: int| #![trigger all[i]] 0 <= i < all.len() - 1 && is_space(all[i]) implies !is_space(
                all[i + 1],
            ) by {
                assert(all[i + 1] == rest[i]);
                if i > 0 {
                    assert(all[i] == rest[i - 1]);
                }
            }
        }
    }
}

proof fn trimmed_start_part(s: Seq<char>)
    ensures
        exists|a: int| 0 <= a <= s.len() && trimmed_start(s) == s.skip(a),
        trimmed_start(s).len() > 0 ==> !is_space(trimmed_start(s)[0]),
    decreases s.len(),
{
    if s.len() > 0 && is_space(s[0]) {
        trimmed_start_part(s.skip(1));
        let a = choose|a: int| 0 <= a <= s.skip(1).len() && trimmed_start(s.skip(1)) == s.skip(1).skip(a);
        assert(s.skip(1).skip(a) =~= s.skip(a + 1));
        assert(trimmed_start(s) == s.skip(a + 1));
    } else {
        assert(s.skip(0) =~= s);
    }
}

proof fn trimmed_end_part(s: Seq<char>)
    ensures
        exists|b: int| 0 <= b <= s.len() && trimmed_end(s) == s.take(b),
        trimmed_end(s).len() > 0 ==> !is_space(trimmed_end(s).last()),
    decreases s.len(),
{
    if s.len() > 0 && is_space(s.last()) {
        trimmed_end_part(s.drop_last());
        let b = choose|b: int| 0 <= b <= s.drop_last().len() && trimmed_end(s.drop_last())
            == s.drop_last().take(b);
        assert(s.drop_last().take(b) =~= s.take(b));
        assert(trimmed_end(s) == s.take(b));
    } else {
        assert(s.take(s.len() as int) =~= s);
    }
}

/// The readable text holds no white space but single blanks between other characters.
pub proof fn stripped_is_tidy(h: Seq<char>, l: Seq<char>)
    ensures
        stripped(h, l) matches Some(t) ==> tidy(t),
{
    if let Some(t) = scan(h, l, 0, Inside::Text) {
        let c = collapsed(t, false);
        collapsed_single(t, false);
        let d = trimmed_start(c);
        trimmed_start_part(c);
        let a = choose|a: int| 0 <= a <= c.len() && d == c.skip(a);
        let e = trimmed_end(d);
        trimmed_end_part(d);
        let b = choose|b: int| 0 <= b <= d.len() && e == d.take(b);
        assert forall|i: int| #![trigger e[i]] 0 <= i < e.len() && is_space(e[i]) implies {
            &&& e[i] == ' '
            &&& 0 < i < e.len() - 1
            &&& !is_space(e[i + 1])
        } by {
            assert(e[i] == c[a + i]);
            assert(e[0] == d[0]);
            if i < e.len() - 1 {
                assert(e[i + 1] == c[a + i + 1]);
            }
        }
    }
}

proof fn plain_is_visible(h: Seq<char>, l: Seq<char>)
    requires
        aligned(h, l),
        !l.contains('<'),
        !h.contains('&'),
    ensures
        visible(h, l, Inside::Text) == h,
    decreases h.len(),
{
    if h.len() > 0 {
        let hr = h.skip(1);
        let lr = l.skip(1);
        assert(l.contains(l[0]));
        assert(h.contains(h[0]));
        assert forall|j: int| 0 <= j < hr.len() implies width(#[trigger] hr[j]) == width(lr[j]) && lr[j] != '<' && hr[j]
            != '&' by {
            assert(hr[j] == h[j + 1]);
            assert(l.contains(l[j + 1]));
            assert(h.contains(h[j + 1]));
        }
        plain_is_visible(hr, lr);
        assert(seq![h[0]] + hr =~= h);
    } else {
        assert(h =~= Seq::<char>::empty());
    }
}

/// A page without tags and entities is its own readable text, up to white space.
pub proof fn plain_page_is_kept(h: Seq<char>, l: Seq<char>)
    requires
        aligned(h, l),
        !l.contains('<'),
        !h.contains('&'),
    ensures
        stripped(h, l) == Some(trimmed(collapsed(h, false))),
{
    plain_is_visible(h, l);
    aligned_copy_is_enough(h, l);
}

proof fn collapsed_tidy_is_same(s: Seq<char>, after_space: bool)
    requires
        single_blanks(s, after_space),
    ensures
        collapsed(s, after_space) == s,
    decreases s.len(),
{
    if s.len() > 0 {
        let rest = s.skip(1);
        assert forall|i: int| #![trigger rest[i]] 0 <= i < rest.len() && is_space(rest[i]) implies rest[i] == ' ' by {
            assert(rest[i] == s[i + 1]);
        }
        assert forall|i: int| #![trigger rest[i]] 0 <= i < rest.len() - 1 && is_space(rest[i]) implies !is_space(
            rest[i + 1],
        ) by {
            assert(rest[i] == s[i + 1]);
            assert(rest[i + 1] == s[i + 2]);
        }
        assert(is_space(s[0]) && rest.len() > 0 ==> rest[0] == s[1]);
        collapsed_tidy_is_same(rest, is_space(s[0]));
        assert(seq![s[0]] + rest =~= s);
    }
}

/// Tidy text without tags and entities is left as it is: to strip such a page twice gives
/// what stripping it once gives.
pub proof fn tidy_text_is_kept(h: Seq<char>, l: Seq<char>)
    requires
        aligned(h, l),
        !l.contains('<'),
        !h.contains('&'),
        tidy(h),
    ensures
        stripped(h, l) == Some(h),
{
    plain_page_is_kept(h, l);
    collapsed_tidy_is_same(h, false);
    assert(h.len() > 0 ==> !is_space(h[0]) && !is_space(h.last()));
    assert(trimmed_start(h) == h);
}

/// A part of a page, and the part of the lower-case copy that goes with it.
pub struct Page {
    pub text: Seq<char>,
    pub lower: Seq<char>,
}

impl Page {
    /// The two keep step.
    pub open spec fn wf(self) -> bool {
        aligned(self.text, self.lower)
    }

    /// Two parts, one behind the other.
    pub open spec fn then_comes(self, next: Page) -> Page {
        Page { text: self.text + next.text, lower: self.lower + next.lower }
    }

    /// The readable text of the part as a page of its own.
    pub open spec fn readable(self) -> Option<Seq<char>> {
        stripped(self.text, self.lower)
    }

    /// What is visible of the part.
    pub open spec fn shown(self, inside: Inside) -> Seq<char> {
        visible(self.text, self.lower, inside)
    }

    /// The part behind its first `n` characters.
    pub open spec fn behind(self, n: int) -> Page {
        Page { text: self.text.skip(n), lower: self.lower.skip(n) }
    }

    /// The part ends in text, whatever stands behind it: no tag, script or style sheet is open at
    /// its end, nor an entity.
    pub open spec fn settled(self, inside: Inside) -> bool
        decreases self.text.len(),
    {
        if self.text.len() == 0 {
            inside == Inside::Text
        } else if self.lower[0] == '<' {
            match find_char(self.lower, '>', 0) {
                Some(gt) => 0 <= gt < self.text.len() && self.behind(gt + 1).settled(
                    behind_tag(self.lower, 0, gt, inside),
                ),
                None => false,
            }
        } else if inside != Inside::Text {
            self.behind(1).settled(inside)
        } else {
            match entity_end(self.text, 0) {
                Some(semi) => 0 <= semi < self.text.len() && self.behind(semi + 1).settled(inside),
                None => {
                    &&& self.text[0] == '&' ==> find_char(self.text, ';', 0) is Some || size(self.text) > 8
                    &&& self.behind(1).settled(inside)
                },
            }
        }
    }

    /// The part is a tag from its `<` to its `>`.
    pub open spec fn is_tag(self) -> bool {
        &&& self.lower.len() > 1
        &&& self.lower[0] == '<'
        &&& find_char(self.lower, '>', 0) == Some(self.lower.len() - 1)
    }

    /// What the walk is in behind the part, which is a tag in the text.
    pub open spec fn opens(self) -> Inside {
        behind_tag(self.lower, 0, self.lower.len() - 1, Inside::Text)
    }
}

/// A part of a script or a style sheet: the tag that ends it does not stand in it, and each `<` in
/// it has its `>`.
pub open spec fn stays_inside(lower: Seq<char>, inside: Inside) -> bool
    decreases lower.len(),
{
    if lower.len() == 0 {
        true
    } else if lower[0] == '<' {
        &&& !matches_at(lower, 0, closing(inside))
        &&& find_char(lower, '>', 0) matches Some(gt) && 0 <= gt < lower.len() && stays_inside(
            lower.skip(gt + 1),
            inside,
        )
    } else {
        stays_inside(lower.skip(1), inside)
    }
}

proof fn found_in_front(s: Seq<char>, t: Seq<char>, c: char, from: int)
    requires
        0 <= from,
        find_char(s, c, from) is Some,
    ensures
        find_char(s + t, c, from) == find_char(s, c, from),
    decreases s.len() - from,
{
    assert((s + t)[from] == s[from]);
    if s[from] != c {
        found_in_front(s, t, c, from + 1);
    }
}

proof fn closing_ends_once(inside: Inside)
    requires
        inside != Inside::Text,
    ensures
        closing(inside).len() > 1,
        closing(inside)[0] == '<',
        forall|i: int| 0 <= i < closing(inside).len() ==> (closing(inside)[i] == '>') == (i == closing(inside).len() - 1),
        find_char(closing(inside), '>', 0) == Some(closing(inside).len() - 1),
{
    reveal_strlit("</script>");
    reveal_strlit("</style>");
    let c = closing(inside);
    find_char_is_first(c, '>', 0);
    assert(c[c.len() - 1] == '>');
}

proof fn tag_in_front(s: Seq<char>, t: Seq<char>, gt: int, inside: Inside)
    requires
        s.len() > 0,
        s[0] == '<',
        find_char(s, '>', 0) == Some(gt),
    ensures
        0 < gt < s.len(),
        find_char(s + t, '>', 0) == Some(gt),
        behind_tag(s + t, 0, gt, inside) == behind_tag(s, 0, gt, inside),
        inside != Inside::Text ==> matches_at(s + t, 0, closing(inside)) == matches_at(s, 0, closing(inside)),
{
    let all = s + t;
    find_char_is_first(s, '>', 0);
    found_in_front(s, t, '>', 0);
    assert(all.subrange(1, gt) =~= s.subrange(1, gt));
    if inside != Inside::Text {
        let c = closing(inside);
        let n = c.len() as int;
        closing_ends_once(inside);
        if matches_at(all, 0, c) {
            assert(all.subrange(0, n)[n - 1] == '>');
            if gt < n - 1 {
                assert(all.subrange(0, n)[gt] == c[gt]);
                assert(all[gt] == s[gt]);
            }
            if gt >= n {
                assert(all[n - 1] == s[n - 1]);
            }
            assert(s.subrange(0, n) =~= all.subrange(0, n));
        }
        if matches_at(s, 0, c) {
            assert(s.subrange(0, n) =~= all.subrange(0, n));
        }
    }
}

proof fn settled_part_is_shown(p: Page, q: Page, inside: Inside)
    requires
        p.wf(),
        p.settled(inside),
    ensures
        p.then_comes(q).shown(inside) == p.shown(inside) + q.shown(Inside::Text),
    decreases p.text.len(),
{
    let h = p.text + q.text;
    let l = p.lower + q.lower;
    if p.text.len() == 0 {
        assert(h =~= q.text);
        assert(l =~= q.lower);
        assert(p.shown(inside) + q.shown(Inside::Text) =~= q.shown(Inside::Text));
    } else {
        assert(h[0] == p.text[0] && l[0] == p.lower[0]);
        if p.lower[0] == '<' {
            let gt = find_char(p.lower, '>', 0)->0;
            tag_in_front(p.lower, q.lower, gt, inside);
            part_behind(p, q, gt + 1);
            settled_part_is_shown(p.behind(gt + 1), q, behind_tag(p.lower, 0, gt, inside));
        } else if inside != Inside::Text {
            part_behind(p, q, 1);
            settled_part_is_shown(p.behind(1), q, inside);
        } else {
            find_char_is_first(p.text, ';', 0);
            if let Some(semi) = find_char(p.text, ';', 0) {
                found_in_front(p.text, q.text, ';', 0);
                offset_of_prefix(p.text, h, semi);
            } else if p.text[0] == '&' {
                find_char_is_first(h, ';', 0);
                if let Some(semi) = find_char(h, ';', 0) {
                    if semi < p.text.len() {
                        assert(h[semi] == p.text[semi]);
                    }
                    offset_of_prefix(p.text, h, p.text.len() as int);
                    offset_grows(h, p.text.len() as int, semi);
                }
            }
            match entity_end(p.text, 0) {
                Some(semi) => {
                    part_behind(p, q, semi + 1);
                    settled_part_is_shown(p.behind(semi + 1), q, inside);
                    assert(h.subrange(1, semi) =~= p.text.subrange(1, semi));
                    let r = replacement(p.text.subrange(1, semi));
                    assert(r + (p.behind(semi + 1).shown(inside) + q.shown(Inside::Text)) =~= r + p.behind(
                        semi + 1,
                    ).shown(inside) + q.shown(Inside::Text));
                },
                None => {
                    part_behind(p, q, 1);
                    settled_part_is_shown(p.behind(1), q, inside);
                    assert(seq![h[0]] + (p.behind(1).shown(inside) + q.shown(Inside::Text)) =~= seq![h[0]] + p.behind(
                        1,
                    ).shown(inside) + q.shown(Inside::Text));
                },
            }
        }
    }
}

proof fn part_behind(p: Page, q: Page, n: int)
    requires
        p.wf(),
        0 <= n <= p.text.len(),
    ensures
        p.behind(n).wf(),
        p.then_comes(q).behind(n) == p.behind(n).then_comes(q),
{
    assert((p.text + q.text).skip(n) =~= p.text.skip(n) + q.text);
    assert((p.lower + q.lower).skip(n) =~= p.lower.skip(n) + q.lower);
    let b = p.behind(n);
    assert forall|j: int| 0 <= j < b.text.len() implies width(#[trigger] b.text[j]) == width(b.lower[j]) by {
        assert(b.text[j] == p.text[n + j]);
    }
}

proof fn tag_is_not_shown(tag: Page, q: Page, inside: Inside)
    requires
        tag.wf(),
        tag.is_tag(),
    ensures
        tag.then_comes(q).shown(inside) == q.shown(behind_tag(tag.lower, 0, tag.lower.len() - 1, inside)),
{
    let n = tag.lower.len() as int;
    tag_in_front(tag.lower, q.lower, n - 1, inside);
    assert((tag.text + q.text).skip(n) =~= q.text);
    assert((tag.lower + q.lower).skip(n) =~= q.lower);
}

proof fn inner_part_is_not_shown(body: Page, q: Page, inside: Inside)
    requires
        body.wf(),
        inside != Inside::Text,
        stays_inside(body.lower, inside),
    ensures
        body.then_comes(q).shown(inside) == q.shown(inside),
    decreases body.text.len(),
{
    if body.text.len() == 0 {
        assert(body.text + q.text =~= q.text);
        assert(body.lower + q.lower =~= q.lower);
    } else {
        assert((body.lower + q.lower)[0] == body.lower[0]);
        if body.lower[0] == '<' {
            let gt = find_char(body.lower, '>', 0)->0;
            tag_in_front(body.lower, q.lower, gt, inside);
            part_behind(body, q, gt + 1);
            inner_part_is_not_shown(body.behind(gt + 1), q, inside);
        } else {
            part_behind(body, q, 1);
            inner_part_is_not_shown(body.behind(1), q, inside);
        }
    }
}

proof fn parts_keep_step(p: Page, q: Page)
    requires
        p.wf(),
        q.wf(),
    ensures
        p.then_comes(q).wf(),
{
    let all = p.then_comes(q);
    assert forall|j: int| 0 <= j < all.text.len() implies width(#[trigger] all.text[j]) == width(all.lower[j]) by {
        if j < p.text.len() {
            assert(all.text[j] == p.text[j]);
        } else {
            assert(all.text[j] == q.text[j - p.text.len()]);
        }
    }
}

/// A tag that opens neither a script nor a style sheet vanishes: the page reads as if it were not
/// there.
pub proof fn tag_vanishes(p: Page, tag: Page, q: Page)
    requires
        p.wf(),
        tag.wf(),
        q.wf(),
        p.settled(Inside::Text),
        tag.is_tag(),
        tag.opens() == Inside::Text,
    ensures
        p.then_comes(tag.then_comes(q)).readable() == p.then_comes(q).readable(),
{
    parts_keep_step(tag, q);
    parts_keep_step(p, tag.then_comes(q));
    parts_keep_step(p, q);
    settled_part_is_shown(p, tag.then_comes(q), Inside::Text);
    settled_part_is_shown(p, q, Inside::Text);
    tag_is_not_shown(tag, q, Inside::Text);
    aligned_copy_is_enough(p.text + (tag.text + q.text), p.lower + (tag.lower + q.lower));
    aligned_copy_is_enough(p.text + q.text, p.lower + q.lower);
}

/// A script or a style sheet vanishes with its tags: the page reads as if it were not there.
pub proof fn hidden_part_vanishes(p: Page, tag: Page, body: Page, end: Page, q: Page)
    requires
        p.wf(),
        tag.wf(),
        body.wf(),
        end.wf(),
        q.wf(),
        p.settled(Inside::Text),
        tag.is_tag(),
        tag.opens() != Inside::Text,
        stays_inside(body.lower, tag.opens()),
        end.lower == closing(tag.opens()),
    ensures
        p.then_comes(tag.then_comes(body.then_comes(end.then_comes(q)))).readable() == p.then_comes(q).readable(),
{
    let inside = tag.opens();
    let from_end = end.then_comes(q);
    let from_body = body.then_comes(from_end);
    let from_tag = tag.then_comes(from_body);
    parts_keep_step(end, q);
    parts_keep_step(body, from_end);
    parts_keep_step(tag, from_body);
    parts_keep_step(p, from_tag);
    parts_keep_step(p, q);
    settled_part_is_shown(p, from_tag, Inside::Text);
    settled_part_is_shown(p, q, Inside::Text);
    tag_is_not_shown(tag, from_body, Inside::Text);
    inner_part_is_not_shown(body, from_end, inside);
    closing_ends_once(inside);
    assert(end.lower.subrange(0, end.lower.len() as int) =~= end.lower);
    tag_is_not_shown(end, q, inside);
    aligned_copy_is_enough(p.text + from_tag.text, p.lower + from_tag.lower);
    aligned_copy_is_enough(p.text + q.text, p.lower + q.lower);
}

/// A `<` without its `>` drops the rest of the page.
pub proof fn open_tag_drops_the_rest(p: Page, rest: Page)
    requires
        p.wf(),
        rest.wf(),
        p.settled(Inside::Text),
        rest.lower.len() > 0,
        rest.lower[0] == '<',
        !rest.lower.contains('>'),
    ensures
        p.then_comes(rest).readable() == p.readable(),
{
    parts_keep_step(p, rest);
    settled_part_is_shown(p, rest, Inside::Text);
    find_char_is_first(rest.lower, '>', 0);
    if let Some(gt) = find_char(rest.lower, '>', 0) {
        assert(rest.lower.contains(rest.lower[gt]));
    }
    assert(p.shown(Inside::Text) + Seq::<char>::empty() =~= p.shown(Inside::Text));
    aligned_copy_is_enough(p.text + rest.text, p.lower + rest.lower);
    aligned_copy_is_enough(p.text, p.lower);
}

proof fn scan_is_no_longer(h: Seq<char>, l: Seq<char>, i: int, inside: Inside)
    ensures
        scan(h, l, i, inside) matches Some(t) ==> if i >= size(h) {
            t.len() == 0
        } else {
            at_byte(h, i) matches Some(k) && t.len() <= h.len() - k
        },
    decreases bytes_left(h, i),
{
    if i < size(h) && at_byte(h, i) is Some && at_byte(l, i) is Some {
        scan_moves(h, l, i);
        let hk = at_byte(h, i)->0;
        let lk = at_byte(l, i)->0;
        if lk < l.len() && l[lk] == '<' {
            if let Some(gt) = find_char(l, '>', lk) {
                let to = offset(l, gt + 1);
                scan_is_no_longer(h, l, to, behind_tag(l, lk, gt, inside));
                at_byte_is_there(h, to);
                if let Some(k) = at_byte(h, to) {
                    if k < hk {
                        offset_grows(h, k, hk);
                    }
                }
            }
        } else {
            let to = offset(h, hk + 1);
            scan_is_no_longer(h, l, to, inside);
            at_byte_finds(h, hk + 1);
            if let Some(semi) = entity_end(h, hk) {
                scan_is_no_longer(h, l, offset(h, semi + 1), inside);
                at_byte_finds(h, semi + 1);
                find_char_is_first(h, ';', hk);
            }
        }
    }
}

proof fn collapsed_is_no_longer(s: Seq<char>, after_space: bool)
    ensures
        collapsed(s, after_space).len() <= s.len(),
    decreases s.len(),
{
    if s.len() > 0 {
        collapsed_is_no_longer(s.skip(1), true);
        collapsed_is_no_longer(s.skip(1), false);
    }
}

/// The readable text of a page is never longer than the page.
pub proof fn stripped_is_no_longer(h: Seq<char>, l: Seq<char>)
    ensures
        stripped(h, l) matches Some(t) ==> t.len() <= h.len(),
{
    if let Some(t) = scan(h, l, 0, Inside::Text) {
        scan_is_no_longer(h, l, 0, Inside::Text);
        at_byte_finds(h, 0);
        collapsed_is_no_longer(t, false);
        trimmed_start_part(collapsed(t, false));
        trimmed_end_part(trimmed_start(collapsed(t, false)));
    }
}

proof fn collapsed_keeps_words(s: Seq<char>, after_space: bool, word: Seq<char>)
    requires
        after_space ==> word.len() == 0,
    ensures
        words_behind(word, collapsed(s, after_space)) == words_behind(word, s),
    decreases s.len(),
{
    let none = Seq::<char>::empty();
    let c = collapsed(s, after_space);
    if s.len() > 0 {
        if is_space(s[0]) {
            collapsed_keeps_words(s.skip(1), true, none);
            if after_space {
                assert(word =~= none);
                assert(Seq::<Seq<char>>::empty() + words(s.skip(1)) =~= words(s.skip(1)));
            } else {
                assert(c[0] == ' ');
                assert(c.skip(1) =~= collapsed(s.skip(1), true));
            }
        } else {
            collapsed_keeps_words(s.skip(1), false, word.push(s[0]));
            assert(c[0] == s[0]);
            assert(c.skip(1) =~= collapsed(s.skip(1), false));
        }
    }
}

proof fn tidy_text_is_its_words(s: Seq<char>)
    requires
        tidy(s),
    ensures
        joined(words(s), " "@) == s,
    decreases s.len(),
{
    let none = Seq::<char>::empty();
    reveal_strlit(" ");
    assert(" "@ =~= seq![' ']);
    if s.len() == 0 {
        assert(words(s) =~= Seq::<Seq<char>>::empty());
        assert(s =~= none);
    } else {
        find_char_is_first(s, ' ', 0);
        assert forall|i: int| 0 <= i < s.len() && is_space(#[trigger] s[i]) implies s[i] == ' ' by {}
        match find_char(s, ' ', 0) {
            None => {
                words_are_kept_apart(s, ' ', none);
                assert(words(s) == seq![s]);
            },
            Some(i) => {
                let run = s.take(i);
                let rest = s.skip(i + 1);
                assert(s =~= run + seq![' '] + rest);
                assert(is_space(s[i]));
                assert forall|k: int| 0 <= k < run.len() implies !is_space(#[trigger] run[k]) by {
                    assert(run[k] == s[k]);
                }
                words_are_kept_apart(run, ' ', rest);
                assert forall|k: int| #![trigger rest[k]] 0 <= k < rest.len() && is_space(rest[k]) implies {
                    &&& rest[k] == ' '
                    &&& 0 < k < rest.len() - 1
                    &&& !is_space(rest[k + 1])
                } by {
                    assert(rest[k] == s[i + 1 + k]);
                    if k < rest.len() - 1 {
                        assert(rest[k + 1] == s[i + 2 + k]);
                    }
                    assert(!is_space(s[i + 1]));
                }
                tidy_text_is_its_words(rest);
                let all = words(s);
                assert(all == seq![run] + words(rest));
                assert(!is_space(rest[0]));
                if words(rest).len() == 0 {
                    assert(rest.len() == 0);
                }
                joined_begins_with_the_first(all, " "@);
                assert(all.skip(1) =~= words(rest));
            },
        }
    }
}

/// The readable text of a page is the words of what is visible of it, with one blank between each
/// two: white space of any kind, and any amount of it, keeps words apart, and nothing else does.
pub proof fn readable_text_is_the_words(h: Seq<char>, l: Seq<char>)
    requires
        aligned(h, l),
    ensures
        stripped(h, l) == Some(joined(words(visible(h, l, Inside::Text)), " "@)),
        stripped(h, l) matches Some(t) && words(t) == words(visible(h, l, Inside::Text)),
{
    let v = visible(h, l, Inside::Text);
    let t = trimmed(collapsed(v, false));
    aligned_copy_is_enough(h, l);
    stripped_is_tidy(h, l);
    tidy_text_is_its_words(t);
    trimmed_keeps_words(collapsed(v, false));
    collapsed_keeps_words(v, false, Seq::empty());
}

/// Words stay apart: the words of a page without tags and entities are those of its readable text,
/// and that is these words with one blank between each two.
pub proof fn words_of_a_plain_page_stay(h: Seq<char>, l: Seq<char>)
    requires
        aligned(h, l),
        !l.contains('<'),
        !h.contains('&'),
    ensures
        stripped(h, l) == Some(joined(words(h), " "@)),
        stripped(h, l) matches Some(t) && words(t) == words(h),
{
    plain_is_visible(h, l);
    readable_text_is_the_words(h, l);
}

/// An entity of at most 8 bytes up to its semicolon is read as what stands for its name, and the
/// page goes on behind it; an unknown one is read as nothing.
pub proof fn entity_is_read(name: Seq<char>, rest: Seq<char>, l: Seq<char>)
    requires
        aligned(seq!['&'] + name + seq![';'] + rest, l),
        !l.contains('<'),
        !name.contains(';'),
        size(name) <= 7,
    ensures
        visible(seq!['&'] + name + seq![';'] + rest, l, Inside::Text) == replacement(name) + visible(
            rest,
            l.skip(name.len() as int + 2),
            Inside::Text,
        ),
        name != "amp"@ && name != "lt"@ && name != "gt"@ && name != "quot"@ && name != "apos"@ && name != "nbsp"@
            ==> replacement(name).len() == 0,
{
    let h = seq!['&'] + name + seq![';'] + rest;
    let semi: int = 1 + name.len() as int;
    assert(h[0] == '&');
    assert(h[semi] == ';');
    find_char_is_first(h, ';', 0);
    let k = find_char(h, ';', 0)->0;
    if k < semi {
        assert(h[k] == name[k - 1]);
        assert(name.contains(name[k - 1]));
    }
    offset_behind(h, 1, name.len() as int);
    offset_of_prefix(h.skip(1), name, name.len() as int);
    assert(offset(h, 1) == 1) by {
        assert(offset(h, 0) == 0);
        assert(width('&') == 1);
    }
    assert(l.contains(l[0]));
    assert(h.subrange(1, semi) =~= name);
    assert(h.skip(semi + 1) =~= rest);
}

/// How a character is written so that a page shows it.
pub open spec fn escaped_char(c: char) -> Seq<char> {
    if c == '&' {
        "&amp;"@
    } else if c == '<' {
        "&lt;"@
    } else if c == '>' {
        "&gt;"@
    } else if c == '"' {
        "&quot;"@
    } else if c == '\'' {
        "&apos;"@
    } else if c == ' ' {
        "&nbsp;"@
    } else {
        seq![c]
    }
}

/// A text written so that a page shows it.
pub open spec fn escaped(s: Seq<char>) -> Seq<char>
    decreases s.len(),
{
    if s.len() == 0 {
        Seq::empty()
    } else {
        escaped_char(s[0]) + escaped(s.skip(1))
    }
}

/// The name of the entity that stands for a character; none for most.
spec fn entity_name(c: char) -> Seq<char> {
    if c == '&' {
        "amp"@
    } else if c == '<' {
        "lt"@
    } else if c == '>' {
        "gt"@
    } else if c == '"' {
        "quot"@
    } else if c == '\'' {
        "apos"@
    } else if c == ' ' {
        "nbsp"@
    } else {
        Seq::empty()
    }
}

proof fn entity_of_char(c: char)
    ensures
        entity_name(c).len() > 0 ==> escaped_char(c) == seq!['&'] + entity_name(c) + seq![';'] && replacement(
            entity_name(c),
        ) == seq![c],
        entity_name(c).len() == 0 ==> escaped_char(c) == seq![c] && c != '&',
        !entity_name(c).contains(';'),
        size(entity_name(c)) <= 4,
{
    reveal_strlit("amp");
    reveal_strlit("lt");
    reveal_strlit("gt");
    reveal_strlit("quot");
    reveal_strlit("apos");
    reveal_strlit("nbsp");
    reveal_strlit("&amp;");
    reveal_strlit("&lt;");
    reveal_strlit("&gt;");
    reveal_strlit("&quot;");
    reveal_strlit("&apos;");
    reveal_strlit("&nbsp;");
    reveal_with_fuel(offset, 6);
    let n = entity_name(c);
    assert(n.len() > 0 ==> escaped_char(c) =~= seq!['&'] + n + seq![';']);
    assert("amp"@[0] == 'a' && "apos"@[1] == 'p' && "quot"@[0] == 'q' && "nbsp"@[0] == 'n' && "lt"@[0] == 'l'
        && "gt"@[0] == 'g');
    assert("amp"@.len() == 3 && "lt"@.len() == 2 && "gt"@.len() == 2 && "quot"@.len() == 4 && "apos"@.len() == 4
        && "nbsp"@.len() == 4);
}

/// What is written so that a page shows it is shown: escaping undoes nothing and adds nothing.
pub proof fn escaped_text_is_shown(s: Seq<char>, l: Seq<char>)
    requires
        aligned(escaped(s), l),
        !l.contains('<'),
    ensures
        visible(escaped(s), l, Inside::Text) == s,
        stripped(escaped(s), l) == Some(joined(words(s), " "@)),
    decreases s.len(),
{
    let h = escaped(s);
    if s.len() > 0 {
        let c = s[0];
        let first = escaped_char(c);
        let rest = escaped(s.skip(1));
        let n = first.len() as int;
        let name = entity_name(c);
        entity_of_char(c);
        if name.len() > 0 {
            assert(h =~= seq!['&'] + name + seq![';'] + rest);
            entity_is_read(name, rest, l);
        } else {
            assert(h[0] == c);
            assert(l.contains(l[0]));
            assert(h.skip(1) =~= rest);
        }
        let lr = l.skip(n);
        assert forall|j: int| 0 <= j < rest.len() implies width(#[trigger] rest[j]) == width(lr[j]) && lr[j] != '<' by {
            assert(h[n + j] == rest[j]);
            assert(l.contains(l[n + j]));
        }
        escaped_text_is_shown(s.skip(1), lr);
        assert(seq![c] + s.skip(1) =~= s);
    } else {
        assert(s =~= Seq::<char>::empty());
    }
    readable_text_is_the_words(h, l);
}

/// An ampersand without a semicolon near behind it stands for itself.
pub proof fn lone_ampersand_is_shown(rest: Seq<char>, l: Seq<char>)
    requires
        aligned(seq!['&'] + rest, l),
        !l.contains('<'),
        forall|i: int| 0 <= i < rest.len() && rest[i] == ';' ==> #[trigger] offset(rest, i) > 7,
    ensures
        visible(seq!['&'] + rest, l, Inside::Text) == seq!['&'] + visible(rest, l.skip(1), Inside::Text),
{
    let h = seq!['&'] + rest;
    assert(l.contains(l[0]));
    assert(h.skip(1) =~= rest);
    find_char_is_first(h, ';', 0);
    if let Some(semi) = find_char(h, ';', 0) {
        assert(rest[semi - 1] == ';');
        offset_behind(h, 1, semi - 1);
        assert(offset(h, 0) == 0);
        assert(offset(h, 1) == 1);
        assert(offset(rest, semi - 1) > 7);
    }
}

proof fn name_is_in_front(name: Seq<char>, rest: Seq<char>)
    requires
        forall|i: int| 0 <= i < name.len() ==> is_alnum(#[trigger] name[i]),
        rest.len() > 0 ==> !is_alnum(rest[0]),
    ensures
        tag_name(name + rest) == name,
    decreases name.len(),
{
    let tag = name + rest;
    if name.len() == 0 {
        assert(tag =~= rest);
        assert(name =~= Seq::<char>::empty());
    } else {
        assert(tag[0] == name[0]);
        assert(tag.skip(1) =~= name.skip(1) + rest);
        name_is_in_front(name.skip(1), rest);
        assert(seq![name[0]] + name.skip(1) =~= name);
    }
}

/// A tag opens what its name says: a script, a style sheet, or neither for any other name. The
/// name is the letters and digits behind its `<`; what follows them makes no difference.
pub proof fn tag_opens_by_its_name(tag: Page, name: Seq<char>, rest: Seq<char>)
    requires
        tag.lower == seq!['<'] + name + rest + seq!['>'],
        forall|i: int| 0 <= i < name.len() ==> is_alnum(#[trigger] name[i]),
        rest.len() > 0 ==> !is_alnum(rest[0]),
        !rest.contains('>'),
    ensures
        tag.is_tag(),
        tag.opens() == Inside::Script <==> name == "script"@,
        tag.opens() == Inside::Style <==> name == "style"@,
        tag.opens() == Inside::Text <==> name != "script"@ && name != "style"@,
{
    let l = tag.lower;
    let n = l.len() as int;
    reveal_strlit("script");
    reveal_strlit("style");
    assert("script"@.len() == 6 && "style"@.len() == 5);
    name_is_in_front(name, rest);
    assert(l.subrange(1, n - 1) =~= name + rest);
    assert(l[0] == '<');
    assert(l[n - 1] == '>');
    find_char_is_first(l, '>', 0);
    let k = find_char(l, '>', 0)->0;
    if k < n - 1 {
        if k <= name.len() {
            assert(l[k] == name[k - 1]);
        } else {
            assert(l[k] == rest[k - 1 - name.len()]);
            assert(rest.contains(rest[k - 1 - name.len()]));
        }
    }
}

/// What stands between `<script` and `</script>`, or between `<style` and `</style>`, is not
/// shown, whatever the attributes of the tag: the page reads as if it were not there.
pub proof fn scripts_and_styles_vanish(p: Page, tag: Page, rest: Seq<char>, body: Page, end: Page, q: Page, script: bool)
    requires
        p.wf(),
        tag.wf(),
        body.wf(),
        end.wf(),
        q.wf(),
        p.settled(Inside::Text),
        tag.lower == seq!['<'] + (if script {
            "script"@
        } else {
            "style"@
        }) + rest + seq!['>'],
        rest.len() > 0 ==> !is_alnum(rest[0]),
        !rest.contains('>'),
        !body.lower.contains('<'),
        end.lower == (if script {
            "</script>"@
        } else {
            "</style>"@
        }),
    ensures
        p.then_comes(tag.then_comes(body.then_comes(end.then_comes(q)))).readable() == p.then_comes(q).readable(),
{
    reveal_strlit("script");
    reveal_strlit("style");
    let name = if script {
        "script"@
    } else {
        "style"@
    };
    assert("script"@.len() == 6 && "style"@.len() == 5);
    assert forall|i: int| 0 <= i < name.len() implies is_alnum(#[trigger] name[i]) by {}
    tag_opens_by_its_name(tag, name, rest);
    no_tag_stays_inside(body.lower, tag.opens());
    hidden_part_vanishes(p, tag, body, end, q);
}

proof fn no_tag_stays_inside(lower: Seq<char>, inside: Inside)
    requires
        !lower.contains('<'),
    ensures
        stays_inside(lower, inside),
    decreases lower.len(),
{
    if lower.len() > 0 {
        assert(lower.contains(lower[0]));
        assert forall|c: char| lower.skip(1).contains(c) implies lower.contains(c) by {
            let k = lower.skip(1).index_of(c);
            assert(lower[k + 1] == c);
        }
        no_tag_stays_inside(lower.skip(1), inside);
    }
}

/// Plain text ends in text.
pub proof fn plain_part_is_settled(p: Page)
    requires
        p.wf(),
        !p.lower.contains('<'),
        !p.text.contains('&'),
    ensures
        p.settled(Inside::Text),
    decreases p.text.len(),
{
    if p.text.len() > 0 {
        let q = p.behind(1);
        part_behind(p, p, 1);
        assert(p.lower.contains(p.lower[0]));
        assert(p.text.contains(p.text[0]));
        assert forall|c: char| q.text.contains(c) implies p.text.contains(c) by {
            let k = q.text.index_of(c);
            assert(p.text[k + 1] == c);
        }
        assert forall|c: char| q.lower.contains(c) implies p.lower.contains(c) by {
            let k = q.lower.index_of(c);
            assert(p.lower[k + 1] == c);
        }
        plain_part_is_settled(q);
    }
}

} // verus!
