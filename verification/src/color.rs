//! Colours, and how they are written.

use vstd::prelude::*;
use crate::decimal::{hex_byte, hex_pair, hex_value, printed_byte_reads_back, push_hex, read_hex_pair};
use crate::text::{chars_of, is_space, text_of, trim, trimmed, trimmed_end, trimmed_start};
use crate::utf8::{offset, size, size_of, width, width_of};

verus! {

/// A colour.
#[derive(Clone, Copy, PartialEq, Eq, Structural, Debug)]
pub struct Rgb {
    pub r: u8,
    pub g: u8,
    pub b: u8,
}

/// A text without the signs `#` at its front.
pub open spec fn without_hashes(s: Seq<char>) -> Seq<char>
    decreases s.len(),
{
    if s.len() > 0 && s[0] == '#' {
        without_hashes(s.skip(1))
    } else {
        s
    }
}

/// What two bytes of a text say.
pub enum Pair {
    /// A byte in hexadecimal.
    Byte(u8),
    /// Nothing.
    Other,
    /// That a character is cut in two.
    Cut,
}

/// What the two bytes from the `i`-th character on say.
pub open spec fn pair_at(s: Seq<char>, i: int) -> Pair {
    if i < s.len() && width(s[i]) == 2 {
        Pair::Other
    } else if i + 1 < s.len() && width(s[i]) == 1 && width(s[i + 1]) == 1 {
        match hex_pair(s[i] as int, s[i + 1] as int) {
            Some(v) => Pair::Byte(v as u8),
            None => Pair::Other,
        }
    } else {
        Pair::Cut
    }
}

/// The colour that six bytes stand for, two for each part; `None` for none. There is nothing
/// at all where a character is cut in two before the first pair that says nothing.
pub open spec fn six_bytes(s: Seq<char>) -> Option<Option<Rgb>> {
    match pair_at(s, 0) {
        Pair::Cut => None,
        Pair::Other => Some(None),
        Pair::Byte(r) => match pair_at(s, 2) {
            Pair::Cut => None,
            Pair::Other => Some(None),
            Pair::Byte(g) => match pair_at(s, 4) {
                Pair::Cut => None,
                Pair::Other => Some(None),
                Pair::Byte(b) => Some(Some(Rgb { r, g, b })),
            },
        },
    }
}

/// The colour that a text stands for; `None` for none. There is nothing at all where a
/// character is cut in two.
pub open spec fn color_of(hex: Seq<char>) -> Option<Option<Rgb>> {
    let h = without_hashes(trimmed(hex));
    if size(h) == 6 {
        six_bytes(h)
    } else {
        Some(None)
    }
}

fn byte_of(a: char, b: char) -> (r: Option<u8>)
    ensures
        r is Some == hex_pair(a as int, b as int) is Some,
        r matches Some(v) ==> hex_pair(a as int, b as int) == Some(v as int),
{
    read_hex_pair(a as u32, b as u32)
}

fn read_pair(s: &[char], i: usize) -> (r: Option<Option<u8>>)
    requires
        i <= s@.len(),
    ensures
        match pair_at(s@, i as int) {
            Pair::Byte(v) => r == Some(Some(v)),
            Pair::Other => r matches Some(None),
            Pair::Cut => r is None,
        },
{
    let n: usize = s.len();
    if i < n && width_of(s[i]) == 2 {
        return Some(None);
    }
    if i < n && n - i > 1 && width_of(s[i]) == 1 && width_of(s[i + 1]) == 1 {
        return Some(byte_of(s[i], s[i + 1]));
    }
    None
}

fn is_six(s: &[char]) -> (r: bool)
    ensures
        r == (size(s@) == 6),
{
    let text = text_of(s);
    size_of(text.as_str()) == 6
}

fn strip_hashes(s: &[char]) -> (r: Vec<char>)
    ensures
        r@ == without_hashes(s@),
{
    let n: usize = s.len();
    let mut i: usize = 0;
    assert(s@.skip(0) =~= s@);
    while i < n && s[i] == '#'
        invariant
            n == s@.len(),
            i <= n,
            without_hashes(s@) == without_hashes(s@.skip(i as int)),
        decreases n - i,
    {
        assert(s@.skip(i as int)[0] == s@[i as int]);
        assert(s@.skip(i as int).skip(1) =~= s@.skip(i + 1));
        i = i + 1;
    }
    if i < n {
        assert(s@.skip(i as int)[0] == s@[i as int]);
    }
    let r = crate::text::part(s, i, n);
    assert(r@ =~= s@.skip(i as int));
    r
}

/// The colour that a text stands for, if it stands for one: three bytes in hexadecimal, with
/// or without signs `#` before them. `None` where a character is cut in two.
pub fn try_hex_to_color(hex: &str) -> (r: Option<Option<Rgb>>)
    ensures
        r == color_of(hex@),
{
    let chars = chars_of(hex);
    let h = strip_hashes(trim(chars.as_slice()));
    if !is_six(h.as_slice()) {
        return Some(None);
    }
    proof {
        three_pairs(h@);
    }
    match read_pair(h.as_slice(), 0) {
        None => None,
        Some(None) => Some(None),
        Some(Some(r)) => match read_pair(h.as_slice(), 2) {
            None => None,
            Some(None) => Some(None),
            Some(Some(g)) => match read_pair(h.as_slice(), 4) {
                None => None,
                Some(None) => Some(None),
                Some(Some(b)) => Some(Some(Rgb { r, g, b })),
            },
        },
    }
}

proof fn three_pairs(s: Seq<char>)
    ensures
        pair_at(s, 0) is Byte ==> s.len() >= 2,
        pair_at(s, 0) is Byte && pair_at(s, 2) is Byte ==> s.len() >= 4,
{
}

/// The colour that a text stands for, if it stands for one: three bytes in hexadecimal, with
/// or without signs `#` before them.
pub fn hex_to_color(hex: &str) -> (r: Option<Rgb>)
    requires
        color_of(hex@) is Some,
    ensures
        Some(r) == color_of(hex@),
{
    match try_hex_to_color(hex) {
        Some(c) => c,
        None => None,
    }
}

/// How a colour is written.
pub open spec fn written(c: Rgb) -> Seq<char> {
    seq!['#'] + hex_byte(c.r) + hex_byte(c.g) + hex_byte(c.b)
}

/// How a colour is written.
pub fn rgb_hex(c: Rgb) -> (r: String)
    ensures
        r@ == written(c),
{
    let mut out: Vec<char> = Vec::new();
    out.push('#');
    push_hex(&mut out, c.r);
    push_hex(&mut out, c.g);
    push_hex(&mut out, c.b);
    assert(out@ =~= written(c));
    text_of(out.as_slice())
}

/// A colour that was written reads back as itself.
pub proof fn written_color_reads_back(c: Rgb)
    ensures
        color_of(written(c)) == Some(Some(c)),
{
    let s = written(c);
    let h = hex_byte(c.r) + hex_byte(c.g) + hex_byte(c.b);
    assert(s.len() == 7);
    assert(!is_space(s[0]));
    assert(!is_space(s.last()));
    assert(trimmed_start(s) == s);
    assert(trimmed_end(s) == s);
    assert(trimmed(s) == s);
    assert(s.skip(1) =~= h);
    assert(h[0] != '#');
    assert(without_hashes(h) == h);
    assert(without_hashes(s) == h);
    printed_byte_reads_back(c.r);
    printed_byte_reads_back(c.g);
    printed_byte_reads_back(c.b);
    assert(h[0] == hex_byte(c.r)[0] && h[1] == hex_byte(c.r)[1]);
    assert(h[2] == hex_byte(c.g)[0] && h[3] == hex_byte(c.g)[1]);
    assert(h[4] == hex_byte(c.b)[0] && h[5] == hex_byte(c.b)[1]);
    assert forall|i: int| 0 <= i < 6 implies width(#[trigger] h[i]) == 1 by {}
    reveal_with_fuel(offset, 7);
    assert(size(h) == 6);
}

/// The colours that are offered.
pub open spec fn offered() -> Seq<Rgb> {
    seq![
        Rgb { r: 244, g: 67, b: 54 },
        Rgb { r: 255, g: 152, b: 0 },
        Rgb { r: 255, g: 235, b: 59 },
        Rgb { r: 76, g: 175, b: 80 },
        Rgb { r: 33, g: 150, b: 243 },
        Rgb { r: 156, g: 39, b: 176 },
        Rgb { r: 233, g: 30, b: 99 },
        Rgb { r: 0, g: 188, b: 212 },
        Rgb { r: 255, g: 255, b: 255 },
        Rgb { r: 158, g: 158, b: 158 },
    ]
}

/// The colours that are offered; [`rgb_hex`] gives the text of each.
pub fn palette() -> (r: Vec<Rgb>)
    ensures
        r@ == offered(),
{
    let r: Vec<Rgb> = vec![
        Rgb { r: 244, g: 67, b: 54 },
        Rgb { r: 255, g: 152, b: 0 },
        Rgb { r: 255, g: 235, b: 59 },
        Rgb { r: 76, g: 175, b: 80 },
        Rgb { r: 33, g: 150, b: 243 },
        Rgb { r: 156, g: 39, b: 176 },
        Rgb { r: 233, g: 30, b: 99 },
        Rgb { r: 0, g: 188, b: 212 },
        Rgb { r: 255, g: 255, b: 255 },
        Rgb { r: 158, g: 158, b: 158 },
    ];
    assert(r@ =~= offered());
    r
}

/// The colours that are given to the first categories when all are coloured anew.
pub open spec fn pool() -> Seq<Seq<char>> {
    seq![
        "#F44336"@, "#FFEB3B"@, "#4CAF50"@, "#2196F3"@, "#9C27B0"@, "#E91E63"@,
        "#00BCD4"@, "#795548"@, "#607D8B"@, "#8BC34A"@, "#3F51B5"@, "#CDDC39"@,
        "#009688"@, "#673AB7"@, "#FFC107"@, "#03A9F4"@, "#D500F9"@, "#AEEA00"@,
        "#FF4081"@, "#64DD17"@, "#00B0FF"@, "#651FFF"@, "#FFAB00"@, "#00E5FF"@,
        "#D50000"@, "#304FFE"@, "#AA00FF"@, "#263238"@, "#FFD600"@,
    ]
}

fn pool_texts() -> (r: Vec<&'static str>)
    ensures
        r@.map_values(|s: &'static str| s@) == pool(),
{
    let r: Vec<&'static str> = vec![
        "#F44336", "#FFEB3B", "#4CAF50", "#2196F3", "#9C27B0", "#E91E63",
        "#00BCD4", "#795548", "#607D8B", "#8BC34A", "#3F51B5", "#CDDC39",
        "#009688", "#673AB7", "#FFC107", "#03A9F4", "#D500F9", "#AEEA00",
        "#FF4081", "#64DD17", "#00B0FF", "#651FFF", "#FFAB00", "#00E5FF",
        "#D50000", "#304FFE", "#AA00FF", "#263238", "#FFD600",
    ];
    assert(r@.map_values(|s: &'static str| s@) =~= pool());
    r
}

/// The colour of a category when all are coloured anew.
#[derive(Clone, Copy, Debug)]
pub enum Rainbow {
    /// One of the pool.
    Pool(&'static str),
    /// The so-manieth that is made up, behind those of the pool.
    Made(usize),
}

/// The colour of the `i`-th category when all are coloured anew: those of the pool go first.
pub fn rainbow(i: usize) -> (r: Rainbow)
    ensures
        match r {
            Rainbow::Pool(hex) => i < pool().len() && hex@ == pool()[i as int],
            Rainbow::Made(k) => k == i - pool().len(),
        },
{
    let texts = pool_texts();
    assert(texts@.map_values(|s: &'static str| s@).len() == texts@.len());
    if i < texts.len() {
        assert(texts@.map_values(|s: &'static str| s@)[i as int] == texts@[i as int]@);
        Rainbow::Pool(texts[i])
    } else {
        Rainbow::Made(i - texts.len())
    }
}

proof fn hashes_go(hashes: Seq<char>, rest: Seq<char>)
    requires
        forall|i: int| 0 <= i < hashes.len() ==> #[trigger] hashes[i] == '#',
        rest.len() > 0 ==> rest[0] != '#',
    ensures
        without_hashes(hashes + rest) == rest,
    decreases hashes.len(),
{
    let all = hashes + rest;
    if hashes.len() > 0 {
        let less = hashes.skip(1);
        assert(hashes[0] == '#');
        assert(all[0] == '#');
        assert(all.skip(1) =~= less + rest);
        assert forall|i: int| 0 <= i < less.len() implies #[trigger] less[i] == '#' by {
            assert(less[i] == hashes[i + 1]);
        }
        hashes_go(less, rest);
    } else {
        assert(all =~= rest);
    }
}

/// Six hexadecimal digits stand for the colour whose red, green and blue they spell, two for each
/// and in that order, whether their letters are small or capital and however many signs `#` stand
/// before them.
pub proof fn six_digits_are_a_color(hashes: Seq<char>, d: Seq<char>)
    requires
        forall|i: int| 0 <= i < hashes.len() ==> #[trigger] hashes[i] == '#',
        d.len() == 6,
        forall|i: int| 0 <= i < 6 ==> hex_value(#[trigger] d[i] as int) is Some,
    ensures
        color_of(hashes + d) matches Some(Some(c)) && c.r == hex_value(d[0] as int)->0 * 16 + hex_value(
            d[1] as int,
        )->0 && c.g == hex_value(d[2] as int)->0 * 16 + hex_value(d[3] as int)->0 && c.b == hex_value(d[4] as int)->0
            * 16 + hex_value(d[5] as int)->0,
{
    let s = hashes + d;
    assert forall|i: int| 0 <= i < 6 implies width(#[trigger] d[i]) == 1 && d[i] != '#' && !is_space(d[i]) by {
        assert(hex_value(d[i] as int) is Some);
    }
    assert(s.last() == d[5]);
    if hashes.len() > 0 {
        assert(hashes[0] == '#');
        assert(s[0] == '#');
    } else {
        assert(s[0] == d[0]);
    }
    assert(trimmed_start(s) == s);
    assert(trimmed_end(s) == s);
    assert(d[0] != '#');
    hashes_go(hashes, d);
    reveal_with_fuel(offset, 7);
    assert(width(d[0]) == 1 && width(d[1]) == 1 && width(d[2]) == 1 && width(d[3]) == 1 && width(d[4]) == 1 && width(
        d[5],
    ) == 1);
    assert(size(d) == 6);
}

/// A text of any other length than six bytes, up to its signs `#`, stands for no colour.
pub proof fn other_lengths_are_no_color(hashes: Seq<char>, d: Seq<char>)
    requires
        forall|i: int| 0 <= i < hashes.len() ==> #[trigger] hashes[i] == '#',
        d.len() > 0,
        d[0] != '#',
        !is_space(d[0]),
        !is_space(d.last()),
        size(d) != 6,
    ensures
        color_of(hashes + d) == Some(None::<Rgb>),
{
    let s = hashes + d;
    assert(s.last() == d.last());
    if hashes.len() > 0 {
        assert(hashes[0] == '#');
        assert(s[0] == '#');
    } else {
        assert(s[0] == d[0]);
    }
    assert(trimmed_start(s) == s);
    assert(trimmed_end(s) == s);
    hashes_go(hashes, d);
}

} // verus!
