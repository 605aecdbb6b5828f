//! Characters, substrings and lines: the string operations that the rest of the library is
//! written with. Text is worked on as a sequence of `char`; [`chars_of`] and [`text_of`] go
//! from and to `str` and `String`.

use vstd::prelude::*;
use vstd::slice::slice_subrange;
use vstd::string::*;

verus! {

/// `String::push` puts one character behind the text.
pub assume_specification[ String::push ](s: &mut String, c: char)
    ensures
        final(s)@ == old(s)@.push(c),
;

/// The characters of `s`.
pub fn chars_of(s: &str) -> (r: Vec<char>)
    ensures
        r@ == s@,
{
    let mut out: Vec<char> = Vec::new();
    for c in it: s.chars()
        invariant
            out@ == s@.take(it.index()),
            it.seq() == s@,
            it.index() <= s@.len(),
    {
        out.push(c);
        assert(s@.take(it.index() + 1) =~= s@.take(it.index()).push(s@[it.index()]));
    }
    assert(s@.take(s@.len() as int) =~= s@);
    out
}

/// The text that `v` spells.
pub fn text_of(v: &[char]) -> (r: String)
    ensures
        r@ == v@,
{
    let mut out = String::new();
    let n: usize = v.len();
    for i in 0..n
        invariant
            n == v@.len(),
            out@ == v@.take(i as int),
    {
        out.push(v[i]);
        assert(v@.take(i + 1) =~= v@.take(i as int).push(v@[i as int]));
    }
    assert(v@.take(n as int) =~= v@);
    out
}

/// The characters `a..b` of `s`.
pub fn part(s: &[char], a: usize, b: usize) -> (r: Vec<char>)
    requires
        a <= b <= s@.len(),
    ensures
        r@ == s@.subrange(a as int, b as int),
{
    let mut out: Vec<char> = Vec::new();
    for i in a..b
        invariant
            a <= b <= s@.len(),
            out@ == s@.subrange(a as int, i as int),
    {
        out.push(s[i]);
        assert(s@.subrange(a as int, i + 1) =~= s@.subrange(a as int, i as int).push(s@[i as int]));
    }
    out
}

/// Puts the characters of `more` behind `out`.
pub fn extend(out: &mut Vec<char>, more: &[char])
    ensures
        final(out)@ == old(out)@ + more@,
{
    let n: usize = more.len();
    let ghost start = out@;
    assert(start + more@.take(0) =~= start);
    for i in 0..n
        invariant
            n == more@.len(),
            out@ == start + more@.take(i as int),
    {
        out.push(more[i]);
        assert(more@.take(i + 1) =~= more@.take(i as int).push(more@[i as int]));
    }
    assert(more@.take(n as int) =~= more@);
}

/// Whether `a` and `b` hold the same characters.
pub fn same(a: &[char], b: &[char]) -> (r: bool)
    ensures
        r == (a@ == b@),
{
    if a.len() != b.len() {
        return false;
    }
    let n: usize = a.len();
    for i in 0..n
        invariant
            n == a@.len(),
            n == b@.len(),
            forall|j: int| 0 <= j < i ==> a@[j] == b@[j],
    {
        if a[i] != b[i] {
            return false;
        }
    }
    assert(a@ =~= b@);
    true
}

/// Whether `a` is the text `b`.
pub fn text_is(a: &str, b: &str) -> (r: bool)
    ensures
        r == (a@ == b@),
{
    let x = chars_of(a);
    let y = chars_of(b);
    same(x.as_slice(), y.as_slice())
}

/// `p` stands in `s` at character `i`.
pub open spec fn matches_at(s: Seq<char>, i: int, p: Seq<char>) -> bool {
    &&& 0 <= i
    &&& i + p.len() <= s.len()
    &&& s.subrange(i, i + p.len()) == p
}

/// Whether `p` stands in `s` at character `i`.
pub fn matches_here(s: &[char], i: usize, p: &[char]) -> (r: bool)
    ensures
        r == matches_at(s@, i as int, p@),
{
    if i > s.len() || s.len() - i < p.len() {
        return false;
    }
    let n: usize = p.len();
    let len: usize = s.len();
    for j in 0..n
        invariant
            n == p@.len(),
            len == s@.len(),
            i + n <= len,
            forall|k: int| 0 <= k < j ==> s@[i + k] == p@[k],
    {
        if s[i + j] != p[j] {
            assert(s@.subrange(i as int, i + p@.len())[j as int] != p@[j as int]);
            return false;
        }
    }
    assert(s@.subrange(i as int, i + p@.len()) =~= p@);
    true
}

/// The first character, from `from` on, at which `p` stands in `s`.
pub open spec fn find(s: Seq<char>, p: Seq<char>, from: int) -> Option<int>
    decreases s.len() - from + 1,
{
    if from < 0 || from + p.len() > s.len() {
        None
    } else if matches_at(s, from, p) {
        Some(from)
    } else {
        find(s, p, from + 1)
    }
}

/// What `find` returns lies in the text, and `p` stands there and nowhere before.
pub proof fn find_is_first(s: Seq<char>, p: Seq<char>, from: int)
    requires
        0 <= from,
    ensures
        find(s, p, from) matches Some(i) ==> {
            &&& from <= i
            &&& i + p.len() <= s.len()
            &&& matches_at(s, i, p)
            &&& forall|j: int| from <= j < i ==> !matches_at(s, j, p)
        },
        find(s, p, from) is None ==> forall|j: int| from <= j ==> !matches_at(s, j, p),
    decreases s.len() - from + 1,
{
    if from + p.len() <= s.len() && !matches_at(s, from, p) {
        find_is_first(s, p, from + 1);
    }
}

/// Finds `p` in `s` from character `from` on.
pub fn find_from(s: &[char], p: &[char], from: usize) -> (r: Option<usize>)
    ensures
        r is Some == find(s@, p@, from as int) is Some,
        r matches Some(i) ==> find(s@, p@, from as int) == Some(i as int) && from <= i && i + p@.len()
            <= s@.len() <= usize::MAX && matches_at(s@, i as int, p@),
{
    let n: usize = s.len();
    let m: usize = p.len();
    let mut i: usize = from;
    while i <= n && m <= n - i
        invariant
            n == s@.len(),
            m == p@.len(),
            from <= i,
            i <= n || i == from,
            find(s@, p@, from as int) == find(s@, p@, i as int),
        decreases n - i,
    {
        if matches_here(s, i, p) {
            return Some(i);
        }
        if i == n {
            assert(find(s@, p@, i + 1) is None);
            return None;
        }
        i = i + 1;
    }
    None
}

/// [`find_from`] for a pattern given as text.
pub fn find_text(s: &[char], p: &str, from: usize) -> (r: Option<usize>)
    ensures
        r is Some == find(s@, p@, from as int) is Some,
        r matches Some(i) ==> find(s@, p@, from as int) == Some(i as int) && from <= i && i + p@.len()
            <= s@.len() <= usize::MAX && matches_at(s@, i as int, p@),
{
    let pat = chars_of(p);
    find_from(s, pat.as_slice(), from)
}

/// The first character, from `from` on, that is `c`.
pub open spec fn find_char(s: Seq<char>, c: char, from: int) -> Option<int>
    decreases s.len() - from,
{
    if from < 0 || from >= s.len() {
        None
    } else if s[from] == c {
        Some(from)
    } else {
        find_char(s, c, from + 1)
    }
}

/// Finds `c` in `s` from character `from` on.
pub fn find_char_from(s: &[char], c: char, from: usize) -> (r: Option<usize>)
    ensures
        r is Some == find_char(s@, c, from as int) is Some,
        r matches Some(i) ==> find_char(s@, c, from as int) == Some(i as int) && from <= i < s@.len()
            && s@.len() <= usize::MAX && s@[i as int] == c,
{
    let n: usize = s.len();
    let mut i: usize = from;
    while i < n
        invariant
            n == s@.len(),
            from <= i,
            find_char(s@, c, from as int) == find_char(s@, c, i as int),
        decreases n - i,
    {
        if s[i] == c {
            return Some(i);
        }
        i = i + 1;
    }
    None
}

/// What `find_char` returns is the first place of `c`.
pub proof fn find_char_is_first(s: Seq<char>, c: char, from: int)
    requires
        0 <= from,
    ensures
        find_char(s, c, from) matches Some(i) ==> {
            &&& from <= i < s.len()
            &&& s[i] == c
            &&& forall|j: int| from <= j < i ==> s[j] != c
        },
        find_char(s, c, from) is None ==> forall|j: int| from <= j < s.len() ==> s[j] != c,
    decreases s.len() - from,
{
    if from < s.len() && s[from] != c {
        find_char_is_first(s, c, from + 1);
    }
}

/// The Unicode white space characters.
pub open spec fn is_space(c: char) -> bool {
    ||| '\u{9}' <= c <= '\u{d}'
    ||| c == ' '
    ||| c == '\u{85}'
    ||| c == '\u{a0}'
    ||| c == '\u{1680}'
    ||| '\u{2000}' <= c <= '\u{200a}'
    ||| c == '\u{2028}'
    ||| c == '\u{2029}'
    ||| c == '\u{202f}'
    ||| c == '\u{205f}'
    ||| c == '\u{3000}'
}

/// Whether `c` is white space.
pub fn space(c: char) -> (r: bool)
    ensures
        r == is_space(c),
{
    ('\u{9}' <= c && c <= '\u{d}') || c == ' ' || c == '\u{85}' || c == '\u{a0}' || c == '\u{1680}'
        || ('\u{2000}' <= c && c <= '\u{200a}') || c == '\u{2028}' || c == '\u{2029}' || c
        == '\u{202f}' || c == '\u{205f}' || c == '\u{3000}'
}

/// `s` without the white space at its start.
pub open spec fn trimmed_start(s: Seq<char>) -> Seq<char>
    decreases s.len(),
{
    if s.len() > 0 && is_space(s[0]) {
        trimmed_start(s.skip(1))
    } else {
        s
    }
}

/// `s` without the white space at its end.
pub open spec fn trimmed_end(s: Seq<char>) -> Seq<char>
    decreases s.len(),
{
    if s.len() > 0 && is_space(s.last()) {
        trimmed_end(s.drop_last())
    } else {
        s
    }
}

/// `s` without the white space at its two ends.
pub open spec fn trimmed(s: Seq<char>) -> Seq<char> {
    trimmed_end(trimmed_start(s))
}

proof fn start_is_no_space(s: Seq<char>)
    ensures
        trimmed_start(s).len() > 0 ==> !is_space(trimmed_start(s)[0]),
    decreases s.len(),
{
    if s.len() > 0 && is_space(s[0]) {
        start_is_no_space(s.skip(1));
    }
}

proof fn end_is_no_space(s: Seq<char>)
    ensures
        trimmed_end(s).len() > 0 ==> !is_space(trimmed_end(s).last()) && trimmed_end(s)[0] == s[0],
    decreases s.len(),
{
    if s.len() > 0 && is_space(s.last()) {
        end_is_no_space(s.drop_last());
    }
}

/// Trimming a trimmed text changes nothing.
pub proof fn trimmed_is_trimmed(s: Seq<char>)
    ensures
        trimmed(trimmed(s)) == trimmed(s),
{
    start_is_no_space(s);
    end_is_no_space(trimmed_start(s));
    let t = trimmed(s);
    assert(trimmed_start(t) == t);
    assert(trimmed_end(t) == t);
}

/// The part of `s` behind the white space at its start.
pub fn trim_start<'a>(s: &'a [char]) -> (r: &'a [char])
    ensures
        r@ == trimmed_start(s@),
{
    let n: usize = s.len();
    let mut i: usize = 0;
    assert(s@.skip(0) =~= s@);
    while i < n && space(s[i])
        invariant
            n == s@.len(),
            i <= n,
            trimmed_start(s@) == trimmed_start(s@.skip(i as int)),
        decreases n - i,
    {
        assert(s@.skip(i as int).skip(1) =~= s@.skip(i + 1));
        i = i + 1;
    }
    assert(s@.subrange(i as int, n as int) =~= s@.skip(i as int));
    slice_subrange(s, i, n)
}

/// The part of `s` before the white space at its end.
pub fn trim_end<'a>(s: &'a [char]) -> (r: &'a [char])
    ensures
        r@ == trimmed_end(s@),
{
    let mut n: usize = s.len();
    assert(s@.take(n as int) =~= s@);
    while n > 0 && space(s[n - 1])
        invariant
            n <= s@.len(),
            trimmed_end(s@) == trimmed_end(s@.take(n as int)),
        decreases n,
    {
        assert(s@.take(n as int).drop_last() =~= s@.take(n - 1));
        n = n - 1;
    }
    assert(s@.subrange(0, n as int) =~= s@.take(n as int));
    slice_subrange(s, 0, n)
}

/// `s` between the white space at its two ends.
pub fn trim<'a>(s: &'a [char]) -> (r: &'a [char])
    ensures
        r@ == trimmed(s@),
{
    trim_end(trim_start(s))
}

/// `s` between the white space at its two ends.
pub fn trim_text(s: &str) -> (r: String)
    ensures
        r@ == trimmed(s@),
{
    let v = chars_of(s);
    text_of(trim(v.as_slice()))
}

/// Whether `s` holds nothing but white space.
pub fn blank(s: &str) -> (r: bool)
    ensures
        r == (trimmed(s@).len() == 0),
{
    let v = chars_of(s);
    trim(v.as_slice()).len() == 0
}

/// `a` behind a copy of `b`.
pub fn cat(a: &str, b: &str) -> (r: String)
    ensures
        r@ == a@ + b@,
{
    let mut out = String::from_str(a);
    out.append(b);
    out
}

/// The views of a list of texts.
pub open spec fn views(v: Seq<String>) -> Seq<Seq<char>> {
    v.map_values(|s: String| s@)
}

/// What a text that may be missing says.
pub open spec fn text_view(s: Option<String>) -> Option<Seq<char>> {
    match s {
        Some(t) => Some(t@),
        None => None,
    }
}

/// `parts` with `sep` between each two.
pub open spec fn joined(parts: Seq<Seq<char>>, sep: Seq<char>) -> Seq<char>
    decreases parts.len(),
{
    if parts.len() == 0 {
        Seq::empty()
    } else if parts.len() == 1 {
        parts[0]
    } else {
        joined(parts.drop_last(), sep) + sep + parts.last()
    }
}

/// `parts` with `sep` between each two.
pub fn join(parts: &Vec<String>, sep: &str) -> (r: String)
    ensures
        r@ == joined(views(parts@), sep@),
{
    let mut out = String::new();
    let n: usize = parts.len();
    let ghost all = views(parts@);
    for i in 0..n
        invariant
            n == parts@.len(),
            all == views(parts@),
            out@ == joined(all.take(i as int), sep@),
    {
        if i > 0 {
            out.append(sep);
        }
        out.append(parts[i].as_str());
        assert(all.take(i + 1).drop_last() =~= all.take(i as int));
        assert(all[i as int] == parts@[i as int]@);
        assert(Seq::<char>::empty() + all[i as int] =~= all[i as int]);
    }
    assert(all.take(n as int) =~= all);
    out
}

/// The pieces of `s` between the characters `c`; one piece where there is no `c`.
pub open spec fn pieces(s: Seq<char>, c: char) -> Seq<Seq<char>>
    decreases s.len(),
{
    match find_char(s, c, 0) {
        Some(i) => if 0 <= i < s.len() {
            seq![s.take(i)] + pieces(s.skip(i + 1), c)
        } else {
            seq![s]
        },
        None => seq![s],
    }
}

/// Splits `s` at each `c`.
pub fn split(s: &[char], c: char) -> (r: Vec<String>)
    ensures
        views(r@) == pieces(s@, c),
{
    let n: usize = s.len();
    let mut out: Vec<String> = Vec::new();
    let mut start: usize = 0;
    assert(s@.skip(0) =~= s@);
    assert(views(out@) + pieces(s@, c) =~= pieces(s@, c));
    loop
        invariant
            n == s@.len(),
            start <= n,
            pieces(s@, c) == views(out@) + pieces(s@.skip(start as int), c),
        decreases n - start,
    {
        let rest = slice_subrange(s, start, n);
        assert(rest@ =~= s@.skip(start as int));
        let ghost before = views(out@);
        match find_char_from(rest, c, 0) {
            Some(i) => {
                let piece = slice_subrange(rest, 0, i);
                assert(piece@ =~= rest@.take(i as int));
                let p = text_of(piece);
                out.push(p);
                assert(views(out@) =~= before.push(p@));
                assert(rest@.skip(i + 1) =~= s@.skip(start + i + 1));
                assert(before + (seq![p@] + pieces(s@.skip(start + i + 1), c)) =~= views(out@)
                    + pieces(s@.skip(start + i + 1), c));
                start = start + i + 1;
            },
            None => {
                let p = text_of(rest);
                out.push(p);
                assert(views(out@) =~= before + seq![p@]);
                return out;
            },
        }
    }
}

/// `s` without a carriage return at its end.
pub open spec fn without_cr(s: Seq<char>) -> Seq<char> {
    if s.len() > 0 && s.last() == '\r' {
        s.drop_last()
    } else {
        s
    }
}

/// The lines of `s`: each ends before a line feed, or before a carriage return and a line
/// feed; the last needs neither and is left out where it is empty.
pub open spec fn lines_of(s: Seq<char>) -> Seq<Seq<char>>
    decreases s.len(),
{
    if s.len() == 0 {
        Seq::empty()
    } else {
        match find_char(s, '\n', 0) {
            Some(i) => if 0 <= i < s.len() {
                seq![without_cr(s.take(i))] + lines_of(s.skip(i + 1))
            } else {
                seq![s]
            },
            None => seq![s],
        }
    }
}

/// Splits `s` into its lines.
pub fn lines(s: &[char]) -> (r: Vec<String>)
    ensures
        views(r@) == lines_of(s@),
{
    let n: usize = s.len();
    let mut out: Vec<String> = Vec::new();
    let mut start: usize = 0;
    assert(s@.skip(0) =~= s@);
    assert(views(out@) + lines_of(s@) =~= lines_of(s@));
    while start < n
        invariant
            n == s@.len(),
            start <= n,
            lines_of(s@) == views(out@) + lines_of(s@.skip(start as int)),
        decreases n - start,
    {
        let rest = slice_subrange(s, start, n);
        assert(rest@ =~= s@.skip(start as int));
        let ghost before = views(out@);
        match find_char_from(rest, '\n', 0) {
            Some(i) => {
                let end: usize = if i > 0 && rest[i - 1] == '\r' {
                    i - 1
                } else {
                    i
                };
                let piece = slice_subrange(rest, 0, end);
                assert(piece@ =~= without_cr(rest@.take(i as int)));
                let p = text_of(piece);
                out.push(p);
                assert(views(out@) =~= before.push(p@));
                assert(rest@.skip(i + 1) =~= s@.skip(start + i + 1));
                assert(before + (seq![p@] + lines_of(s@.skip(start + i + 1))) =~= views(out@)
                    + lines_of(s@.skip(start + i + 1)));
                start = start + i + 1;
            },
            None => {
                let p = text_of(rest);
                out.push(p);
                assert(views(out@) =~= before + seq![p@]);
                return out;
            },
        }
    }
    assert(views(out@) + lines_of(s@.skip(start as int)) =~= views(out@));
    out
}

/// The words of `s`: its runs of characters that are no white space, where `word` went before and
/// belongs to the first.
pub open spec fn words_behind(word: Seq<char>, s: Seq<char>) -> Seq<Seq<char>>
    decreases s.len(),
{
    if s.len() > 0 && !is_space(s[0]) {
        words_behind(word.push(s[0]), s.skip(1))
    } else {
        (if word.len() > 0 {
            seq![word]
        } else {
            Seq::empty()
        }) + (if s.len() > 0 {
            words_behind(Seq::empty(), s.skip(1))
        } else {
            Seq::empty()
        })
    }
}

/// The words of a text: its runs of characters that are no white space.
pub open spec fn words(s: Seq<char>) -> Seq<Seq<char>> {
    words_behind(Seq::empty(), s)
}

proof fn word_is_read(word: Seq<char>, run: Seq<char>, s: Seq<char>)
    requires
        forall|i: int| 0 <= i < run.len() ==> !is_space(#[trigger] run[i]),
    ensures
        words_behind(word, run + s) == words_behind(word + run, s),
    decreases run.len(),
{
    if run.len() == 0 {
        assert(run + s =~= s);
        assert(word + run =~= word);
    } else {
        assert((run + s)[0] == run[0]);
        assert((run + s).skip(1) =~= run.skip(1) + s);
        word_is_read(word.push(run[0]), run.skip(1), s);
        assert(word.push(run[0]) + run.skip(1) =~= word + run);
    }
}

/// Words are what white space keeps apart: a run of other characters, with white space behind it,
/// is one word, and the words of the rest follow.
pub proof fn words_are_kept_apart(run: Seq<char>, c: char, s: Seq<char>)
    requires
        forall|i: int| 0 <= i < run.len() ==> !is_space(#[trigger] run[i]),
        is_space(c),
    ensures
        run.len() > 0 ==> words(run) == seq![run] && words(run + seq![c] + s) == seq![run] + words(s),
        run.len() == 0 ==> words(run + seq![c] + s) == words(s),
{
    let none = Seq::<char>::empty();
    assert(none + run =~= run);
    assert(run + none =~= run);
    word_is_read(none, run, none);
    assert(run + seq![c] + s =~= run + (seq![c] + s));
    word_is_read(none, run, seq![c] + s);
    assert((seq![c] + s)[0] == c);
    assert((seq![c] + s).skip(1) =~= s);
    assert(seq![run] + Seq::<Seq<char>>::empty() =~= seq![run]);
    assert(Seq::<Seq<char>>::empty() + words(s) =~= words(s));
}

proof fn space_at_the_end(word: Seq<char>, s: Seq<char>)
    requires
        s.len() > 0,
        is_space(s.last()),
    ensures
        words_behind(word, s.drop_last()) == words_behind(word, s),
    decreases s.len(),
{
    let less = s.drop_last();
    if s.len() == 1 {
        assert(less =~= Seq::<char>::empty());
        assert(s.skip(1) =~= Seq::<char>::empty());
        assert(words(Seq::<char>::empty()) =~= Seq::<Seq<char>>::empty());
    } else {
        assert(less[0] == s[0]);
        assert(less.skip(1) =~= s.skip(1).drop_last());
        space_at_the_end(word.push(s[0]), s.skip(1));
        space_at_the_end(Seq::empty(), s.skip(1));
    }
}

/// Trimming keeps the words.
pub proof fn trimmed_keeps_words(s: Seq<char>)
    ensures
        words(trimmed(s)) == words(s),
{
    start_keeps_words(s);
    end_keeps_words(trimmed_start(s));
}

proof fn start_keeps_words(s: Seq<char>)
    ensures
        words(trimmed_start(s)) == words(s),
    decreases s.len(),
{
    if s.len() > 0 && is_space(s[0]) {
        start_keeps_words(s.skip(1));
        assert(Seq::<Seq<char>>::empty() + words(s.skip(1)) =~= words(s.skip(1)));
    }
}

proof fn end_keeps_words(s: Seq<char>)
    ensures
        words(trimmed_end(s)) == words(s),
    decreases s.len(),
{
    if s.len() > 0 && is_space(s.last()) {
        end_keeps_words(s.drop_last());
        space_at_the_end(Seq::empty(), s);
    }
}

/// What trimming leaves begins and ends with other characters than white space, and what it takes
/// away is white space alone.
pub proof fn trimmed_is_the_middle(s: Seq<char>)
    ensures
        exists|a: int, b: int| {
            &&& 0 <= a <= b <= s.len()
            &&& trimmed(s) == #[trigger] s.subrange(a, b)
            &&& forall|i: int| 0 <= i < a || b <= i < s.len() ==> is_space(#[trigger] s[i])
        },
        trimmed(s).len() > 0 ==> !is_space(trimmed(s)[0]) && !is_space(trimmed(s).last()),
{
    start_is_no_space(s);
    end_is_no_space(trimmed_start(s));
    let a = start_place(s);
    let t = trimmed_start(s);
    let b = end_place(t);
    assert(s.subrange(a, a + b) =~= t.take(b));
    assert forall|i: int| 0 <= i < a || a + b <= i < s.len() implies is_space(#[trigger] s[i]) by {
        if i >= a + b {
            assert(t[i - a] == s[i]);
        }
    }
}

proof fn start_place(s: Seq<char>) -> (a: int)
    ensures
        0 <= a <= s.len(),
        trimmed_start(s) == s.skip(a),
        forall|i: int| 0 <= i < a ==> is_space(#[trigger] s[i]),
    decreases s.len(),
{
    if s.len() > 0 && is_space(s[0]) {
        let a = start_place(s.skip(1));
        assert(s.skip(1).skip(a) =~= s.skip(a + 1));
        assert forall|i: int| 0 <= i < a + 1 implies is_space(#[trigger] s[i]) by {
            if i > 0 {
                assert(s.skip(1)[i - 1] == s[i]);
            }
        }
        a + 1
    } else {
        assert(s.skip(0) =~= s);
        0
    }
}

proof fn end_place(s: Seq<char>) -> (b: int)
    ensures
        0 <= b <= s.len(),
        trimmed_end(s) == s.take(b),
        forall|i: int| b <= i < s.len() ==> is_space(#[trigger] s[i]),
    decreases s.len(),
{
    if s.len() > 0 && is_space(s.last()) {
        let b = end_place(s.drop_last());
        assert(s.drop_last().take(b) =~= s.take(b));
        assert forall|i: int| b <= i < s.len() implies is_space(#[trigger] s[i]) by {
            if i < s.len() - 1 {
                assert(s.drop_last()[i] == s[i]);
            }
        }
        b
    } else {
        assert(s.take(s.len() as int) =~= s);
        s.len() as int
    }
}

/// Joined parts begin with the first, and the others follow behind a separator each.
pub proof fn joined_begins_with_the_first(parts: Seq<Seq<char>>, sep: Seq<char>)
    requires
        parts.len() >= 2,
    ensures
        joined(parts, sep) == parts[0] + sep + joined(parts.skip(1), sep),
    decreases parts.len(),
{
    let init = parts.drop_last();
    let rest = parts.skip(1);
    assert(rest.last() == parts.last());
    if parts.len() == 2 {
        assert(init.len() == 1 && init[0] == parts[0]);
        assert(rest.len() == 1 && rest[0] == parts[1]);
        assert(joined(init, sep) == parts[0]);
        assert(joined(rest, sep) == parts[1]);
        assert(joined(parts, sep) == joined(init, sep) + sep + parts.last());
    } else {
        joined_begins_with_the_first(init, sep);
        assert(init.skip(1) =~= rest.drop_last());
        assert(init[0] == parts[0]);
        assert(joined(parts, sep) == joined(init, sep) + sep + parts.last());
        assert(joined(rest, sep) == joined(rest.drop_last(), sep) + sep + rest.last());
        assert(parts[0] + sep + joined(rest.drop_last(), sep) + sep + parts.last() =~= parts[0] + sep + (joined(
            rest.drop_last(),
            sep,
        ) + sep + parts.last()));
    }
}

proof fn first_char_is_at(s: Seq<char>, c: char, i: int)
    requires
        0 <= i < s.len(),
        s[i] == c,
        forall|j: int| 0 <= j < i ==> #[trigger] s[j] != c,
    ensures
        find_char(s, c, 0) == Some(i),
{
    find_char_is_first(s, c, 0);
}

/// A text up to a line feed is a line, without a carriage return at its end, and the lines of the
/// rest follow; what stands behind the last line feed is a line where it is not empty.
pub proof fn lines_end_at_line_feeds(line: Seq<char>, rest: Seq<char>)
    requires
        !line.contains('\n'),
    ensures
        lines_of(line + seq!['\n'] + rest) == seq![
            if line.len() > 0 && line.last() == '\r' {
                line.drop_last()
            } else {
                line
            },
        ] + lines_of(rest),
        line.len() > 0 ==> lines_of(line) == seq![line],
        lines_of(Seq::empty()).len() == 0,
{
    let all = line + seq!['\n'] + rest;
    let n = line.len() as int;
    assert(all[n] == '\n');
    assert forall|j: int| 0 <= j < n implies #[trigger] all[j] != '\n' by {
        assert(all[j] == line[j]);
        assert(line.contains(line[j]));
    }
    first_char_is_at(all, '\n', n);
    assert(all.take(n) =~= line);
    assert(all.skip(n + 1) =~= rest);
    find_char_is_first(line, '\n', 0);
    if let Some(i) = find_char(line, '\n', 0) {
        assert(line.contains(line[i]));
    }
}

/// Texts that are joined by a character that none of them holds are its pieces again.
pub proof fn pieces_come_back(parts: Seq<Seq<char>>, c: char)
    requires
        parts.len() > 0,
        forall|i: int| 0 <= i < parts.len() ==> !(#[trigger] parts[i]).contains(c),
    ensures
        pieces(joined(parts, seq![c]), c) == parts,
    decreases parts.len(),
{
    let all = joined(parts, seq![c]);
    let p = parts[0];
    if parts.len() == 1 {
        find_char_is_first(p, c, 0);
        if let Some(i) = find_char(p, c, 0) {
            assert(p.contains(p[i]));
        }
        assert(seq![p] =~= parts);
    } else {
        let rest = parts.skip(1);
        joined_begins_with_the_first(parts, seq![c]);
        assert forall|i: int| 0 <= i < rest.len() implies !(#[trigger] rest[i]).contains(c) by {
            assert(rest[i] == parts[i + 1]);
        }
        pieces_come_back(rest, c);
        let n = p.len() as int;
        assert(all[n] == c);
        assert forall|j: int| 0 <= j < n implies #[trigger] all[j] != c by {
            assert(all[j] == p[j]);
            assert(p.contains(p[j]));
        }
        first_char_is_at(all, c, n);
        assert(all.take(n) =~= p);
        assert(all.skip(n + 1) =~= joined(rest, seq![c]));
        assert(seq![p] + rest =~= parts);
    }
}

/// White space is what Unicode calls so, by its code points.
pub proof fn white_space_by_code(c: char)
    ensures
        is_space(c) <==> {
            let n = c as u32;
            ||| 9 <= n <= 13
            ||| n == 32
            ||| n == 133
            ||| n == 160
            ||| n == 5760
            ||| 8192 <= n <= 8202
            ||| n == 8232
            ||| n == 8233
            ||| n == 8239
            ||| n == 8287
            ||| n == 12288
        },
{
}

} // verus!
