//! An answer of the chat, split into prose and tables. Prose is left to a Markdown viewer;
//! tables are laid out cell by cell.

use vstd::prelude::*;
use vstd::string::*;
use crate::text::{chars_of, find_char_from, find_char_is_first, is_space, lines, lines_of, text_of, trim, trim_start, trimmed, trimmed_is_the_middle, trimmed_start, views};

verus! {

/// A piece of an answer. Each piece has the number of a line, by which a viewer tells it from
/// the others.
#[derive(Debug)]
pub enum Block {
    Prose { id: usize, text: String },
    Table { id: usize, rows: Vec<Vec<String>> },
}

/// What a [`Block`] holds.
pub enum Piece {
    Prose { id: int, text: Seq<char> },
    Table { id: int, rows: Seq<Seq<Seq<char>>> },
}

pub open spec fn row_views(rows: Seq<Vec<String>>) -> Seq<Seq<Seq<char>>> {
    rows.map_values(|r: Vec<String>| views(r@))
}

impl View for Block {
    type V = Piece;

    open spec fn view(&self) -> Piece {
        match self {
            Block::Prose { id, text } => Piece::Prose { id: *id as int, text: text@ },
            Block::Table { id, rows } => Piece::Table { id: *id as int, rows: row_views(rows@) },
        }
    }
}

pub open spec fn pieces_of(v: Seq<Block>) -> Seq<Piece> {
    v.map_values(|b: Block| b@)
}

/// A code fence that is open: its character, and how many of them opened it.
#[derive(Clone, Copy, PartialEq, Eq, Structural, Debug)]
pub struct Fence {
    pub mark: char,
    pub len: usize,
}

/// A row of a table without the bar that may open it.
pub open spec fn row_body(line: Seq<char>) -> Seq<char> {
    let t = trimmed(line);
    if t.len() > 0 && t[0] == '|' {
        t.skip(1)
    } else {
        t
    }
}

/// The cells that end in `rest`, and what stands behind the last bar. `cell` is what has been
/// read of the current cell; `escaped` says that a backslash went before.
pub open spec fn scan_cells(rest: Seq<char>, cell: Seq<char>, escaped: bool) -> (Seq<Seq<char>>, Seq<char>)
    decreases rest.len(),
{
    if rest.len() == 0 {
        (Seq::empty(), cell)
    } else {
        let escape = rest[0] == '\\' && !escaped;
        if rest[0] == '|' && !escaped {
            let more = scan_cells(rest.skip(1), Seq::empty(), escape);
            (seq![trimmed(cell)] + more.0, more.1)
        } else {
            scan_cells(rest.skip(1), cell.push(rest[0]), escape)
        }
    }
}

/// The cells of a row: what stands between the bars that no backslash escapes. A bar at the
/// end opens no further cell.
pub open spec fn cells(line: Seq<char>) -> Seq<Seq<char>> {
    let body = row_body(line);
    let found = scan_cells(body, Seq::empty(), false);
    let last = trimmed(found.1);
    if last.len() > 0 || !(body.len() > 0 && body.last() == '|') {
        found.0.push(last)
    } else {
        found.0
    }
}

/// How many characters `c` stand at the start of `s`.
pub open spec fn run(s: Seq<char>, c: char) -> nat
    decreases s.len(),
{
    if s.len() > 0 && s[0] == c {
        1 + run(s.skip(1), c)
    } else {
        0
    }
}

/// The character that a line begins with, behind white space.
pub open spec fn marker(line: Seq<char>) -> char {
    let t = trimmed_start(line);
    if t.len() > 0 {
        t[0]
    } else {
        ' '
    }
}

pub open spec fn marker_run(line: Seq<char>) -> nat {
    run(trimmed_start(line), marker(line))
}

/// A line that opens or closes a code fence.
pub open spec fn is_fence(line: Seq<char>) -> bool {
    (marker(line) == '`' || marker(line) == '~') && marker_run(line) >= 3
}

/// The open fence behind a fence line: a fence is closed by a line of its own character that
/// is at least as long.
pub open spec fn next_fence(fence: Option<Fence>, line: Seq<char>) -> Option<Fence> {
    match fence {
        None => Some(Fence { mark: marker(line), len: marker_run(line) as usize }),
        Some(f) => if f.mark == marker(line) && marker_run(line) >= f.len {
            None
        } else {
            fence
        },
    }
}

/// `s` without the characters `c` at its start.
pub open spec fn without_leading(s: Seq<char>, c: char) -> Seq<char>
    decreases s.len(),
{
    if s.len() > 0 && s[0] == c {
        without_leading(s.skip(1), c)
    } else {
        s
    }
}

/// `s` without the characters `c` at its end.
pub open spec fn without_trailing(s: Seq<char>, c: char) -> Seq<char>
    decreases s.len(),
{
    if s.len() > 0 && s.last() == c {
        without_trailing(s.drop_last(), c)
    } else {
        s
    }
}

/// A cell of the row below a header: dashes, perhaps between colons.
pub open spec fn is_rule(cell: Seq<char>) -> bool {
    let d = without_trailing(without_leading(cell, ':'), ':');
    d.len() > 0 && forall|i: int| 0 <= i < d.len() ==> #[trigger] d[i] == '-'
}

/// A table begins at line `i`: a row with a bar in it, and below it a row of as many rules.
pub open spec fn is_table(ls: Seq<Seq<char>>, i: int) -> bool {
    &&& i + 1 < ls.len()
    &&& ls[i].contains('|')
    &&& cells(ls[i]).len() > 0
    &&& cells(ls[i + 1]).len() == cells(ls[i]).len()
    &&& forall|k: int| 0 <= k < cells(ls[i + 1]).len() ==> is_rule(#[trigger] cells(ls[i + 1])[k])
}

/// A line that goes on with a table.
pub open spec fn is_row(line: Seq<char>) -> bool {
    trimmed(line).len() > 0 && line.contains('|')
}

/// Where the table whose rows begin at line `i` ends.
pub open spec fn table_end(ls: Seq<Seq<char>>, i: int) -> int
    decreases ls.len() - i,
{
    if 0 <= i < ls.len() && is_row(ls[i]) {
        table_end(ls, i + 1)
    } else {
        i
    }
}

/// `row` cut or filled with empty cells to `n` of them.
pub open spec fn resized(row: Seq<Seq<char>>, n: nat) -> Seq<Seq<char>> {
    Seq::new(
        n,
        |k: int|
            if k < row.len() {
                row[k]
            } else {
                Seq::empty()
            },
    )
}

/// The rows of the table from line `i` on, each of `cols` cells.
pub open spec fn table_rows(ls: Seq<Seq<char>>, i: int, cols: nat) -> Seq<Seq<Seq<char>>>
    decreases ls.len() - i,
{
    if 0 <= i < ls.len() && is_row(ls[i]) {
        seq![resized(cells(ls[i]), cols)] + table_rows(ls, i + 1, cols)
    } else {
        Seq::empty()
    }
}

/// The prose before line `i`, if there is any.
pub open spec fn flushed(prose: Seq<char>, i: int) -> Seq<Piece> {
    if prose.len() > 0 {
        seq![Piece::Prose { id: i, text: prose }]
    } else {
        Seq::empty()
    }
}

pub proof fn table_end_moves(ls: Seq<Seq<char>>, i: int)
    requires
        0 <= i <= ls.len(),
    ensures
        i <= table_end(ls, i) <= ls.len(),
    decreases ls.len() - i,
{
    if i < ls.len() && is_row(ls[i]) {
        table_end_moves(ls, i + 1);
    }
}

/// The pieces of an answer from line `i` on. `prose` is what has been read since the last
/// table.
pub open spec fn blocks(ls: Seq<Seq<char>>, i: int, prose: Seq<char>, fence: Option<Fence>) -> Seq<Piece>
    decreases ls.len() - i,
{
    if i < 0 || i >= ls.len() {
        flushed(prose, i)
    } else if is_fence(ls[i]) {
        blocks(ls, i + 1, prose + ls[i] + seq!['\n'], next_fence(fence, ls[i]))
    } else if fence is None && is_table(ls, i) {
        proof {
            table_end_moves(ls, i + 2);
        }
        flushed(prose, i) + seq![
            Piece::Table {
                id: i,
                rows: seq![cells(ls[i])] + table_rows(ls, i + 2, cells(ls[i]).len()),
            },
        ] + blocks(ls, table_end(ls, i + 2), Seq::empty(), fence)
    } else {
        blocks(ls, i + 1, prose + ls[i] + seq!['\n'], fence)
    }
}

/// The cells of a row.
pub fn split_cells(line: &str) -> (r: Vec<String>)
    ensures
        views(r@) == cells(line@),
{
    let v = chars_of(line);
    let t = trim(v.as_slice());
    let n: usize = t.len();
    let start: usize = if n > 0 && t[0] == '|' {
        1
    } else {
        0
    };
    let ghost body = row_body(line@);
    assert(t@.skip(start as int) =~= body);
    let mut out: Vec<String> = Vec::new();
    let mut cell: Vec<char> = Vec::new();
    let mut escaped = false;
    let mut i: usize = start;
    let ghost found = scan_cells(body, Seq::empty(), false);
    assert(cell@ =~= Seq::<char>::empty());
    assert(views(out@) + found.0 =~= found.0);
    while i < n
        invariant
            n == t@.len(),
            start <= i <= n,
            found.0 == views(out@) + scan_cells(t@.skip(i as int), cell@, escaped).0,
            found.1 == scan_cells(t@.skip(i as int), cell@, escaped).1,
        decreases n - i,
    {
        let ch = t[i];
        let ghost rest = t@.skip(i as int);
        assert(rest[0] == ch);
        assert(rest.skip(1) =~= t@.skip(i + 1));
        let ghost prior = views(out@);
        if ch == '|' && !escaped {
            let done = text_of(trim(cell.as_slice()));
            out.push(done);
            assert(views(out@) =~= prior.push(done@));
            cell.clear();
            assert(cell@ =~= Seq::<char>::empty());
            assert(prior + (seq![done@] + scan_cells(t@.skip(i + 1), Seq::empty(), false).0) =~= views(out@)
                + scan_cells(t@.skip(i + 1), Seq::empty(), false).0);
        } else {
            cell.push(ch);
        }
        escaped = ch == '\\' && !escaped;
        i = i + 1;
    }
    assert(views(out@) + Seq::<Seq<char>>::empty() =~= views(out@));
    let last = trim(cell.as_slice());
    let ends_with_bar = n > start && t[n - 1] == '|';
    assert(ends_with_bar == (body.len() > 0 && body.last() == '|'));
    if last.len() > 0 || !ends_with_bar {
        let ghost prior = views(out@);
        let s = text_of(last);
        out.push(s);
        assert(views(out@) =~= prior.push(s@));
    }
    out
}

fn count_run(s: &[char], c: char) -> (r: usize)
    ensures
        r == run(s@, c),
{
    let n: usize = s.len();
    let mut i: usize = 0;
    assert(s@.skip(0) =~= s@);
    while i < n && s[i] == c
        invariant
            n == s@.len(),
            i <= n,
            run(s@, c) == i + run(s@.skip(i as int), c),
        decreases n - i,
    {
        assert(s@.skip(i as int).skip(1) =~= s@.skip(i + 1));
        i = i + 1;
    }
    i
}

fn has_bar(line: &str) -> (r: bool)
    ensures
        r == line@.contains('|'),
{
    let v = chars_of(line);
    proof {
        find_char_is_first(v@, '|', 0);
    }
    match find_char_from(v.as_slice(), '|', 0) {
        Some(i) => {
            assert(v@[i as int] == '|');
            true
        },
        None => false,
    }
}

fn rule(cell: &str) -> (r: bool)
    ensures
        r == is_rule(cell@),
{
    let v = chars_of(cell);
    let mut a: usize = 0;
    let mut b: usize = v.len();
    let n: usize = v.len();
    assert(v@.skip(0) =~= v@);
    while a < n && v[a] == ':'
        invariant
            n == v@.len(),
            a <= n,
            without_leading(v@, ':') == without_leading(v@.skip(a as int), ':'),
        decreases n - a,
    {
        assert(v@.skip(a as int).skip(1) =~= v@.skip(a + 1));
        a = a + 1;
    }
    let ghost lead = without_leading(v@, ':');
    assert(lead =~= v@.skip(a as int));
    assert(v@.subrange(a as int, b as int) =~= lead);
    while b > a && v[b - 1] == ':'
        invariant
            a <= b <= n,
            n == v@.len(),
            without_trailing(lead, ':') == without_trailing(v@.subrange(a as int, b as int), ':'),
        decreases b,
    {
        assert(v@.subrange(a as int, b as int).drop_last() =~= v@.subrange(a as int, b - 1));
        assert(v@.subrange(a as int, b as int).last() == v@[b - 1]);
        b = b - 1;
    }
    let ghost d = v@.subrange(a as int, b as int);
    if b > a {
        assert(d.last() == v@[b - 1]);
    }
    assert(without_trailing(lead, ':') == d);
    if a == b {
        return false;
    }
    let mut i: usize = a;
    while i < b
        invariant
            a <= i <= b <= v@.len(),
            d == v@.subrange(a as int, b as int),
            is_rule(cell@) == (forall|k: int| 0 <= k < d.len() ==> #[trigger] d[k] == '-'),
            forall|k: int| 0 <= k < i - a ==> #[trigger] d[k] == '-',
        decreases b - i,
    {
        if v[i] != '-' {
            assert(d[i - a] != '-');
            return false;
        }
        assert(d[i - a] == '-');
        i = i + 1;
    }
    true
}

fn rules(separator: &Vec<String>) -> (r: bool)
    ensures
        r == (forall|k: int| 0 <= k < views(separator@).len() ==> is_rule(#[trigger] views(separator@)[k])),
{
    let n: usize = separator.len();
    let ghost all = views(separator@);
    for k in 0..n
        invariant
            n == separator@.len(),
            all == views(separator@),
            forall|j: int| 0 <= j < k ==> is_rule(#[trigger] all[j]),
    {
        assert(all[k as int] == separator@[k as int]@);
        if !rule(separator[k].as_str()) {
            return false;
        }
    }
    true
}

fn row(line: &str) -> (r: bool)
    ensures
        r == is_row(line@),
{
    let v = chars_of(line);
    trim(v.as_slice()).len() > 0 && has_bar(line)
}

fn fit(row: Vec<String>, cols: usize) -> (r: Vec<String>)
    ensures
        views(r@) == resized(views(row@), cols as nat),
{
    let mut out: Vec<String> = Vec::new();
    for k in 0..cols
        invariant
            views(out@) == resized(views(row@), k as nat),
    {
        let ghost prior = views(out@);
        if k < row.len() {
            let s = row[k].clone();
            out.push(s);
            assert(views(row@)[k as int] == row@[k as int]@);
            assert(views(out@) =~= prior.push(row@[k as int]@));
        } else {
            let s = String::new();
            out.push(s);
            assert(views(out@) =~= prior.push(Seq::<char>::empty()));
        }
        assert(views(out@) =~= resized(views(row@), (k + 1) as nat));
    }
    out
}

fn put_line(prose: &mut String, line: &str)
    ensures
        final(prose)@ == old(prose)@ + line@ + seq!['\n'],
{
    prose.append(line);
    let ghost mid = prose@;
    prose.push('\n');
    assert(prose@ =~= mid + seq!['\n']);
}

/// Splits an answer into prose and tables.
pub fn markdown_blocks(text: &str) -> (r: Vec<Block>)
    ensures
        pieces_of(r@) == blocks(lines_of(text@), 0, Seq::empty(), None),
{
    let chars = chars_of(text);
    let ls = lines(chars.as_slice());
    let n: usize = ls.len();
    let ghost all = views(ls@);
    let mut out: Vec<Block> = Vec::new();
    let mut prose = String::new();
    let mut fence: Option<Fence> = None;
    let mut i: usize = 0;
    let ghost whole = blocks(all, 0, Seq::empty(), None);
    assert(pieces_of(out@) + whole =~= whole);
    while i < n
        invariant
            n == ls@.len(),
            i <= n,
            all == views(ls@),
            whole == pieces_of(out@) + blocks(all, i as int, prose@, fence),
        decreases n - i,
    {
        assert(all[i as int] == ls@[i as int]@);
        let line = chars_of(ls[i].as_str());
        let t = trim_start(line.as_slice());
        let mark: char = if t.len() > 0 {
            t[0]
        } else {
            ' '
        };
        let count: usize = count_run(t, mark);
        if (mark == '`' || mark == '~') && count >= 3 {
            fence = match fence {
                None => Some(Fence { mark, len: count }),
                Some(f) => if f.mark == mark && count >= f.len {
                    None
                } else {
                    fence
                },
            };
            put_line(&mut prose, ls[i].as_str());
            i = i + 1;
            continue;
        }
        if fence.is_none() && i + 1 < n && has_bar(ls[i].as_str()) {
            let header = split_cells(ls[i].as_str());
            let separator = split_cells(ls[i + 1].as_str());
            assert(all[i + 1] == ls@[i + 1]@);
            assert(views(header@).len() == header@.len());
            assert(views(separator@).len() == separator@.len());
            if header.len() > 0 && separator.len() == header.len() && rules(&separator) {
                let ghost prior = pieces_of(out@);
                let ghost old_prose = prose@;
                if !prose.as_str().is_empty() {
                    let b = Block::Prose { id: i, text: prose };
                    out.push(b);
                    assert(pieces_of(out@) =~= prior.push(b@));
                    prose = String::new();
                }
                assert(pieces_of(out@) =~= prior + flushed(old_prose, i as int));
                assert(prose@ =~= Seq::<char>::empty());
                let table_id: usize = i;
                let cols: usize = header.len();
                let ghost head = views(header@);
                let mut rows: Vec<Vec<String>> = Vec::new();
                rows.push(header);
                assert(row_views(rows@) =~= seq![head]);
                i = i + 2;
                let ghost first = i as int;
                let ghost all_rows = table_rows(all, first, cols as nat);
                assert(row_views(rows@) + all_rows =~= seq![head] + all_rows);
                while i < n && row(ls[i].as_str())
                    invariant
                        n == ls@.len(),
                        first <= i <= n,
                        all == views(ls@),
                        table_end(all, first) == table_end(all, i as int),
                        seq![head] + all_rows == row_views(rows@) + table_rows(all, i as int, cols as nat),
                    decreases n - i,
                {
                    assert(all[i as int] == ls@[i as int]@);
                    let ghost prior_rows = row_views(rows@);
                    let fitted = fit(split_cells(ls[i].as_str()), cols);
                    rows.push(fitted);
                    assert(row_views(rows@) =~= prior_rows.push(views(fitted@)));
                    assert(prior_rows + (seq![views(fitted@)] + table_rows(all, i + 1, cols as nat))
                        =~= row_views(rows@) + table_rows(all, i + 1, cols as nat));
                    i = i + 1;
                }
                if i < n {
                    assert(all[i as int] == ls@[i as int]@);
                }
                assert(row_views(rows@) + Seq::<Seq<Seq<char>>>::empty() =~= row_views(rows@));
                let ghost before_table = pieces_of(out@);
                let b = Block::Table { id: table_id, rows };
                out.push(b);
                assert(pieces_of(out@) =~= before_table.push(b@));
                assert(prior + (flushed(old_prose, table_id as int) + seq![b@] + blocks(
                    all,
                    i as int,
                    Seq::empty(),
                    fence,
                )) =~= pieces_of(out@) + blocks(all, i as int, Seq::empty(), fence));
                continue;
            }
        }
        put_line(&mut prose, ls[i].as_str());
        i = i + 1;
    }
    let ghost prior = pieces_of(out@);
    let ghost old_prose = prose@;
    if !prose.as_str().is_empty() {
        let b = Block::Prose { id: i, text: prose };
        out.push(b);
        assert(pieces_of(out@) =~= prior.push(b@));
    }
    assert(pieces_of(out@) =~= prior + flushed(old_prose, i as int));
    out
}

/// Each row of a table has as many cells as the table has columns.
pub proof fn rows_are_even(ls: Seq<Seq<char>>, i: int, cols: nat, k: int)
    requires
        0 <= k < table_rows(ls, i, cols).len(),
    ensures
        table_rows(ls, i, cols)[k].len() == cols,
    decreases ls.len() - i,
{
    if k > 0 {
        rows_are_even(ls, i + 1, cols, k - 1);
    }
}

/// The lines of an answer, each with its line feed, from line `i` on.
pub open spec fn with_line_feeds(ls: Seq<Seq<char>>, i: int) -> Seq<char>
    decreases ls.len() - i,
{
    if 0 <= i < ls.len() {
        ls[i] + seq!['\n'] + with_line_feeds(ls, i + 1)
    } else {
        Seq::empty()
    }
}

/// An answer without bars is one piece of prose that holds all its lines.
pub proof fn answer_without_bars_is_prose(ls: Seq<Seq<char>>)
    requires
        forall|k: int| 0 <= k < ls.len() ==> !(#[trigger] ls[k]).contains('|'),
    ensures
        blocks(ls, 0, Seq::empty(), None) == flushed(with_line_feeds(ls, 0), ls.len() as int),
{
    bars_in_fences_make_no_table(ls);
}

/// Behind a fence that nothing closes, everything is prose: code holds no tables.
pub proof fn fenced_text_is_prose(ls: Seq<Seq<char>>, i: int, prose: Seq<char>, fence: Fence)
    requires
        0 <= i <= ls.len(),
        forall|k: int| i <= k < ls.len() && is_fence(#[trigger] ls[k]) ==> next_fence(Some(fence), ls[k])
            == Some(fence),
    ensures
        blocks(ls, i, prose, Some(fence)) == flushed(prose + with_line_feeds(ls, i), ls.len() as int),
    decreases ls.len() - i,
{
    if i < ls.len() {
        fenced_text_is_prose(ls, i + 1, prose + ls[i] + seq!['\n'], fence);
        assert(prose + ls[i] + seq!['\n'] + with_line_feeds(ls, i + 1) =~= prose + (ls[i] + seq!['\n']
            + with_line_feeds(ls, i + 1)));
    } else {
        assert(prose + Seq::<char>::empty() =~= prose);
    }
}

/// The fence that is open before line `k` of an answer without tables.
pub open spec fn fence_before(ls: Seq<Seq<char>>, k: int) -> Option<Fence>
    decreases k,
{
    if k <= 0 {
        None
    } else if is_fence(ls[k - 1]) {
        next_fence(fence_before(ls, k - 1), ls[k - 1])
    } else {
        fence_before(ls, k - 1)
    }
}

proof fn fenced_bars(ls: Seq<Seq<char>>, i: int, prose: Seq<char>)
    requires
        0 <= i <= ls.len(),
        forall|k: int| 0 <= k < ls.len() && (#[trigger] ls[k]).contains('|') ==> fence_before(ls, k) is Some
            || is_fence(ls[k]),
    ensures
        blocks(ls, i, prose, fence_before(ls, i)) == flushed(prose + with_line_feeds(ls, i), ls.len() as int),
    decreases ls.len() - i,
{
    if i < ls.len() {
        assert(ls[i].contains('|') ==> fence_before(ls, i) is Some || is_fence(ls[i]));
        fenced_bars(ls, i + 1, prose + ls[i] + seq!['\n']);
        assert(prose + ls[i] + seq!['\n'] + with_line_feeds(ls, i + 1) =~= prose + (ls[i] + seq!['\n']
            + with_line_feeds(ls, i + 1)));
    } else {
        assert(prose + Seq::<char>::empty() =~= prose);
    }
}

/// Code holds no tables: an answer whose lines with bars all lie inside fences, closed or not, or
/// open or close one, is one piece of prose that holds all its lines.
pub proof fn bars_in_fences_make_no_table(ls: Seq<Seq<char>>)
    requires
        forall|k: int| 0 <= k < ls.len() && (#[trigger] ls[k]).contains('|') ==> fence_before(ls, k) is Some
            || is_fence(ls[k]),
    ensures
        blocks(ls, 0, Seq::empty(), None) == flushed(with_line_feeds(ls, 0), ls.len() as int),
{
    fenced_bars(ls, 0, Seq::empty());
    assert(Seq::<char>::empty() + with_line_feeds(ls, 0) =~= with_line_feeds(ls, 0));
}

proof fn leading_run_goes(s: Seq<char>, c: char, k: int)
    requires
        0 <= k <= s.len(),
        forall|i: int| 0 <= i < k ==> #[trigger] s[i] == c,
        k < s.len() ==> s[k] != c,
    ensures
        without_leading(s, c) == s.skip(k),
    decreases k,
{
    if k > 0 {
        let rest = s.skip(1);
        assert(s[0] == c);
        assert forall|i: int| 0 <= i < k - 1 implies #[trigger] rest[i] == c by {
            assert(rest[i] == s[i + 1]);
        }
        leading_run_goes(rest, c, k - 1);
        assert(rest.skip(k - 1) =~= s.skip(k));
    } else {
        assert(s.skip(0) =~= s);
    }
}

proof fn trailing_run_goes(s: Seq<char>, c: char, k: int)
    requires
        0 <= k <= s.len(),
        forall|i: int| k <= i < s.len() ==> #[trigger] s[i] == c,
        k > 0 ==> s[k - 1] != c,
    ensures
        without_trailing(s, c) == s.take(k),
    decreases s.len(),
{
    if k < s.len() {
        let rest = s.drop_last();
        assert(s[s.len() - 1] == c);
        assert forall|i: int| k <= i < rest.len() implies #[trigger] rest[i] == c by {
            assert(rest[i] == s[i]);
        }
        trailing_run_goes(rest, c, k);
        assert(rest.take(k) =~= s.take(k));
    } else {
        assert(s.take(k) =~= s);
    }
}

proof fn leading_place(s: Seq<char>, c: char) -> (k: int)
    ensures
        0 <= k <= s.len(),
        forall|i: int| 0 <= i < k ==> #[trigger] s[i] == c,
        k < s.len() ==> s[k] != c,
    decreases s.len(),
{
    if s.len() > 0 && s[0] == c {
        let k = leading_place(s.skip(1), c);
        assert forall|i: int| 0 <= i < k + 1 implies #[trigger] s[i] == c by {
            if i > 0 {
                assert(s.skip(1)[i - 1] == s[i]);
            }
        }
        if k + 1 < s.len() {
            assert(s.skip(1)[k] == s[k + 1]);
        }
        k + 1
    } else {
        0
    }
}

proof fn trailing_place(s: Seq<char>, c: char) -> (k: int)
    ensures
        0 <= k <= s.len(),
        forall|i: int| k <= i < s.len() ==> #[trigger] s[i] == c,
        k > 0 ==> s[k - 1] != c,
    decreases s.len(),
{
    if s.len() > 0 && s.last() == c {
        let k = trailing_place(s.drop_last(), c);
        assert forall|i: int| k <= i < s.len() implies #[trigger] s[i] == c by {
            if i < s.len() - 1 {
                assert(s.drop_last()[i] == s[i]);
            }
        }
        k
    } else {
        s.len() as int
    }
}

/// A cell is `a` colons, then `n` dashes and at least one, then colons.
pub open spec fn is_dashes(cell: Seq<char>, a: int, n: int) -> bool {
    &&& 0 <= a
    &&& 1 <= n
    &&& a + n <= cell.len()
    &&& forall|i: int| 0 <= i < a ==> #[trigger] cell[i] == ':'
    &&& forall|i: int| a <= i < a + n ==> #[trigger] cell[i] == '-'
    &&& forall|i: int| a + n <= i < cell.len() ==> #[trigger] cell[i] == ':'
}

/// A cell is dashes, perhaps between colons.
pub open spec fn is_dashed(cell: Seq<char>) -> bool {
    exists|a: int, n: int| is_dashes(cell, a, n)
}

/// A cell is a rule exactly where it is any number of dashes, but at least one, with any number of
/// colons before and behind them.
pub proof fn dashes_make_a_rule(cell: Seq<char>)
    ensures
        is_rule(cell) <==> is_dashed(cell),
{
    if is_dashed(cell) {
        let (a, n) = choose|a: int, n: int| is_dashes(cell, a, n);
        assert(cell[a] == '-' && cell[a + n - 1] == '-');
        leading_run_goes(cell, ':', a);
        let rest = cell.skip(a);
        assert forall|i: int| n <= i < rest.len() implies #[trigger] rest[i] == ':' by {
            assert(rest[i] == cell[a + i]);
        }
        assert(rest[n - 1] == cell[a + n - 1]);
        trailing_run_goes(rest, ':', n);
        let d = rest.take(n);
        assert forall|i: int| 0 <= i < d.len() implies #[trigger] d[i] == '-' by {
            assert(d[i] == cell[a + i]);
        }
    }
    if is_rule(cell) {
        let a = leading_place(cell, ':');
        leading_run_goes(cell, ':', a);
        let rest = cell.skip(a);
        let n = trailing_place(rest, ':');
        trailing_run_goes(rest, ':', n);
        let d = rest.take(n);
        assert forall|i: int| a <= i < a + n implies #[trigger] cell[i] == '-' by {
            assert(d[i - a] == cell[i]);
        }
        assert forall|i: int| a + n <= i < cell.len() implies #[trigger] cell[i] == ':' by {
            assert(rest[i - a] == cell[i]);
        }
        assert(is_dashes(cell, a, n));
    }
}

/// The rows of a table that begins at line `i`, with `m` rows below the rule: the cells of the
/// header, and of each row as many as the header has, with empty ones for those that are missing.
pub open spec fn is_table_of(rows: Seq<Seq<Seq<char>>>, ls: Seq<Seq<char>>, i: int, m: int) -> bool {
    &&& rows.len() == m + 1
    &&& rows[0] == cells(ls[i])
    &&& forall|k: int| #![trigger rows[k]]
        1 <= k <= m ==> {
            &&& rows[k].len() == cells(ls[i]).len()
            &&& forall|c: int|
                0 <= c < rows[k].len() ==> #[trigger] rows[k][c] == (if c < cells(ls[i + 1 + k]).len() {
                    cells(ls[i + 1 + k])[c]
                } else {
                    Seq::empty()
                })
        }
}

proof fn rows_end_there(ls: Seq<Seq<char>>, i: int, m: int, cols: nat)
    requires
        0 <= i,
        0 <= m,
        i + m <= ls.len(),
        forall|k: int| i <= k < i + m ==> is_row(#[trigger] ls[k]),
        i + m < ls.len() ==> !is_row(ls[i + m]),
    ensures
        table_end(ls, i) == i + m,
        table_rows(ls, i, cols).len() == m,
        forall|k: int| 0 <= k < m ==> #[trigger] table_rows(ls, i, cols)[k] == resized(cells(ls[i + k]), cols),
    decreases m,
{
    if m > 0 {
        assert(is_row(ls[i]));
        rows_end_there(ls, i + 1, m - 1, cols);
        let rest = table_rows(ls, i + 1, cols);
        let all = table_rows(ls, i, cols);
        assert forall|k: int| 0 <= k < m implies #[trigger] all[k] == resized(cells(ls[i + k]), cols) by {
            if k > 0 {
                assert(all[k] == rest[k - 1]);
            }
        }
    }
}

/// Outside of code, a row with a bar in it and below it a row of as many rules begin a table: its
/// first row is the cells of the header, and each line below the rules that has a bar and is not
/// blank is a row of it. The prose before it and what follows it stand beside it.
pub proof fn header_and_rules_begin_a_table(ls: Seq<Seq<char>>, i: int, m: int, prose: Seq<char>)
    requires
        0 <= i,
        0 <= m,
        i + 2 + m <= ls.len(),
        !is_fence(ls[i]),
        ls[i].contains('|'),
        cells(ls[i]).len() > 0,
        cells(ls[i + 1]).len() == cells(ls[i]).len(),
        forall|c: int|
            0 <= c < cells(ls[i + 1]).len() ==> is_dashed(#[trigger] cells(ls[i + 1])[c]),
        forall|k: int| i + 2 <= k < i + 2 + m ==> trimmed(#[trigger] ls[k]).len() > 0 && ls[k].contains('|'),
        i + 2 + m < ls.len() ==> trimmed(ls[i + 2 + m]).len() == 0 || !ls[i + 2 + m].contains('|'),
    ensures
        exists|rows: Seq<Seq<Seq<char>>>| #[trigger]
            is_table_of(rows, ls, i, m) && blocks(ls, i, prose, None) == (if prose.len() > 0 {
                seq![Piece::Prose { id: i, text: prose }]
            } else {
                Seq::empty()
            }) + seq![Piece::Table { id: i, rows }] + blocks(ls, i + 2 + m, Seq::empty(), None),
{
    let cols = cells(ls[i]).len();
    assert forall|c: int| 0 <= c < cells(ls[i + 1]).len() implies is_rule(#[trigger] cells(ls[i + 1])[c]) by {
        dashes_make_a_rule(cells(ls[i + 1])[c]);
    }
    assert forall|k: int| i + 2 <= k < i + 2 + m implies is_row(#[trigger] ls[k]) by {}
    rows_end_there(ls, i + 2, m, cols);
    let below = table_rows(ls, i + 2, cols);
    let rows = seq![cells(ls[i])] + below;
    assert forall|k: int| #![trigger rows[k]] 1 <= k <= m implies {
        &&& rows[k].len() == cells(ls[i]).len()
        &&& forall|c: int|
            0 <= c < rows[k].len() ==> #[trigger] rows[k][c] == (if c < cells(ls[i + 1 + k]).len() {
                cells(ls[i + 1 + k])[c]
            } else {
                Seq::empty()
            })
    } by {
        assert(rows[k] == below[k - 1]);
        assert(below[k - 1] == resized(cells(ls[i + 2 + (k - 1)]), cols));
    }
    assert(is_table_of(rows, ls, i, m));
}

/// No bar of a cell parts it: before each stands a backslash that no other escapes, and none
/// escapes what follows the cell.
pub open spec fn bars_are_escaped(cell: Seq<char>, escaped: bool) -> bool
    decreases cell.len(),
{
    if cell.len() == 0 {
        !escaped
    } else {
        (cell[0] != '|' || escaped) && bars_are_escaped(cell.skip(1), cell[0] == '\\' && !escaped)
    }
}

/// Cells, each with a bar behind it.
pub open spec fn with_bars(row: Seq<Seq<char>>) -> Seq<char>
    decreases row.len(),
{
    if row.len() == 0 {
        Seq::empty()
    } else {
        row[0] + seq!['|'] + with_bars(row.skip(1))
    }
}

proof fn cell_is_scanned(cell: Seq<char>, rest: Seq<char>, read: Seq<char>, escaped: bool)
    requires
        bars_are_escaped(cell, escaped),
    ensures
        scan_cells(cell + rest, read, escaped) == scan_cells(rest, read + cell, false),
    decreases cell.len(),
{
    let all = cell + rest;
    if cell.len() == 0 {
        assert(all =~= rest);
        assert(read + cell =~= read);
    } else {
        assert(all[0] == cell[0]);
        assert(all.skip(1) =~= cell.skip(1) + rest);
        cell_is_scanned(cell.skip(1), rest, read.push(cell[0]), cell[0] == '\\' && !escaped);
        assert(read.push(cell[0]) + cell.skip(1) =~= read + cell);
    }
}

proof fn row_is_scanned(row: Seq<Seq<char>>, last: Seq<char>)
    requires
        forall|i: int| 0 <= i < row.len() ==> bars_are_escaped(#[trigger] row[i], false),
        bars_are_escaped(last, false),
    ensures
        scan_cells(with_bars(row) + last, Seq::empty(), false).0 == Seq::new(row.len(), |i: int| trimmed(row[i])),
        scan_cells(with_bars(row) + last, Seq::empty(), false).1 == last,
    decreases row.len(),
{
    let none = Seq::<char>::empty();
    let found = scan_cells(with_bars(row) + last, none, false);
    if row.len() == 0 {
        assert(with_bars(row) + last =~= last + none);
        cell_is_scanned(last, none, none, false);
        assert(none + last =~= last);
        assert(found.0 =~= Seq::new(row.len(), |i: int| trimmed(row[i])));
    } else {
        let less = row.skip(1);
        let rest = with_bars(less) + last;
        assert forall|i: int| 0 <= i < less.len() implies bars_are_escaped(#[trigger] less[i], false) by {
            assert(less[i] == row[i + 1]);
        }
        row_is_scanned(less, last);
        let tail = seq!['|'] + rest;
        assert(with_bars(row) + last =~= row[0] + tail);
        assert(bars_are_escaped(row[0], false));
        cell_is_scanned(row[0], tail, none, false);
        assert(none + row[0] =~= row[0]);
        assert(tail[0] == '|');
        assert(tail.skip(1) =~= rest);
        assert(found.0 =~= Seq::new(row.len(), |i: int| trimmed(row[i])));
    }
}

/// The cells of a row come back: between bars, each is what stands there without white space
/// around it. A bar behind a backslash does not part a cell, and the bar at the end opens none.
pub proof fn cells_come_back(row: Seq<Seq<char>>)
    requires
        row.len() > 0,
        forall|i: int| 0 <= i < row.len() ==> bars_are_escaped(#[trigger] row[i], false),
    ensures
        cells(seq!['|'] + with_bars(row)) == Seq::new(row.len(), |i: int| trimmed(row[i])),
{
    let none = Seq::<char>::empty();
    let line = seq!['|'] + with_bars(row);
    ends_in_a_bar(row);
    assert(line.last() == with_bars(row).last());
    assert(trimmed(line) == line);
    assert(row_body(line) =~= with_bars(row));
    row_is_scanned(row, none);
    assert(with_bars(row) + none =~= with_bars(row));
    assert(trimmed(none) =~= none);
}

proof fn ends_in_a_bar(row: Seq<Seq<char>>)
    requires
        row.len() > 0,
    ensures
        with_bars(row).len() > 0,
        with_bars(row).last() == '|',
    decreases row.len(),
{
    if row.len() > 1 {
        ends_in_a_bar(row.skip(1));
    } else {
        assert(with_bars(row.skip(1)) =~= Seq::<char>::empty());
    }
}

/// The bars at the two ends of a row may be left out, where its first and its last cell begin and
/// end with something else than white space or a bar.
pub proof fn outer_bars_may_be_left_out(row: Seq<Seq<char>>, last: Seq<char>)
    requires
        forall|i: int| 0 <= i < row.len() ==> bars_are_escaped(#[trigger] row[i], false),
        bars_are_escaped(last, false),
        last.len() > 0,
        !is_space(last.last()),
        (with_bars(row) + last)[0] != '|',
        !is_space((with_bars(row) + last)[0]),
    ensures
        cells(with_bars(row) + last) == Seq::new(row.len(), |i: int| trimmed(row[i])).push(trimmed(last)),
{
    let line = with_bars(row) + last;
    assert(line.last() == last.last());
    assert(trimmed(line) == line);
    assert(row_body(line) == line);
    row_is_scanned(row, last);
    trimmed_is_the_middle(last);
    if trimmed(last).len() == 0 {
        let (a, b) = choose|a: int, b: int| {
            &&& 0 <= a <= b <= last.len()
            &&& trimmed(last) == #[trigger] last.subrange(a, b)
            &&& forall|i: int| 0 <= i < a || b <= i < last.len() ==> is_space(#[trigger] last[i])
        };
        assert(is_space(last[last.len() - 1]));
    }
}

proof fn run_is(s: Seq<char>, c: char, k: int)
    requires
        0 <= k <= s.len(),
        forall|i: int| 0 <= i < k ==> #[trigger] s[i] == c,
        k < s.len() ==> s[k] != c,
    ensures
        run(s, c) == k,
    decreases k,
{
    if k > 0 {
        let rest = s.skip(1);
        assert(s[0] == c);
        assert forall|i: int| 0 <= i < k - 1 implies #[trigger] rest[i] == c by {
            assert(rest[i] == s[i + 1]);
        }
        run_is(rest, c, k - 1);
    }
}

/// A line that begins with `n` times the same character, behind white space, is a fence where that
/// is a backquote or a tilde and `n` is at least 3. Outside of code it opens a fence, and inside it
/// closes one of its own character that is not longer; any other stays open.
pub proof fn fences_open_and_close(line: Seq<char>, a: int, n: int, c: char, fence: Fence)
    requires
        0 <= a,
        1 <= n <= usize::MAX,
        a + n <= line.len(),
        !is_space(c),
        forall|i: int| 0 <= i < a ==> is_space(#[trigger] line[i]),
        forall|i: int| a <= i < a + n ==> #[trigger] line[i] == c,
        a + n < line.len() ==> line[a + n] != c,
    ensures
        is_fence(line) <==> (c == '`' || c == '~') && n >= 3,
        next_fence(None, line) == Some(Fence { mark: c, len: n as usize }),
        next_fence(Some(fence), line) == (if fence.mark == c && n >= fence.len {
            None
        } else {
            Some(fence)
        }),
{
    assert(line[a] == c);
    start_is(line, a);
    let t = line.skip(a);
    assert forall|i: int| 0 <= i < n implies #[trigger] t[i] == c by {
        assert(t[i] == line[a + i]);
    }
    if n < t.len() {
        assert(t[n] == line[a + n]);
    }
    run_is(t, c, n);
}

proof fn start_is(s: Seq<char>, a: int)
    requires
        0 <= a < s.len(),
        forall|i: int| 0 <= i < a ==> is_space(#[trigger] s[i]),
        !is_space(s[a]),
    ensures
        trimmed_start(s) == s.skip(a),
    decreases a,
{
    if a > 0 {
        let rest = s.skip(1);
        assert(is_space(s[0]));
        assert forall|i: int| 0 <= i < a - 1 implies is_space(#[trigger] rest[i]) by {
            assert(rest[i] == s[i + 1]);
        }
        start_is(rest, a - 1);
        assert(rest.skip(a - 1) =~= s.skip(a));
    } else {
        assert(s.skip(0) =~= s);
    }
}

/// The lines from `a` up to `b`, each with its line feed.
pub open spec fn lines_between(ls: Seq<Seq<char>>, a: int, b: int) -> Seq<char>
    decreases b - a,
{
    if a >= b {
        Seq::empty()
    } else {
        lines_between(ls, a, b - 1) + ls[b - 1] + seq!['\n']
    }
}

/// Pieces hold the lines from `from` on, each once and in their order: prose holds its lines as
/// they are, up to the line that it is numbered by, and a table those of its header, its rules and
/// its rows, from the line that it is numbered by.
pub open spec fn hold_the_lines(pieces: Seq<Piece>, ls: Seq<Seq<char>>, from: int) -> bool
    decreases pieces.len(),
{
    if pieces.len() == 0 {
        from == ls.len()
    } else {
        match pieces[0] {
            Piece::Prose { id, text } => {
                &&& from < id <= ls.len()
                &&& text == lines_between(ls, from, id)
                &&& hold_the_lines(pieces.skip(1), ls, id)
            },
            Piece::Table { id, rows } => {
                &&& id == from
                &&& is_table_of(rows, ls, id, rows.len() - 1)
                &&& hold_the_lines(pieces.skip(1), ls, id + 1 + rows.len())
            },
        }
    }
}

proof fn blocks_hold_the_lines(ls: Seq<Seq<char>>, from: int, i: int, fence: Option<Fence>)
    requires
        0 <= from <= i <= ls.len(),
    ensures
        hold_the_lines(blocks(ls, i, lines_between(ls, from, i), fence), ls, from),
    decreases ls.len() - i,
{
    let prose = lines_between(ls, from, i);
    let all = blocks(ls, i, prose, fence);
    let none = Seq::<Piece>::empty();
    if i == ls.len() {
        if from < i {
            assert(prose.len() > 0);
            assert(all[0] == Piece::Prose { id: i, text: prose });
            assert(all.skip(1) =~= none);
            assert(hold_the_lines(none, ls, i));
        } else {
            assert(prose =~= Seq::<char>::empty());
        }
    } else if !is_fence(ls[i]) && fence is None && is_table(ls, i) {
        table_end_moves(ls, i + 2);
        let end = table_end(ls, i + 2);
        let cols = cells(ls[i]).len();
        let rows = seq![cells(ls[i])] + table_rows(ls, i + 2, cols);
        let table = Piece::Table { id: i, rows };
        let rest = blocks(ls, end, Seq::empty(), fence);
        rows_go_to_the_end(ls, i + 2, cols);
        let m = end - i - 2;
        assert forall|k: int| #![trigger rows[k]] 1 <= k <= m implies {
            &&& rows[k].len() == cells(ls[i]).len()
            &&& forall|c: int|
                0 <= c < rows[k].len() ==> #[trigger] rows[k][c] == (if c < cells(ls[i + 1 + k]).len() {
                    cells(ls[i + 1 + k])[c]
                } else {
                    Seq::empty()
                })
        } by {
            assert(rows[k] == table_rows(ls, i + 2, cols)[k - 1]);
            assert(table_rows(ls, i + 2, cols)[k - 1] == resized(cells(ls[i + 2 + (k - 1)]), cols));
        }
        assert(is_table_of(rows, ls, i, m));
        assert(lines_between(ls, end, end) =~= Seq::<char>::empty());
        blocks_hold_the_lines(ls, end, end, fence);
        let from_table = seq![table] + rest;
        assert(from_table.skip(1) =~= rest);
        assert(hold_the_lines(from_table, ls, i));
        if from < i {
            assert(prose.len() > 0);
            assert(all =~= seq![Piece::Prose { id: i, text: prose }] + from_table);
            assert(all[0] == Piece::Prose { id: i, text: prose });
            assert(all.skip(1) =~= from_table);
        } else {
            assert(prose =~= Seq::<char>::empty());
            assert(all =~= from_table);
        }
    } else {
        let f = if is_fence(ls[i]) {
            next_fence(fence, ls[i])
        } else {
            fence
        };
        assert(lines_between(ls, from, i + 1) == prose + ls[i] + seq!['\n']);
        blocks_hold_the_lines(ls, from, i + 1, f);
    }
}

proof fn rows_go_to_the_end(ls: Seq<Seq<char>>, i: int, cols: nat)
    requires
        0 <= i <= ls.len(),
    ensures
        table_rows(ls, i, cols).len() == table_end(ls, i) - i,
        forall|k: int|
            0 <= k < table_rows(ls, i, cols).len() ==> #[trigger] table_rows(ls, i, cols)[k] == resized(
                cells(ls[i + k]),
                cols,
            ),
    decreases ls.len() - i,
{
    if i < ls.len() && is_row(ls[i]) {
        rows_go_to_the_end(ls, i + 1, cols);
        let rest = table_rows(ls, i + 1, cols);
        let all = table_rows(ls, i, cols);
        assert forall|k: int| 0 <= k < all.len() implies #[trigger] all[k] == resized(cells(ls[i + k]), cols) by {
            if k > 0 {
                assert(all[k] == rest[k - 1]);
            }
        }
    }
}

/// No line of an answer is lost, none is shown twice, and their order stays: the pieces hold them
/// all, one behind the other.
pub proof fn pieces_hold_the_lines(ls: Seq<Seq<char>>)
    ensures
        hold_the_lines(blocks(ls, 0, Seq::empty(), None), ls, 0),
{
    assert(lines_between(ls, 0, 0) =~= Seq::<char>::empty());
    blocks_hold_the_lines(ls, 0, 0, None);
}

} // verus!
