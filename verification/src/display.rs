//! How figures are shown.

use vstd::prelude::*;
use crate::scalar::Scalar;
use crate::text::{chars_of, text_of};
use crate::utf8::{offset, offset_grows, size, size_of};

verus! {

/// The first `k` of digits that take `n` bytes in all, with a comma before each group of three.
pub open spec fn grouped(digits: Seq<char>, n: int, k: int) -> Seq<char>
    decreases k,
{
    if k <= 0 {
        Seq::empty()
    } else if k > 1 && (n - (k - 1)) % 3 == 0 {
        grouped(digits, n, k - 1).push(',').push(digits[k - 1])
    } else {
        grouped(digits, n, k - 1).push(digits[k - 1])
    }
}

/// A whole number with commas between its groups of three digits; a minus sign stays in front.
pub open spec fn with_commas(text: Seq<char>) -> Seq<char> {
    if text.len() > 0 && text[0] == '-' {
        seq!['-'] + grouped(text.skip(1), size(text.skip(1)), text.len() - 1)
    } else {
        grouped(text, size(text), text.len() as int)
    }
}

fn group(out: &mut Vec<char>, v: &[char], start: usize)
    requires
        start <= v@.len(),
    ensures
        final(out)@ == old(out)@ + grouped(
            v@.skip(start as int),
            size(v@.skip(start as int)),
            v@.len() - start,
        ),
{
    let n: usize = v.len();
    let ghost digits = v@.skip(start as int);
    let rest = crate::text::part(v, start, n);
    assert(rest@ =~= digits);
    let text = text_of(rest.as_slice());
    let bytes: usize = size_of(text.as_str());
    proof {
        offset_grows(digits, 0, digits.len() as int);
    }
    let m: usize = rest.len();
    let ghost before = out@;
    assert(out@ =~= before + grouped(digits, bytes as int, 0));
    for i in 0..m
        invariant
            m == rest@.len(),
            rest@ == digits,
            m <= bytes,
            out@ == before + grouped(digits, bytes as int, i as int),
    {
        if i > 0 && (bytes - i) % 3 == 0 {
            out.push(',');
        }
        out.push(rest[i]);
        assert(out@ =~= before + grouped(digits, bytes as int, i + 1));
    }
}

/// A whole number with commas between its groups of three digits; a minus sign stays in front.
pub fn thousands(text: &str) -> (r: String)
    ensures
        r@ == with_commas(text@),
{
    let v = chars_of(text);
    let mut out: Vec<char> = Vec::new();
    if v.len() > 0 && v[0] == '-' {
        out.push('-');
        group(&mut out, v.as_slice(), 1);
        assert(out@ =~= with_commas(text@));
    } else {
        assert(v@.skip(0) =~= v@);
        group(&mut out, v.as_slice(), 0);
        assert(out@ =~= with_commas(text@));
    }
    text_of(out.as_slice())
}

/// 1000, 10 and 1.
pub const THOUSAND: u64 = 0x408f_4000_0000_0000;

pub const TEN: u64 = 0x4024_0000_0000_0000;

pub const ONE: u64 = 0x3ff0_0000_0000_0000;

/// How a value is shown.
#[derive(Clone, Copy, PartialEq, Eq, Structural, Debug)]
pub enum ValueStyle {
    /// Without decimals, in groups of three digits.
    Grouped,
    /// With so many decimals.
    Decimals(usize),
}

/// How a value is shown: from 1000 on without decimals, from 10 on with two, else with four.
pub fn fmt_value(v: Scalar) -> (r: ValueStyle)
    ensures
        r == (if v.at_least(Scalar { bits: THOUSAND }) {
            ValueStyle::Grouped
        } else if v.at_least(Scalar { bits: TEN }) {
            ValueStyle::Decimals(2)
        } else {
            ValueStyle::Decimals(4)
        }),
{
    if v.ge(Scalar { bits: THOUSAND }) {
        ValueStyle::Grouped
    } else if v.ge(Scalar { bits: TEN }) {
        ValueStyle::Decimals(2)
    } else {
        ValueStyle::Decimals(4)
    }
}

/// With how many decimals an amount is shown: two from 1 on, else four.
pub fn fmt_usd(v: Scalar) -> (r: usize)
    ensures
        r == (if v.at_least(Scalar { bits: ONE }) {
            2int
        } else {
            4
        }),
{
    if v.ge(Scalar { bits: ONE }) {
        2
    } else {
        4
    }
}

/// How a change is shown.
#[derive(Clone, Copy, PartialEq, Eq, Structural, Debug)]
pub enum Badge {
    /// In green, with a plus sign.
    Up,
    /// In red.
    Down,
    /// As unknown.
    Unknown,
}

/// How a change is shown: what is no number counts as a fall.
pub fn change_badge(pct: Option<Scalar>) -> (r: Badge)
    ensures
        r == (match pct {
            Some(p) => if p.at_least(Scalar { bits: 0 }) {
                Badge::Up
            } else {
                Badge::Down
            },
            None => Badge::Unknown,
        }),
{
    match pct {
        Some(p) => if p.ge(Scalar { bits: 0 }) {
            Badge::Up
        } else {
            Badge::Down
        },
        None => Badge::Unknown,
    }
}

/// A text without its commas.
pub open spec fn without_commas(s: Seq<char>) -> Seq<char>
    decreases s.len(),
{
    if s.len() == 0 {
        s
    } else if s.last() == ',' {
        without_commas(s.drop_last())
    } else {
        without_commas(s.drop_last()).push(s.last())
    }
}

proof fn grouping_keeps(digits: Seq<char>, n: int, k: int)
    requires
        0 <= k <= digits.len(),
        !digits.contains(','),
    ensures
        without_commas(grouped(digits, n, k)) == digits.take(k),
    decreases k,
{
    if k > 0 {
        grouping_keeps(digits, n, k - 1);
        let less = grouped(digits, n, k - 1);
        let g = grouped(digits, n, k);
        assert(digits[k - 1] != ',') by {
            assert(digits.contains(digits[k - 1]));
        }
        assert(g.last() == digits[k - 1]);
        if k > 1 && (n - (k - 1)) % 3 == 0 {
            assert(g.drop_last() =~= less.push(','));
            assert(less.push(',').drop_last() =~= less);
            assert(less.push(',').last() == ',');
            assert(without_commas(less.push(',')) == without_commas(less));
        } else {
            assert(g.drop_last() =~= less);
        }
        assert(digits.take(k) =~= digits.take(k - 1).push(digits[k - 1]));
    } else {
        assert(digits.take(0) =~= Seq::<char>::empty());
    }
}

/// Grouping adds commas and changes nothing else.
pub proof fn grouping_only_adds_commas(digits: Seq<char>)
    requires
        !digits.contains(','),
    ensures
        without_commas(grouped(digits, size(digits), digits.len() as int)) == digits,
{
    grouping_keeps(digits, size(digits), digits.len() as int);
    assert(digits.take(digits.len() as int) =~= digits);
}

proof fn groups_of_more(digits: Seq<char>, more: Seq<char>, n: int, m: int, k: int)
    requires
        0 <= k <= digits.len(),
        (n - m) % 3 == 0,
    ensures
        grouped(digits + more, n, k) == grouped(digits, m, k),
    decreases k,
{
    if k > 0 {
        groups_of_more(digits, more, n, m, k - 1);
        assert((digits + more)[k - 1] == digits[k - 1]);
        assert((n - (k - 1)) % 3 == 0 <==> (m - (k - 1)) % 3 == 0);
    }
}

proof fn plain_size(s: Seq<char>, k: int)
    requires
        0 <= k <= s.len(),
        forall|i: int| 0 <= i < s.len() ==> (#[trigger] s[i] as u32) < 128,
    ensures
        offset(s, k) == k,
    decreases k,
{
    if k > 0 {
        plain_size(s, k - 1);
        assert((s[k - 1] as u32) < 128);
    }
}

/// Up to three digits stay as they are; before each three more stands a comma. A minus sign in
/// front makes no difference.
pub proof fn digits_are_grouped_by_three(digits: Seq<char>, a: char, b: char, c: char)
    requires
        digits.len() > 0,
        forall|i: int| 0 <= i < digits.len() ==> '0' <= #[trigger] digits[i] <= '9',
        '0' <= a <= '9',
        '0' <= b <= '9',
        '0' <= c <= '9',
    ensures
        digits.len() <= 3 ==> with_commas(digits) == digits,
        with_commas(digits + seq![a, b, c]) == with_commas(digits) + seq![',', a, b, c],
        with_commas(seq!['-'] + digits) == seq!['-'] + with_commas(digits),
{
    let n = digits.len() as int;
    let all = digits + seq![a, b, c];
    assert(digits[0] != '-' && all[0] == digits[0]);
    assert forall|i: int| 0 <= i < all.len() implies (#[trigger] all[i] as u32) < 128 by {
        if i < n {
            assert(all[i] == digits[i]);
        }
    }
    plain_size(digits, n);
    plain_size(all, n + 3);
    groups_of_more(digits, seq![a, b, c], n + 3, n, n);
    let g = grouped(digits, n, n);
    assert(all[n] == a && all[n + 1] == b && all[n + 2] == c);
    assert(grouped(all, n + 3, n + 1) == g.push(',').push(a));
    assert(grouped(all, n + 3, n + 2) == g.push(',').push(a).push(b));
    assert(grouped(all, n + 3, n + 3) == g.push(',').push(a).push(b).push(c));
    assert(g.push(',').push(a).push(b).push(c) =~= g + seq![',', a, b, c]);
    if n <= 3 {
        few_digits_stay(digits, n, n);
        assert(digits.take(n) =~= digits);
    }
    let minus = seq!['-'] + digits;
    assert(minus.skip(1) =~= digits);
}

proof fn few_digits_stay(digits: Seq<char>, n: int, k: int)
    requires
        0 <= k <= digits.len() <= 3,
        n == digits.len(),
    ensures
        grouped(digits, n, k) == digits.take(k),
    decreases k,
{
    if k > 0 {
        few_digits_stay(digits, n, k - 1);
        assert(digits.take(k) =~= digits.take(k - 1).push(digits[k - 1]));
    } else {
        assert(digits.take(0) =~= Seq::<char>::empty());
    }
}

} // verus!
