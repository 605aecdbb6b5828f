//! Whole numbers in decimal and bytes in hexadecimal, printed and read.

use vstd::prelude::*;
use vstd::slice::slice_subrange;
use vstd::string::*;
use crate::text::{chars_of, text_of};

verus! {

/// The decimal digit `d`.
pub open spec fn digit(d: int) -> char {
    (48 + d) as char
}

/// The decimal form of `n`.
pub open spec fn decimal(n: nat) -> Seq<char>
    decreases n,
{
    if n < 10 {
        seq![digit(n as int)]
    } else {
        decimal(n / 10).push(digit((n % 10) as int))
    }
}

/// The decimal form of `n`, with its sign where it is negative.
pub open spec fn signed_decimal(n: int) -> Seq<char> {
    if n < 0 {
        seq!['-'] + decimal((-n) as nat)
    } else {
        decimal(n as nat)
    }
}

/// `n` zeros.
pub open spec fn zeros(n: int) -> Seq<char> {
    Seq::new(
        if n < 0 {
            0
        } else {
            n as nat
        },
        |i: int| '0',
    )
}

/// The decimal form of `n`, with zeros in front (behind the sign) up to `width` characters.
pub open spec fn padded_decimal(n: int, width: int) -> Seq<char> {
    if n < 0 {
        seq!['-'] + zeros(width - 1 - decimal((-n) as nat).len()) + decimal((-n) as nat)
    } else {
        zeros(width - decimal(n as nat).len()) + decimal(n as nat)
    }
}

/// A decimal digit.
pub open spec fn is_digit(c: char) -> bool {
    '0' <= c <= '9'
}

/// The number that decimal digits spell.
pub open spec fn number(s: Seq<char>) -> nat
    decreases s.len(),
{
    if s.len() == 0 {
        0
    } else {
        number(s.drop_last()) * 10 + (s.last() as nat - 48) as nat
    }
}

pub open spec fn all_digits(s: Seq<char>) -> bool {
    forall|i: int| 0 <= i < s.len() ==> is_digit(#[trigger] s[i])
}

/// What a text says as a `u64`: decimal digits, at least one, perhaps behind a plus sign, of a
/// number that fits.
pub open spec fn read_natural(s: Seq<char>) -> Option<u64> {
    let d = if s.len() > 1 && s[0] == '+' {
        s.skip(1)
    } else {
        s
    };
    if d.len() > 0 && all_digits(d) && number(d) <= u64::MAX {
        Some(number(d) as u64)
    } else {
        None
    }
}

fn digit_of(d: u8) -> (r: char)
    requires
        d < 10,
    ensures
        r == digit(d as int),
{
    (48u8 + d) as char
}

/// The decimal form of `n`.
pub fn natural_chars(n: u64) -> (r: Vec<char>)
    ensures
        r@ == decimal(n as nat),
    decreases n,
{
    if n < 10 {
        let mut v: Vec<char> = Vec::new();
        v.push(digit_of(n as u8));
        assert(v@ =~= decimal(n as nat));
        v
    } else {
        let mut v = natural_chars(n / 10);
        v.push(digit_of((n % 10) as u8));
        v
    }
}

/// The decimal form of `n`.
pub fn natural_text(n: u64) -> (r: String)
    ensures
        r@ == decimal(n as nat),
{
    let v = natural_chars(n);
    text_of(v.as_slice())
}

/// The decimal form of `n`.
pub fn signed_text(n: i32) -> (r: String)
    ensures
        r@ == signed_decimal(n as int),
{
    if n < 0 {
        let m: u64 = (0 - (n as i64)) as u64;
        let mut s = String::new();
        s.push('-');
        s.append(natural_text(m).as_str());
        assert(s@ =~= signed_decimal(n as int));
        s
    } else {
        natural_text(n as u64)
    }
}

fn push_zeros(out: &mut Vec<char>, n: usize)
    ensures
        final(out)@ == old(out)@ + zeros(n as int),
{
    let ghost start = out@;
    assert(start + zeros(0) =~= start);
    for i in 0..n
        invariant
            out@ == start + zeros(i as int),
    {
        out.push('0');
        assert(start + zeros(i + 1) =~= (start + zeros(i as int)).push('0'));
    }
}

/// The decimal form of `n`, with zeros in front (behind the sign) up to `width` characters.
pub fn padded_text(n: i64, width: usize) -> (r: String)
    requires
        n > i64::MIN,
    ensures
        r@ == padded_decimal(n as int, width as int),
{
    let mut out: Vec<char> = Vec::new();
    let mut room: usize = width;
    let m: u64 = if n < 0 {
        (0 - n) as u64
    } else {
        n as u64
    };
    if n < 0 {
        out.push('-');
        if room > 0 {
            room = room - 1;
        }
    }
    let d = natural_chars(m);
    let fill: usize = if room > d.len() {
        room - d.len()
    } else {
        0
    };
    push_zeros(&mut out, fill);
    crate::text::extend(&mut out, d.as_slice());
    proof {
        decimal_not_empty(m as nat);
        assert(out@ =~= padded_decimal(n as int, width as int));
    }
    text_of(out.as_slice())
}

/// Reads a `u64`.
pub fn read_natural_from(s: &[char]) -> (r: Option<u64>)
    ensures
        r == read_natural(s@),
{
    let n: usize = s.len();
    let start: usize = if n > 1 && s[0] == '+' {
        1
    } else {
        0
    };
    let d = slice_subrange(s, start, n);
    assert(d@ =~= if s@.len() > 1 && s@[0] == '+' {
        s@.skip(1)
    } else {
        s@
    });
    let m: usize = d.len();
    if m == 0 {
        return None;
    }
    let mut acc: u64 = 0;
    let mut big = false;
    for i in 0..m
        invariant
            m == d@.len(),
            m > 0,
            d@ == (if s@.len() > 1 && s@[0] == '+' {
                s@.skip(1)
            } else {
                s@
            }),
            forall|j: int| 0 <= j < i ==> is_digit(#[trigger] d@[j]),
            !big ==> acc == number(d@.take(i as int)),
            big ==> number(d@.take(i as int)) > u64::MAX,
    {
        let c = d[i];
        if !('0' <= c && c <= '9') {
            assert(!is_digit(d@[i as int]));
            return None;
        }
        assert(d@.take(i + 1).drop_last() =~= d@.take(i as int));
        let v: u64 = (c as u32 - 48) as u64;
        if !big {
            if acc > (u64::MAX - v) / 10 {
                big = true;
            } else {
                acc = acc * 10 + v;
            }
        }
    }
    assert(d@.take(m as int) =~= d@);
    if big {
        None
    } else {
        Some(acc)
    }
}

/// Reads a `u64`.
pub fn read_natural_text(s: &str) -> (r: Option<u64>)
    ensures
        r == read_natural(s@),
{
    let v = chars_of(s);
    read_natural_from(v.as_slice())
}

pub proof fn decimal_not_empty(n: nat)
    ensures
        decimal(n).len() > 0,
{
}

/// The decimal form of a number is made of digits that spell the number.
pub proof fn decimal_spells(n: nat)
    ensures
        all_digits(decimal(n)),
        number(decimal(n)) == n,
        decimal(n).len() > 0,
    decreases n,
{
    let s = decimal(n);
    if n < 10 {
        assert(s.drop_last() =~= Seq::<char>::empty());
        assert(number(s.drop_last()) == 0);
    } else {
        decimal_spells(n / 10);
        assert(s.drop_last() =~= decimal(n / 10));
    }
}

/// A printed number reads back as itself.
pub proof fn printed_number_reads_back(n: u64)
    ensures
        read_natural(decimal(n as nat)) == Some(n),
{
    decimal_spells(n as nat);
    assert(is_digit(decimal(n as nat)[0]));
}

proof fn zeros_count_nothing(k: int, s: Seq<char>)
    requires
        all_digits(s),
    ensures
        all_digits(zeros(k) + s),
        number(zeros(k) + s) == number(s),
    decreases s.len(), k,
{
    let t = zeros(k) + s;
    if s.len() > 0 {
        assert(t.last() == s.last());
        assert(t.drop_last() =~= zeros(k) + s.drop_last());
        zeros_count_nothing(k, s.drop_last());
    } else if k > 0 {
        assert(t.drop_last() =~= zeros(k - 1) + s);
        zeros_count_nothing(k - 1, s);
    } else {
        assert(t =~= s);
    }
}

/// Numbers with zeros in front are told apart by their text.
pub proof fn padded_decimal_tells_apart(a: int, b: int, width: int)
    requires
        padded_decimal(a, width) == padded_decimal(b, width),
    ensures
        a == b,
{
    let x = if a < 0 { (-a) as nat } else { a as nat };
    let y = if b < 0 { (-b) as nat } else { b as nat };
    let wa = if a < 0 { width - 1 } else { width };
    let wb = if b < 0 { width - 1 } else { width };
    decimal_spells(x);
    decimal_spells(y);
    decimal_not_empty(x);
    decimal_not_empty(y);
    let p = zeros(wa - decimal(x).len()) + decimal(x);
    let q = zeros(wb - decimal(y).len()) + decimal(y);
    zeros_count_nothing(wa - decimal(x).len(), decimal(x));
    zeros_count_nothing(wb - decimal(y).len(), decimal(y));
    let s = padded_decimal(a, width);
    let t = padded_decimal(b, width);
    if a < 0 {
        assert(s =~= seq!['-'] + p);
        assert(s[0] == '-');
        assert(s.skip(1) =~= p);
    } else {
        assert(s == p);
        assert(is_digit(p[0]));
    }
    if b < 0 {
        assert(t =~= seq!['-'] + q);
        assert(t[0] == '-');
        assert(t.skip(1) =~= q);
    } else {
        assert(t == q);
        assert(is_digit(q[0]));
    }
}

/// The value of a hexadecimal digit.
pub open spec fn hex_value(c: int) -> Option<int> {
    if 48 <= c <= 57 {
        Some(c - 48)
    } else if 65 <= c <= 70 {
        Some(c - 55)
    } else if 97 <= c <= 102 {
        Some(c - 87)
    } else {
        None
    }
}

/// What two characters, given by their codes, say as a byte in hexadecimal: two digits, or a
/// plus sign and a digit.
pub open spec fn hex_pair(a: int, b: int) -> Option<int> {
    match (hex_value(a), hex_value(b)) {
        (Some(x), Some(y)) => Some(x * 16 + y),
        (None, Some(y)) => if a == 43 {
            Some(y)
        } else {
            None
        },
        _ => None,
    }
}

fn hex_value_of(c: u32) -> (r: Option<u8>)
    ensures
        r is Some == hex_value(c as int) is Some,
        r matches Some(v) ==> hex_value(c as int) == Some(v as int) && v < 16,
{
    if 48 <= c && c <= 57 {
        Some((c - 48) as u8)
    } else if 65 <= c && c <= 70 {
        Some((c - 55) as u8)
    } else if 97 <= c && c <= 102 {
        Some((c - 87) as u8)
    } else {
        None
    }
}

/// Reads two characters, given by their codes, as a byte in hexadecimal.
pub fn read_hex_pair(a: u32, b: u32) -> (r: Option<u8>)
    ensures
        r is Some == hex_pair(a as int, b as int) is Some,
        r matches Some(v) ==> hex_pair(a as int, b as int) == Some(v as int),
{
    match (hex_value_of(a), hex_value_of(b)) {
        (Some(x), Some(y)) => Some(x * 16 + y),
        (None, Some(y)) => {
            if a == 43 {
                Some(y)
            } else {
                None
            }
        },
        _ => None,
    }
}

/// The hexadecimal digit `d`.
pub open spec fn hex_digit(d: int) -> char {
    if d < 10 {
        (48 + d) as char
    } else {
        (55 + d) as char
    }
}

/// A byte as two hexadecimal digits.
pub open spec fn hex_byte(b: u8) -> Seq<char> {
    seq![hex_digit(b as int / 16), hex_digit(b as int % 16)]
}

fn hex_digit_of(d: u8) -> (r: char)
    requires
        d < 16,
    ensures
        r == hex_digit(d as int),
{
    if d < 10 {
        (48u8 + d) as char
    } else {
        (55u8 + d) as char
    }
}

/// Puts a byte behind `out` as two hexadecimal digits.
pub fn push_hex(out: &mut Vec<char>, b: u8)
    ensures
        final(out)@ == old(out)@ + hex_byte(b),
{
    let ghost start = out@;
    out.push(hex_digit_of(b / 16));
    out.push(hex_digit_of(b % 16));
    assert(out@ =~= start + hex_byte(b));
}

/// A byte printed in hexadecimal reads back as itself.
pub proof fn printed_byte_reads_back(b: u8)
    ensures
        hex_pair(hex_byte(b)[0] as int, hex_byte(b)[1] as int) == Some(b as int),
{
}

/// The letters of hexadecimal digits may be small or capital.
pub proof fn hex_letters_may_be_small(d: int)
    requires
        0 <= d < 16,
    ensures
        hex_value(hex_digit(d) as int) == Some(d),
        d >= 10 ==> hex_value(hex_digit(d) as int + 32) == Some(d),
        d >= 10 ==> 'A' <= hex_digit(d) <= 'F',
        d < 10 ==> '0' <= hex_digit(d) <= '9',
{
}

/// Decimal digits are read by their places: a digit more makes ten times the number, and the digit.
pub proof fn digits_are_read_by_place(s: Seq<char>, d: int)
    requires
        0 <= d < 10,
        s.len() > 0,
        all_digits(s),
        number(s) * 10 + d <= u64::MAX,
    ensures
        read_natural(seq![digit(d)]) == Some(d as u64),
        read_natural(s) is Some,
        read_natural(s.push(digit(d))) == Some((read_natural(s)->0 * 10 + d) as u64),
        read_natural(seq!['+'] + s) == read_natural(s),
{
    let one = seq![digit(d)];
    assert(one.drop_last() =~= Seq::<char>::empty());
    assert(number(Seq::<char>::empty()) == 0);
    assert(number(one) == d);
    assert(all_digits(one));
    let more = s.push(digit(d));
    assert(more.drop_last() =~= s);
    assert(is_digit(s[0]));
    assert(more[0] == s[0]);
    assert forall|i: int| 0 <= i < more.len() implies is_digit(#[trigger] more[i]) by {
        if i < s.len() {
            assert(more[i] == s[i]);
        }
    }
    let plus = seq!['+'] + s;
    assert(plus.skip(1) =~= s);
    assert(number(s) <= number(s) * 10);
}

} // verus!
