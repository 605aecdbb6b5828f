//! Where characters start in the UTF-8 form of a text.

use vstd::prelude::*;
use vstd::utf8::*;
use crate::text::{chars_of, extend};

verus! {

/// How many bytes `c` takes.
pub open spec fn width(c: char) -> int {
    if c as u32 <= 0x7f {
        1
    } else if c as u32 <= 0x7ff {
        2
    } else if c as u32 <= 0xffff {
        3
    } else {
        4
    }
}

/// How many bytes `c` takes.
pub fn width_of(c: char) -> (r: usize)
    ensures
        r == width(c),
        1 <= r <= 4,
{
    let v: u32 = c as u32;
    if v <= 0x7f {
        1
    } else if v <= 0x7ff {
        2
    } else if v <= 0xffff {
        3
    } else {
        4
    }
}

/// How many bytes stand before character `k` of `s`.
pub open spec fn offset(s: Seq<char>, k: int) -> int
    decreases k,
{
    if k <= 0 {
        0
    } else {
        offset(s, k - 1) + width(s[k - 1])
    }
}

/// How many bytes `s` takes.
pub open spec fn size(s: Seq<char>) -> int {
    offset(s, s.len() as int)
}

/// The character of `s` that starts at byte `i`, looked for from character `k` on.
pub open spec fn at_byte_from(s: Seq<char>, i: int, k: int) -> Option<int>
    decreases s.len() - k,
{
    if k < 0 || k > s.len() {
        None
    } else if offset(s, k) == i {
        Some(k)
    } else if k == s.len() {
        None
    } else {
        at_byte_from(s, i, k + 1)
    }
}

/// The character of `s` that starts at byte `i`; `s.len()` for the byte behind the last
/// character, and `None` where no character starts.
pub open spec fn at_byte(s: Seq<char>, i: int) -> Option<int> {
    at_byte_from(s, i, 0)
}

pub proof fn offset_grows(s: Seq<char>, a: int, b: int)
    requires
        0 <= a <= b,
    ensures
        offset(s, a) + (b - a) <= offset(s, b),
        0 <= offset(s, a),
    decreases b,
{
    if a < b {
        offset_grows(s, a, b - 1);
    } else if a > 0 {
        offset_grows(s, a - 1, b - 1);
    }
}

/// Offsets look only at the characters before.
pub proof fn offset_of_prefix(s: Seq<char>, t: Seq<char>, k: int)
    requires
        0 <= k <= s.len(),
        k <= t.len(),
        forall|j: int| 0 <= j < k ==> s[j] == t[j],
    ensures
        offset(s, k) == offset(t, k),
    decreases k,
{
    if k > 0 {
        offset_of_prefix(s, t, k - 1);
    }
}

pub proof fn at_byte_from_finds(s: Seq<char>, k: int, from: int)
    requires
        0 <= from <= k <= s.len(),
    ensures
        at_byte_from(s, offset(s, k), from) == Some(k),
    decreases k - from,
{
    if from < k {
        offset_grows(s, from, k);
        at_byte_from_finds(s, k, from + 1);
    }
}

pub proof fn at_byte_from_is_there(s: Seq<char>, i: int, from: int)
    requires
        0 <= from,
    ensures
        at_byte_from(s, i, from) matches Some(k) ==> from <= k <= s.len() && offset(s, k) == i,
    decreases s.len() - from,
{
    if from < s.len() && offset(s, from) != i {
        at_byte_from_is_there(s, i, from + 1);
    }
}

/// A character starts where the characters before it end.
pub proof fn at_byte_finds(s: Seq<char>, k: int)
    requires
        0 <= k <= s.len(),
    ensures
        at_byte(s, offset(s, k)) == Some(k),
{
    at_byte_from_finds(s, k, 0);
}

/// What `at_byte` finds starts there.
pub proof fn at_byte_is_there(s: Seq<char>, i: int)
    ensures
        at_byte(s, i) matches Some(k) ==> 0 <= k <= s.len() && offset(s, k) == i,
{
    at_byte_from_is_there(s, i, 0);
}

/// Between two neighbouring starts, and behind the end, no character starts.
pub proof fn at_byte_misses(s: Seq<char>, i: int, k: int)
    requires
        0 <= k <= s.len(),
        offset(s, k) < i,
        k < s.len() ==> i < offset(s, k + 1),
    ensures
        at_byte(s, i) is None,
{
    at_byte_is_there(s, i);
    if at_byte(s, i) is Some {
        let m = at_byte(s, i)->0;
        if m <= k {
            offset_grows(s, m, k);
        } else {
            offset_grows(s, k + 1, m);
        }
    }
}

proof fn encode_push(s: Seq<char>, c: char)
    ensures
        encode_utf8(s.push(c)) == encode_utf8(s) + encode_scalar(c as u32),
    decreases s.len(),
{
    if s.len() == 0 {
        assert(s.push(c).drop_first() =~= s);
        assert(encode_utf8(s) =~= Seq::<u8>::empty());
        assert(encode_utf8(s.push(c).drop_first()) =~= Seq::<u8>::empty());
        assert(encode_scalar(c as u32) + Seq::<u8>::empty() =~= Seq::<u8>::empty() + encode_scalar(c as u32));
    } else {
        assert(s.push(c).drop_first() =~= s.drop_first().push(c));
        encode_push(s.drop_first(), c);
        assert(encode_scalar(s[0] as u32) + (encode_utf8(s.drop_first()) + encode_scalar(c as u32))
            =~= encode_scalar(s[0] as u32) + encode_utf8(s.drop_first()) + encode_scalar(c as u32));
    }
}

/// `size` is the length of the UTF-8 form.
pub proof fn size_is_encoded_length(s: Seq<char>)
    ensures
        size(s) == encode_utf8(s).len(),
    decreases s.len(),
{
    if s.len() > 0 {
        let t = s.drop_last();
        size_is_encoded_length(t);
        encode_push(t, s.last());
        assert(t.push(s.last()) =~= s);
        offset_of_prefix(t, s, t.len() as int);
        char_is_scalar(s.last());
    } else {
        assert(encode_utf8(s) =~= Seq::<u8>::empty());
    }
}

/// How many bytes `s` takes.
pub fn size_of(s: &str) -> (r: usize)
    ensures
        r == size(s@),
{
    proof {
        size_is_encoded_length(s@);
    }
    s.as_bytes().len()
}

/// The characters of `s`. Their bytes can be counted.
pub fn counted_chars(s: &str) -> (r: Vec<char>)
    ensures
        r@ == s@,
        size(s@) <= usize::MAX,
{
    let room: usize = size_of(s);
    let mut out: Vec<char> = Vec::with_capacity(room);
    extend(&mut out, chars_of(s).as_slice());
    assert(out@ =~= s@);
    out
}

/// The character of `s` that starts at byte `i`, looked for from character `k` on, which
/// starts at byte `o`.
pub fn seek(s: &[char], k: usize, o: usize, i: usize) -> (r: Option<usize>)
    requires
        k <= s@.len(),
        o == offset(s@, k as int),
        o <= i,
        size(s@) <= usize::MAX,
    ensures
        r is Some == at_byte(s@, i as int) is Some,
        r matches Some(m) ==> at_byte(s@, i as int) == Some(m as int) && k <= m <= s@.len()
            && offset(s@, m as int) == i,
{
    let n: usize = s.len();
    let mut k: usize = k;
    let mut o: usize = o;
    let ghost first = k;
    while o < i && k < n
        invariant
            n == s@.len(),
            first <= k <= n,
            o == offset(s@, k as int),
            size(s@) <= usize::MAX,
            k > first ==> offset(s@, k - 1) < i,
            k == first ==> o <= i,
        decreases n - k,
    {
        proof {
            offset_grows(s@, k + 1, n as int);
        }
        o = o + width_of(s[k]);
        k = k + 1;
    }
    if o == i {
        proof {
            at_byte_finds(s@, k as int);
        }
        Some(k)
    } else {
        proof {
            if o < i {
                at_byte_misses(s@, i as int, k as int);
            } else {
                at_byte_misses(s@, i as int, k - 1);
            }
        }
        None
    }
}

} // verus!
