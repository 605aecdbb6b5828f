//! Percent-encoding of query strings.

use vstd::prelude::*;
use vstd::string::*;
use vstd::utf8::{decode_utf8, encode_scalar, encode_utf8, encode_utf8_decode_utf8, encode_utf8_valid_utf8, is_ascii_chars, is_ascii_chars_encode_utf8, is_continuation_byte, valid_utf8};
use crate::decimal::{hex_byte, hex_pair, printed_byte_reads_back, push_hex, read_hex_pair};
use crate::text::text_of;

verus! {

/// A byte that stands for itself: a letter, a digit, or one of `-`, `_`, `.` and `~`.
pub open spec fn unreserved(b: u8) -> bool {
    ||| 65 <= b <= 90
    ||| 97 <= b <= 122
    ||| 48 <= b <= 57
    ||| b == 45
    ||| b == 95
    ||| b == 46
    ||| b == 126
}

/// How a byte is written.
pub open spec fn encoded_byte(b: u8) -> Seq<char> {
    if unreserved(b) {
        seq![b as char]
    } else {
        seq!['%'] + hex_byte(b)
    }
}

/// How bytes are written.
pub open spec fn encoded(bytes: Seq<u8>) -> Seq<char>
    decreases bytes.len(),
{
    if bytes.len() == 0 {
        Seq::empty()
    } else {
        encoded_byte(bytes[0]) + encoded(bytes.skip(1))
    }
}

/// `rest` with `b` before it.
pub open spec fn before(b: u8, rest: Option<Seq<u8>>) -> Option<Seq<u8>> {
    match rest {
        Some(r) => Some(seq![b] + r),
        None => None,
    }
}

/// What the UTF-8 form of a text says: each `%` with two characters behind it that spell a
/// byte is that byte. `None` where the second of two bytes behind a `%` is in the middle of a
/// character.
pub open spec fn decoded(bytes: Seq<u8>) -> Option<Seq<u8>>
    decreases bytes.len(),
{
    if bytes.len() == 0 {
        Some(Seq::empty())
    } else if bytes[0] == 37 && bytes.len() > 2 {
        if bytes.len() > 3 && is_continuation_byte(bytes[3]) {
            None
        } else {
            match hex_pair(bytes[1] as int, bytes[2] as int) {
                Some(v) => before(v as u8, decoded(bytes.skip(3))),
                None => before(bytes[0], decoded(bytes.skip(1))),
            }
        }
    } else {
        before(bytes[0], decoded(bytes.skip(1)))
    }
}

/// `String::from_utf8_lossy`, by name.
pub uninterp spec fn utf8_lossy(bytes: Seq<u8>) -> Seq<char>;

/// `String::from_utf8_lossy` reads bytes as UTF-8, the same at each call; of valid bytes it
/// makes the text that they encode.
#[verifier::external_body]
fn lossy(bytes: &[u8]) -> (r: String)
    ensures
        r@ == utf8_lossy(bytes@),
        valid_utf8(bytes@) ==> r@ == decode_utf8(bytes@),
{
    String::from_utf8_lossy(bytes).into_owned()
}

/// The text that bytes encode; where they encode none, what `String::from_utf8_lossy` makes of
/// them.
pub open spec fn text_in(bytes: Seq<u8>) -> Seq<char> {
    if valid_utf8(bytes) {
        decode_utf8(bytes)
    } else {
        utf8_lossy(bytes)
    }
}

/// Writes a text for use in a query string.
pub fn percent_encode_qs(s: &str) -> (r: String)
    ensures
        r@ == encoded(encode_utf8(s@)),
{
    let bytes = s.as_bytes();
    let n: usize = bytes.len();
    let mut out: Vec<char> = Vec::new();
    assert(bytes@.skip(0) =~= bytes@);
    assert(out@ + encoded(bytes@) =~= encoded(bytes@));
    for i in 0..n
        invariant
            n == bytes@.len(),
            encoded(bytes@) == out@ + encoded(bytes@.skip(i as int)),
    {
        let b: u8 = bytes[i];
        let ghost rest = bytes@.skip(i as int);
        let ghost start = out@;
        assert(rest[0] == b);
        assert(rest.skip(1) =~= bytes@.skip(i + 1));
        if (65 <= b && b <= 90) || (97 <= b && b <= 122) || (48 <= b && b <= 57) || b == 45 || b == 95 || b
            == 46 || b == 126 {
            out.push(b as char);
        } else {
            out.push('%');
            push_hex(&mut out, b);
        }
        assert(out@ =~= start + encoded_byte(b));
        assert(start + (encoded_byte(b) + encoded(rest.skip(1))) =~= out@ + encoded(rest.skip(1)));
    }
    assert(out@ + encoded(bytes@.skip(n as int)) =~= out@);
    text_of(out.as_slice())
}

/// Reads percent-encoded bytes; `None` where the second of two bytes behind a `%` is in the
/// middle of a character.
pub fn decode_bytes(bytes: &[u8]) -> (r: Option<Vec<u8>>)
    ensures
        r is Some == decoded(bytes@) is Some,
        r matches Some(v) ==> decoded(bytes@) == Some(v@),
{
    let n: usize = bytes.len();
    let mut out: Vec<u8> = Vec::new();
    let mut i: usize = 0;
    let ghost whole = decoded(bytes@);
    assert(bytes@.skip(0) =~= bytes@);
    proof {
        if whole is Some {
            assert(out@ + whole->0 =~= whole->0);
        }
    }
    while i < n
        invariant
            n == bytes@.len(),
            i <= n,
            whole == decoded(bytes@),
            match decoded(bytes@.skip(i as int)) {
                Some(rest) => whole == Some(out@ + rest),
                None => whole is None,
            },
        decreases n - i,
    {
        let ghost rest = bytes@.skip(i as int);
        let ghost start = out@;
        assert(rest[0] == bytes@[i as int]);
        assert(rest.skip(1) =~= bytes@.skip(i + 1));
        let mut spelled: Option<u8> = None;
        if bytes[i] == 37 && n - i > 2 {
            assert(rest[1] == bytes@[i + 1] && rest[2] == bytes@[i + 2]);
            assert(rest.skip(3) =~= bytes@.skip(i + 3));
            if n - i > 3 && 0x80 <= bytes[i + 3] && bytes[i + 3] <= 0xbf {
                assert(rest[3] == bytes@[i + 3]);
                return None;
            }
            spelled = read_hex_pair(bytes[i + 1] as u32, bytes[i + 2] as u32);
        }
        match spelled {
            Some(v) => {
                out.push(v);
                i = i + 3;
                proof {
                    let tail = decoded(rest.skip(3));
                    if tail is Some {
                        assert(start + (seq![v] + tail->0) =~= out@ + tail->0);
                    }
                }
            },
            None => {
                let b: u8 = bytes[i];
                out.push(b);
                i = i + 1;
                proof {
                    let tail = decoded(rest.skip(1));
                    if tail is Some {
                        assert(start + (seq![b] + tail->0) =~= out@ + tail->0);
                    }
                }
            },
        }
    }
    assert(out@ + Seq::<u8>::empty() =~= out@);
    Some(out)
}

proof fn low_bytes_are_decoded(bytes: Seq<u8>)
    requires
        forall|i: int| 0 <= i < bytes.len() ==> #[trigger] bytes[i] < 128,
    ensures
        decoded(bytes) is Some,
    decreases bytes.len(),
{
    if bytes.len() > 0 {
        low_bytes_are_decoded(bytes.skip(1));
        if bytes.len() > 2 {
            low_bytes_are_decoded(bytes.skip(3));
        }
    }
}

/// An ASCII text can always be decoded.
pub proof fn ascii_is_decoded(s: Seq<char>)
    requires
        is_ascii_chars(s),
    ensures
        decoded(encode_utf8(s)) is Some,
{
    is_ascii_chars_encode_utf8(s);
    let bytes = encode_utf8(s);
    assert forall|i: int| 0 <= i < bytes.len() implies #[trigger] bytes[i] < 128 by {
        assert(s[i] as u8 == bytes[i]);
    }
    low_bytes_are_decoded(bytes);
}

/// Reads a percent-encoded text; `None` where the second of two bytes behind a `%` is in the
/// middle of a character. In ASCII text none is.
pub fn try_percent_decode(s: &str) -> (r: Option<String>)
    ensures
        r is Some == decoded(encode_utf8(s@)) is Some,
        is_ascii_chars(s@) ==> r is Some,
        r matches Some(t) ==> {
            &&& t@ == text_in(decoded(encode_utf8(s@))->0)
            &&& t@ == utf8_lossy(decoded(encode_utf8(s@))->0)
            &&& valid_utf8(decoded(encode_utf8(s@))->0) ==> t@ == decode_utf8(decoded(encode_utf8(s@))->0)
        },
{
    proof {
        if is_ascii_chars(s@) {
            ascii_is_decoded(s@);
        }
    }
    match decode_bytes(s.as_bytes()) {
        Some(v) => Some(lossy(v.as_slice())),
        None => None,
    }
}

/// Reads a percent-encoded text.
pub fn percent_decode(s: &str) -> (r: String)
    requires
        decoded(encode_utf8(s@)) is Some,
    ensures
        r@ == text_in(decoded(encode_utf8(s@))->0),
        r@ == utf8_lossy(decoded(encode_utf8(s@))->0),
        valid_utf8(decoded(encode_utf8(s@))->0) ==> r@ == decode_utf8(decoded(encode_utf8(s@))->0),
{
    match try_percent_decode(s) {
        Some(t) => t,
        None => String::new(),
    }
}

proof fn encoded_is_ascii(bytes: Seq<u8>)
    ensures
        is_ascii_chars(encoded(bytes)),
    decreases bytes.len(),
{
    if bytes.len() > 0 {
        encoded_is_ascii(bytes.skip(1));
        let a = encoded_byte(bytes[0]);
        let all = encoded(bytes);
        assert forall|i: int| 0 <= i < all.len() implies '\0' <= #[trigger] all[i] <= '\u{7f}' by {
            if i < a.len() {
                assert(all[i] == a[i]);
            } else {
                assert(all[i] == encoded(bytes.skip(1))[i - a.len()]);
            }
        }
    }
}

/// The codes of ASCII characters.
spec fn codes(s: Seq<char>) -> Seq<u8> {
    Seq::new(s.len(), |i: int| s[i] as u8)
}

proof fn decoded_codes(bytes: Seq<u8>)
    ensures
        decoded(codes(encoded(bytes))) == Some(bytes),
    decreases bytes.len(),
{
    let e = encoded(bytes);
    let c = codes(e);
    if bytes.len() == 0 {
        assert(c =~= Seq::<u8>::empty());
        assert(bytes =~= Seq::<u8>::empty());
    } else {
        let b = bytes[0];
        let rest = bytes.skip(1);
        decoded_codes(rest);
        encoded_is_ascii(rest);
        let er = encoded(rest);
        assert(seq![b] + rest =~= bytes);
        if unreserved(b) {
            assert(e[0] == b as char);
            assert(c[0] == b);
            assert(c.skip(1) =~= codes(er)) by {
                assert forall|i: int| 0 <= i < er.len() implies c.skip(1)[i] == codes(er)[i] by {
                    assert(e[i + 1] == er[i]);
                }
            }
        } else {
            let h = hex_byte(b);
            assert(e[0] == '%' && e[1] == h[0] && e[2] == h[1]);
            printed_byte_reads_back(b);
            assert(c[1] as int == h[0] as int && c[2] as int == h[1] as int);
            if e.len() > 3 {
                assert(e[3] == er[0]);
                assert(c[3] as int == er[0] as int);
            }
            assert(c.skip(3) =~= codes(er)) by {
                assert forall|i: int| 0 <= i < er.len() implies c.skip(3)[i] == codes(er)[i] by {
                    assert(e[i + 3] == er[i]);
                }
            }
        }
    }
}

/// An encoded text decodes to itself: [`percent_decode`] undoes [`percent_encode_qs`].
pub proof fn encoding_is_undone(s: Seq<char>)
    ensures
        decoded(encode_utf8(encoded(encode_utf8(s)))) matches Some(b) && text_in(b) == s,
        decoded(encode_utf8(encoded(encode_utf8(s)))) == Some(encode_utf8(s)),
        valid_utf8(encode_utf8(s)),
        decode_utf8(encode_utf8(s)) == s,
{
    let bytes = encode_utf8(s);
    let e = encoded(bytes);
    encoded_is_ascii(bytes);
    is_ascii_chars_encode_utf8(e);
    assert(encode_utf8(e) =~= codes(e));
    decoded_codes(bytes);
    encode_utf8_valid_utf8(s);
    encode_utf8_decode_utf8(s);
}

proof fn bytes_are_encoded_apart(a: Seq<u8>, b: Seq<u8>)
    ensures
        encoded(a + b) == encoded(a) + encoded(b),
    decreases a.len(),
{
    if a.len() == 0 {
        assert(a + b =~= b);
        assert(encoded(a) + encoded(b) =~= encoded(b));
    } else {
        assert((a + b).skip(1) =~= a.skip(1) + b);
        bytes_are_encoded_apart(a.skip(1), b);
        assert(encoded_byte(a[0]) + (encoded(a.skip(1)) + encoded(b)) =~= encoded_byte(a[0]) + encoded(a.skip(1))
            + encoded(b));
    }
}

proof fn utf8_of_two_texts(s: Seq<char>, t: Seq<char>)
    ensures
        encode_utf8(s + t) == encode_utf8(s) + encode_utf8(t),
    decreases s.len(),
{
    if s.len() == 0 {
        assert(s + t =~= t);
        assert(encode_utf8(s) + encode_utf8(t) =~= encode_utf8(t));
    } else {
        assert((s + t).drop_first() =~= s.drop_first() + t);
        utf8_of_two_texts(s.drop_first(), t);
        let first = encode_scalar(s[0] as u32);
        assert(first + (encode_utf8(s.drop_first()) + encode_utf8(t)) =~= first + encode_utf8(s.drop_first())
            + encode_utf8(t));
    }
}

/// Two texts one behind the other are encoded one behind the other.
pub proof fn texts_are_encoded_apart(s: Seq<char>, t: Seq<char>)
    ensures
        encoded(encode_utf8(s + t)) == encoded(encode_utf8(s)) + encoded(encode_utf8(t)),
{
    utf8_of_two_texts(s, t);
    bytes_are_encoded_apart(encode_utf8(s), encode_utf8(t));
}

/// What is encoded holds only characters that need no encoding, and the percent sign.
pub proof fn encoded_is_safe(bytes: Seq<u8>, i: int)
    requires
        0 <= i < encoded(bytes).len(),
    ensures
        encoded(bytes)[i] == '%' || ((encoded(bytes)[i] as u32) < 128 && unreserved(encoded(bytes)[i] as u8)),
    decreases bytes.len(),
{
    let a = encoded_byte(bytes[0]);
    if i < a.len() {
        assert(encoded(bytes)[i] == a[i]);
    } else {
        encoded_is_safe(bytes.skip(1), i - a.len());
        assert(encoded(bytes)[i] == encoded(bytes.skip(1))[i - a.len()]);
    }
}

/// A `%` and two hexadecimal digits behind it are the byte that they spell, unless the character
/// that follows begins before it; any other byte is itself.
pub proof fn bytes_are_decoded_one_by_one(x: u8, y: u8, b: u8, rest: Seq<u8>)
    requires
        rest.len() > 0 ==> !is_continuation_byte(rest[0]),
        b != 37,
        decoded(rest) is Some,
    ensures
        hex_pair(x as int, y as int) is Some ==> decoded(seq![37u8, x, y] + rest) == Some(
            seq![hex_pair(x as int, y as int)->0 as u8] + decoded(rest)->0,
        ),
        decoded(seq![b] + rest) == Some(seq![b] + decoded(rest)->0),
        decoded(Seq::empty()) == Some(Seq::<u8>::empty()),
{
    let s = seq![37u8, x, y] + rest;
    assert(s[0] == 37 && s[1] == x && s[2] == y);
    if rest.len() > 0 {
        assert(s[3] == rest[0]);
    }
    assert(s.skip(3) =~= rest);
    let t = seq![b] + rest;
    assert(t[0] == b);
    assert(t.skip(1) =~= rest);
}

/// A text without `%` decodes to itself.
pub proof fn plain_text_is_kept(s: Seq<char>)
    requires
        !encode_utf8(s).contains(37),
    ensures
        decoded(encode_utf8(s)) matches Some(b) && text_in(b) == s,
{
    plain_bytes_are_kept(encode_utf8(s));
    encode_utf8_valid_utf8(s);
    encode_utf8_decode_utf8(s);
}

proof fn plain_bytes_are_kept(bytes: Seq<u8>)
    requires
        !bytes.contains(37),
    ensures
        decoded(bytes) == Some(bytes),
    decreases bytes.len(),
{
    if bytes.len() > 0 {
        let rest = bytes.skip(1);
        assert(bytes.contains(bytes[0]));
        assert forall|b: u8| rest.contains(b) implies bytes.contains(b) by {
            let k = rest.index_of(b);
            assert(bytes[k + 1] == b);
        }
        plain_bytes_are_kept(rest);
        assert(seq![bytes[0]] + rest =~= bytes);
    } else {
        assert(bytes =~= Seq::<u8>::empty());
    }
}

/// Letters, digits and `-`, `_`, `.` and `~` are written as they are, and every other byte as a `%`
/// and its two hexadecimal digits.
pub proof fn bytes_are_encoded_one_by_one(b: u8, rest: Seq<u8>)
    ensures
        encoded(Seq::empty()).len() == 0,
        ('A' <= b as char <= 'Z') || ('a' <= b as char <= 'z') || ('0' <= b as char <= '9') || b as char == '-' || b as char
            == '_' || b as char == '.' || b as char == '~' ==> encoded(seq![b] + rest) == seq![b as char] + encoded(rest),
        !(('A' <= b as char <= 'Z') || ('a' <= b as char <= 'z') || ('0' <= b as char <= '9') || b as char == '-' || b as char
            == '_' || b as char == '.' || b as char == '~') ==> encoded(seq![b] + rest) == seq!['%'] + hex_byte(b)
            + encoded(rest),
{
    let s = seq![b] + rest;
    assert(s[0] == b);
    assert(s.skip(1) =~= rest);
}

} // verus!
